use vstd::prelude::*;

use crate::compress::{inflate_of, zlib_compress, zlib_decompress, zlib_of};
use crate::error::ObjectError;
use crate::oid::{
    digest_of_id, is_object_id, lemma_hex_injective, lemma_hex_of_digest, lemma_id_round_trip,
    object_id, object_id_of, parse_object_id, sha1_of,
};
use crate::record::{decode_record, encode_blob, lemma_record_injective, record_of};

verus! {

/// The digest under which `content` is stored.
pub open spec fn digest_of(content: Seq<u8>) -> Seq<u8> {
    sha1_of(record_of(content))
}

/// The objects after storing `content`: unchanged when its digest is already
/// present, else with the content added under its digest.
pub open spec fn put_model(objects: Map<Seq<u8>, Seq<u8>>, content: Seq<u8>) -> Map<
    Seq<u8>,
    Seq<u8>,
> {
    let d = digest_of(content);
    if objects.contains_key(d) {
        objects
    } else {
        objects.insert(d, content)
    }
}

/// What looking up `id` among `objects` gives.
pub open spec fn get_model(objects: Map<Seq<u8>, Seq<u8>>, id: Seq<char>) -> Result<
    Seq<u8>,
    ObjectError,
> {
    if !is_object_id(id) {
        Err(ObjectError::InvalidIdentifier)
    } else if !objects.contains_key(digest_of_id(id)) {
        Err(ObjectError::NotFound)
    } else {
        Ok(objects[digest_of_id(id)])
    }
}

/// Storing content and then looking up the identifier it was given yields
/// exactly that content, unless another content was already stored under the
/// same digest.
pub proof fn law_round_trip(objects: Map<Seq<u8>, Seq<u8>>, content: Seq<u8>, id: Seq<char>)
    requires
        id == object_id_of(content),
        is_object_id(id),
        objects.contains_key(digest_of(content)) ==> objects[digest_of(content)] == content,
    ensures
        get_model(put_model(objects, content), id) == Ok::<Seq<u8>, ObjectError>(content),
{
    lemma_id_round_trip(id);
    lemma_hex_injective(digest_of_id(id), digest_of(content));
}

/// The identifier and digest of content depend on the content alone: equal
/// contents get equal identifiers, whatever the store already holds.
pub proof fn law_deterministic_id(c1: Seq<u8>, c2: Seq<u8>)
    requires
        c1 == c2,
    ensures
        object_id_of(c1) == object_id_of(c2),
        digest_of(c1) == digest_of(c2),
        put_model(put_model(Map::empty(), c1), c2) == put_model(Map::empty(), c1),
{
}

/// Storing the same content a second time changes nothing.
pub proof fn law_put_idempotent(objects: Map<Seq<u8>, Seq<u8>>, content: Seq<u8>)
    ensures
        put_model(put_model(objects, content), content) == put_model(objects, content),
{
}

/// Contents that differ get different identifiers, provided the digest does
/// not collide on their two records.
pub proof fn law_distinct_ids(c1: Seq<u8>, c2: Seq<u8>)
    requires
        c1 != c2,
        sha1_of(record_of(c1)) == sha1_of(record_of(c2)) ==> record_of(c1) == record_of(c2),
    ensures
        object_id_of(c1) != object_id_of(c2),
{
    if object_id_of(c1) == object_id_of(c2) {
        lemma_hex_injective(sha1_of(record_of(c1)), sha1_of(record_of(c2)));
        lemma_record_injective(c1, c2);
    }
}

/// Looking up a well-formed identifier with nothing stored under it fails
/// with `NotFound`; looking up a malformed one fails with `InvalidIdentifier`.
pub proof fn law_unknown_identifier(objects: Map<Seq<u8>, Seq<u8>>, id: Seq<char>)
    ensures
        is_object_id(id) && !objects.contains_key(digest_of_id(id)) ==> get_model(objects, id)
            == Err::<Seq<u8>, ObjectError>(ObjectError::NotFound),
        !is_object_id(id) ==> get_model(objects, id) == Err::<Seq<u8>, ObjectError>(
            ObjectError::InvalidIdentifier,
        ),
{
}

/// The content held in a stored object: its bytes are inflated and the record
/// framing is removed. Fails with `Io` where inflating fails and with
/// `MalformedRecord` where the inflated bytes are no blob record.
pub fn read_object(stored: &Vec<u8>) -> (r: Result<Vec<u8>, ObjectError>)
    ensures
        match r {
            Ok(c) => inflate_of(stored@) == Some(record_of(c@)),
            Err(ObjectError::Io) => inflate_of(stored@) is None,
            Err(ObjectError::MalformedRecord) => inflate_of(stored@) matches Some(rec) && !exists|
                c: Seq<u8>,
            | rec == #[trigger] record_of(c),
            Err(_) => false,
        },
        forall|c: Seq<u8>|
            inflate_of(stored@) == Some(#[trigger] record_of(c)) ==> (r matches Ok(v) && v@ == c),
{
    let rec = match zlib_decompress(stored) {
        Some(rec) => rec,
        None => {
            return Err(ObjectError::Io);
        },
    };
    let r = decode_record(&rec);
    proof {
        assert forall|c: Seq<u8>|
            inflate_of(stored@) == Some(#[trigger] record_of(c)) implies (r matches Ok(v) && v@ == c) by {
            assert(rec@ == record_of(c));
            if let Ok(v) = r {
                lemma_record_injective(v@, c);
            }
        }
    }
    r
}

/// Whether two byte strings are equal.
fn bytes_equal(a: &Vec<u8>, b: &Vec<u8>) -> (r: bool)
    ensures
        r == (a@ == b@),
{
    if a.len() != b.len() {
        return false;
    }
    let mut i: usize = 0;
    while i < a.len()
        invariant
            a@.len() == b@.len(),
            i <= a@.len(),
            forall|k: int| 0 <= k < i ==> a@[k] == b@[k],
        decreases a@.len() - i,
    {
        if a[i] != b[i] {
            return false;
        }
        i = i + 1;
    }
    assert(a@ =~= b@);
    true
}

/// An object store held in memory: each entry is a digest and the compressed
/// record stored under it.
pub struct MemStore {
    entries: Vec<(Vec<u8>, Vec<u8>)>,
    contents: Ghost<Map<Seq<u8>, Seq<u8>>>,
}

impl MemStore {
    /// The stored contents, keyed by digest.
    pub closed spec fn objects(&self) -> Map<Seq<u8>, Seq<u8>> {
        self.contents@
    }

    /// Each entry holds the compressed record of the content kept under its
    /// digest, each digest is that of its content, and no digest is stored twice.
    pub closed spec fn wf(&self) -> bool {
        &&& forall|i: int|
            0 <= i < self.entries@.len() ==> {
                &&& self.contents@.contains_key(#[trigger] self.entries@[i].0@)
                &&& self.entries@[i].1@ == zlib_of(record_of(self.contents@[self.entries@[i].0@]))
                &&& inflate_of(self.entries@[i].1@) == Some(
                    record_of(self.contents@[self.entries@[i].0@]),
                )
            }
        &&& forall|k: Seq<u8>|
            #[trigger] self.contents@.contains_key(k) ==> exists|i: int|
                0 <= i < self.entries@.len() && #[trigger] self.entries@[i].0@ == k
        &&& forall|k: Seq<u8>| #[trigger]
            self.contents@.contains_key(k) ==> k == digest_of(self.contents@[k])
        &&& forall|i: int, j: int|
            0 <= i < j < self.entries@.len() ==> #[trigger] self.entries@[i].0@
                != #[trigger] self.entries@[j].0@
    }

    /// The number of objects held.
    pub closed spec fn count(&self) -> nat {
        self.entries@.len()
    }

    /// An empty store.
    pub fn new() -> (r: MemStore)
        ensures
            r.wf(),
            r.objects() == Map::<Seq<u8>, Seq<u8>>::empty(),
            r.count() == 0,
    {
        MemStore { entries: Vec::new(), contents: Ghost(Map::empty()) }
    }

    /// The number of objects held: one per distinct stored content.
    pub fn len(&self) -> (r: usize)
        requires
            self.wf(),
        ensures
            r == self.count(),
            r == self.objects().len(),
    {
        proof {
            self.lemma_count();
        }
        self.entries.len()
    }

    /// The count of entries is the number of stored digests.
    proof fn lemma_count(&self)
        requires
            self.wf(),
        ensures
            self.count() == self.objects().len(),
            self.objects().dom().finite(),
    {
        let keys = Seq::new(self.entries@.len(), |i: int| self.entries@[i].0@);
        assert(keys.no_duplicates());
        assert(keys.to_set() =~= self.contents@.dom()) by {
            assert forall|k: Seq<u8>| keys.to_set().contains(k) implies self.contents@.contains_key(
                k,
            ) by {
                let i = choose|i: int| 0 <= i < keys.len() && keys[i] == k;
                assert(self.contents@.contains_key(self.entries@[i].0@));
            }
            assert forall|k: Seq<u8>| self.contents@.contains_key(k) implies keys.to_set().contains(
                k,
            ) by {
                let i = choose|i: int|
                    0 <= i < self.entries@.len() && #[trigger] self.entries@[i].0@ == k;
                assert(keys[i] == k);
            }
        }
        keys.unique_seq_to_set();
    }

    /// The index of the entry stored under `digest`, if any.
    fn find(&self, digest: &Vec<u8>) -> (r: Option<usize>)
        requires
            self.wf(),
        ensures
            match r {
                Some(i) => i < self.entries@.len() && self.entries@[i as int].0@ == digest@,
                None => !self.objects().contains_key(digest@),
            },
    {
        let mut i: usize = 0;
        while i < self.entries.len()
            invariant
                self.wf(),
                i <= self.entries@.len(),
                forall|k: int| 0 <= k < i ==> self.entries@[k].0@ != digest@,
            decreases self.entries@.len() - i,
        {
            if bytes_equal(&self.entries[i].0, digest) {
                return Some(i);
            }
            i = i + 1;
        }
        proof {
            if self.contents@.contains_key(digest@) {
                let k = choose|k: int|
                    0 <= k < self.entries@.len() && #[trigger] self.entries@[k].0@ == digest@;
                assert(self.entries@[k].0@ != digest@);
            }
        }
        None
    }

    /// Stores `content` and returns its identifier; it always succeeds.
    /// Storing content whose digest is already present changes nothing.
    pub fn put(&mut self, content: &Vec<u8>) -> (r: Result<String, ObjectError>)
        requires
            old(self).wf(),
        ensures
            final(self).wf(),
            r is Ok,
            old(self).objects().contains_key(digest_of(content@)) ==> *final(self) == *old(self),
            match r {
                Ok(id) => id@ == object_id_of(content@) && is_object_id(id@) && final(self).objects() == put_model(
                    old(self).objects(),
                    content@,
                ),
                Err(e) => e == ObjectError::Io && *final(self) == *old(self),
            },
    {
        let rec = encode_blob(content);
        let id = object_id(content);
        let digest = match parse_object_id(id.as_str()) {
            Ok(d) => d,
            Err(e) => {
                return Err(e);
            },
        };
        proof {
            lemma_hex_of_digest(sha1_of(rec@));
        }
        assert(digest@ == digest_of(content@));
        match self.find(&digest) {
            Some(_) => {
                return Ok(id);
            },
            None => {},
        }
        let data = match zlib_compress(&rec) {
            Some(data) => data,
            None => {
                return Err(ObjectError::Io);
            },
        };
        let ghost old_store = *self;
        assert(!old_store.contents@.contains_key(digest@));
        self.entries.push((digest, data));
        self.contents = Ghost(self.contents@.insert(digest_of(content@), content@));
        proof {
            let n = old_store.entries@.len();
            assert forall|i: int| 0 <= i < self.entries@.len() implies {
                &&& self.contents@.contains_key(#[trigger] self.entries@[i].0@)
                &&& self.entries@[i].1@ == zlib_of(record_of(self.contents@[self.entries@[i].0@]))
                &&& inflate_of(self.entries@[i].1@) == Some(
                    record_of(self.contents@[self.entries@[i].0@]),
                )
            } by {
                if i < n {
                    assert(self.entries@[i] == old_store.entries@[i]);
                }
            }
            assert forall|k: Seq<u8>| #[trigger]
                self.contents@.contains_key(k) implies exists|i: int|
                0 <= i < self.entries@.len() && #[trigger] self.entries@[i].0@ == k by {
                if k == digest@ {
                    assert(self.entries@[n as int].0@ == k);
                } else {
                    let i = choose|i: int|
                        0 <= i < old_store.entries@.len() && #[trigger] old_store.entries@[i].0@
                            == k;
                    assert(self.entries@[i] == old_store.entries@[i]);
                }
            }
            assert forall|i: int, j: int|
                0 <= i < j < self.entries@.len() implies #[trigger] self.entries@[i].0@
                != #[trigger] self.entries@[j].0@ by {
                assert(self.entries@[i] == old_store.entries@[i]);
                if j < n {
                    assert(self.entries@[j] == old_store.entries@[j]);
                } else {
                    assert(old_store.contents@.contains_key(old_store.entries@[i].0@));
                    assert(!old_store.contents@.contains_key(digest@));
                    assert(self.entries@[j].0@ == digest@);
                }
            }
        }
        Ok(id)
    }

    /// The content stored under `id`. Fails with `InvalidIdentifier` unless
    /// `id` is forty lowercase hex digits, and with `NotFound` when nothing is
    /// stored under it.
    pub fn get(&self, id: &str) -> (r: Result<Vec<u8>, ObjectError>)
        requires
            self.wf(),
        ensures
            match r {
                Ok(c) => get_model(self.objects(), id@) == Ok::<Seq<u8>, ObjectError>(c@),
                Err(e) => get_model(self.objects(), id@) == Err::<Seq<u8>, ObjectError>(e),
            },
    {
        let digest = match parse_object_id(id) {
            Ok(d) => d,
            Err(e) => {
                return Err(e);
            },
        };
        let i = match self.find(&digest) {
            Some(i) => i,
            None => {
                return Err(ObjectError::NotFound);
            },
        };
        let ghost c = self.contents@[digest@];
        assert(inflate_of(self.entries@[i as int].1@) == Some(record_of(c)));
        read_object(&self.entries[i].1)
    }
}

} // verus!
