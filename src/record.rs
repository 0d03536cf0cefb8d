use vstd::prelude::*;

use crate::error::ObjectError;

verus! {

/// The decimal digits of `n` as ASCII bytes, without leading zeros.
pub open spec fn decimal(n: nat) -> Seq<u8>
    decreases n,
{
    if n < 10 {
        seq![(n + 48) as u8]
    } else {
        decimal(n / 10).push(((n % 10) + 48) as u8)
    }
}

/// The ASCII bytes of the tag `blob `.
pub open spec fn blob_tag() -> Seq<u8> {
    seq![98u8, 108u8, 111u8, 98u8, 32u8]
}

/// The header that frames a payload of `len` bytes: tag, decimal length, NUL.
pub open spec fn header_of(len: nat) -> Seq<u8> {
    blob_tag() + decimal(len) + seq![0u8]
}

/// The canonical record of `content`: its header followed by the bytes verbatim.
pub open spec fn record_of(content: Seq<u8>) -> Seq<u8> {
    header_of(content.len()) + content
}

/// Every byte of a decimal rendering is an ASCII digit, so never NUL.
pub proof fn lemma_decimal_digits(n: nat)
    ensures
        decimal(n).len() >= 1,
        forall|i: int| 0 <= i < decimal(n).len() ==> 48 <= #[trigger] decimal(n)[i] <= 57,
    decreases n,
{
    if n >= 10 {
        lemma_decimal_digits(n / 10);
    }
}

/// The only NUL in a header is its last byte.
pub proof fn lemma_header_nul(len: nat)
    ensures
        header_of(len).len() == decimal(len).len() + 6,
        header_of(len).last() == 0,
        forall|i: int| 0 <= i < header_of(len).len() - 1 ==> #[trigger] header_of(len)[i] != 0,
{
    lemma_decimal_digits(len);
    let h = header_of(len);
    assert forall|i: int| 0 <= i < h.len() - 1 implies #[trigger] h[i] != 0 by {
        if i >= 5 {
            assert(h[i] == decimal(len)[i - 5]);
        }
    }
}

/// Distinct payloads have distinct records: the framing loses nothing.
pub proof fn lemma_record_injective(c1: Seq<u8>, c2: Seq<u8>)
    requires
        record_of(c1) == record_of(c2),
    ensures
        c1 == c2,
{
    lemma_header_nul(c1.len());
    lemma_header_nul(c2.len());
    let h1 = header_of(c1.len());
    let h2 = header_of(c2.len());
    let r = record_of(c1);
    assert(r == record_of(c2));
    // both headers end at the first NUL of the record
    if h1.len() < h2.len() {
        assert(r[h1.len() - 1] == h1[h1.len() - 1]);
        assert(r[h1.len() - 1] == h2[h1.len() - 1]);
    } else if h2.len() < h1.len() {
        assert(r[h2.len() - 1] == h2[h2.len() - 1]);
        assert(r[h2.len() - 1] == h1[h2.len() - 1]);
    }
    assert(h1.len() == h2.len());
    assert(c1 =~= r.subrange(h1.len() as int, r.len() as int));
    assert(c2 =~= r.subrange(h2.len() as int, r.len() as int));
}

/// Appends the decimal digits of `n` to `out`.
fn push_decimal(out: &mut Vec<u8>, n: u64)
    ensures
        final(out)@ == old(out)@ + decimal(n as nat),
    decreases n,
{
    if n >= 10 {
        push_decimal(out, n / 10);
    }
    out.push((n % 10) as u8 + 48);
    proof {
        if n >= 10 {
            assert(decimal(n as nat) == decimal((n / 10) as nat).push(((n % 10) + 48) as u8));
        }
    }
}

/// Appends the header for a payload of `len` bytes to `out`.
fn push_header(out: &mut Vec<u8>, len: u64)
    ensures
        final(out)@ == old(out)@ + header_of(len as nat),
{
    out.push(98);
    out.push(108);
    out.push(111);
    out.push(98);
    out.push(32);
    push_decimal(out, len);
    out.push(0);
    assert(final(out)@ =~= old(out)@ + header_of(len as nat));
}

/// A blob: its declared size and its content.
pub struct Blob {
    pub size: u64,
    pub content: Vec<u8>,
}

impl Blob {
    /// A blob of `content`, whose size is its length in bytes.
    pub fn new(size: u64, content: Vec<u8>) -> (r: Blob)
        requires
            size == content@.len(),
        ensures
            r.size == size,
            r.content@ == content@,
    {
        Blob { size, content }
    }

    /// The blob framed as `blob <size>\0<content>`: its canonical record
    /// where the size is the content's length.
    pub fn to_record(&self) -> (r: Vec<u8>)
        ensures
            r@ == header_of(self.size as nat) + self.content@,
            self.size == self.content@.len() ==> r@ == record_of(self.content@),
    {
        let mut out: Vec<u8> = Vec::new();
        push_header(&mut out, self.size);
        let mut i: usize = 0;
        while i < self.content.len()
            invariant
                i <= self.content@.len(),
                out@ == header_of(self.size as nat) + self.content@.subrange(0, i as int),
            decreases self.content@.len() - i,
        {
            out.push(self.content[i]);
            i = i + 1;
            assert(self.content@.subrange(0, i as int) =~= self.content@.subrange(0, i - 1).push(
                self.content@[i - 1],
            ));
            assert(out@ =~= header_of(self.size as nat) + self.content@.subrange(0, i as int));
        }
        assert(self.content@.subrange(0, i as int) =~= self.content@);
        out
    }
}

/// The canonical record of `content`.
pub fn encode_blob(content: &Vec<u8>) -> (r: Vec<u8>)
    ensures
        r@ == record_of(content@),
{
    let blob = Blob::new(content.len() as u64, content.clone());
    blob.to_record()
}

/// The payload of a canonical record. A record is refused when it has no NUL,
/// when its header is not `blob <decimal length>` or when the declared length
/// differs from the number of bytes after the NUL.
pub fn decode_record(rec: &Vec<u8>) -> (r: Result<Vec<u8>, ObjectError>)
    ensures
        match r {
            Ok(c) => rec@ == record_of(c@),
            Err(e) => e == ObjectError::MalformedRecord && !exists|c: Seq<u8>|
                rec@ == #[trigger] record_of(c),
        },
{
    let mut nul: usize = 0;
    while nul < rec.len() && rec[nul] != 0
        invariant
            nul <= rec@.len(),
            forall|j: int| 0 <= j < nul ==> rec@[j] != 0,
        decreases rec@.len() - nul,
    {
        nul = nul + 1;
    }
    if nul == rec.len() {
        proof {
            if exists|c: Seq<u8>| rec@ == #[trigger] record_of(c) {
                let c = choose|c: Seq<u8>| rec@ == #[trigger] record_of(c);
                lemma_header_nul(c.len());
                let k = header_of(c.len()).len() - 1;
                assert(rec@[k] == 0);
            }
        }
        return Err(ObjectError::MalformedRecord);
    }
    let mut content: Vec<u8> = Vec::new();
    let mut i: usize = nul + 1;
    while i < rec.len()
        invariant
            nul < i <= rec@.len(),
            content@ == rec@.subrange(nul + 1, i as int),
        decreases rec@.len() - i,
    {
        content.push(rec[i]);
        i = i + 1;
        assert(content@ =~= rec@.subrange(nul + 1, i as int));
    }
    let mut header: Vec<u8> = Vec::new();
    push_header(&mut header, content.len() as u64);
    assert(header@ =~= header_of(content@.len()));
    let ghost clen = content@.len();
    proof {
        lemma_header_nul(clen);
    }
    let mut same = header.len() == nul + 1;
    let mut j: usize = 0;
    while same && j < header.len()
        invariant
            same ==> header@.len() == nul + 1,
            j <= header@.len(),
            same ==> forall|k: int| 0 <= k < j ==> header@[k] == rec@[k],
            !same ==> header@.len() != nul + 1 || exists|k: int|
                0 <= k < j && header@[k] != rec@[k],
            nul < rec@.len(),
        decreases header@.len() - j,
    {
        if header[j] != rec[j] {
            same = false;
        }
        j = j + 1;
    }
    if same {
        assert(rec@ =~= header@ + content@);
        assert(header@ == header_of(content@.len()));
        assert(rec@ == record_of(content@));
        Ok(content)
    } else {
        proof {
            if exists|c: Seq<u8>| rec@ == #[trigger] record_of(c) {
                let c = choose|c: Seq<u8>| rec@ == #[trigger] record_of(c);
                lemma_header_nul(c.len());
                let h = header_of(c.len());
                // the first NUL of the record closes its header
                if h.len() - 1 < nul {
                    assert(rec@[h.len() - 1] == h[h.len() - 1]);
                } else if h.len() - 1 > nul {
                    assert(rec@[nul as int] == h[nul as int]);
                }
                assert(h.len() == nul + 1);
                assert(c =~= rec@.subrange(nul + 1, rec@.len() as int));
                assert(c == content@);
                assert(header@ == h);
                assert forall|k: int| 0 <= k < header@.len() implies header@[k] == rec@[k] by {
                    assert(rec@[k] == h[k]);
                }
            }
        }
        Err(ObjectError::MalformedRecord)
    }
}

} // verus!
