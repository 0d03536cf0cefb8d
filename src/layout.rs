use vstd::prelude::*;

use crate::compress::{inflate_of, zlib_compress, zlib_of};
use crate::error::ObjectError;
use crate::oid::{is_hex_char, is_object_id, object_id, object_id_of};
use crate::record::{encode_blob, record_of};

verus! {

/// The directory of `id`'s object: the objects root and its first two digits.
pub open spec fn object_dir_of(id: Seq<char>) -> Seq<char> {
    ".git/objects/"@ + id.subrange(0, 2)
}

/// The file of `id`'s object: inside its directory, named by the other 38 digits.
pub open spec fn object_file_of(id: Seq<char>) -> Seq<char> {
    object_dir_of(id) + "/"@ + id.subrange(2, 40)
}

/// Where an object lives on disk.
pub struct ObjectLocation {
    pub dir: String,
    pub file: String,
}

/// The directory and file of the object named `id`; refused with
/// `InvalidIdentifier` unless `id` is forty lowercase hex digits.
pub fn object_location(id: &str) -> (r: Result<ObjectLocation, ObjectError>)
    ensures
        match r {
            Ok(loc) => is_object_id(id@) && loc.dir@ == object_dir_of(id@) && loc.file@
                == object_file_of(id@),
            Err(e) => e == ObjectError::InvalidIdentifier && !is_object_id(id@),
        },
{
    if id.unicode_len() != 40 {
        return Err(ObjectError::InvalidIdentifier);
    }
    let mut i: usize = 0;
    while i < 40
        invariant
            id@.len() == 40,
            i <= 40,
            forall|k: int| 0 <= k < i ==> is_hex_char(#[trigger] id@[k]),
        decreases 40 - i,
    {
        let c = id.get_char(i);
        if !(('0' <= c && c <= '9') || ('a' <= c && c <= 'f')) {
            return Err(ObjectError::InvalidIdentifier);
        }
        i = i + 1;
    }
    assert(id.is_ascii()) by {
        assert forall|k: int| 0 <= k < id@.len() implies '\0' <= #[trigger] id@[k] <= '\u{7f}' by {
            assert(is_hex_char(id@[k]));
        }
    }
    let mut dir = String::from_str(".git/objects/");
    dir.append(id.substring_ascii(0, 2));
    let mut file = String::from_str(dir.as_str());
    file.append("/");
    file.append(id.substring_ascii(2, 40));
    Ok(ObjectLocation { dir, file })
}

/// What writing one blob to disk takes: its identifier, where it goes, and
/// the compressed record to write there.
pub struct PutPlan {
    pub id: String,
    pub location: ObjectLocation,
    pub data: Vec<u8>,
}

/// The plan for storing `content` on disk. It always succeeds.
pub fn plan_put(content: &Vec<u8>) -> (r: Result<PutPlan, ObjectError>)
    ensures
        r is Ok,
        match r {
            Ok(p) => {
                &&& p.id@ == object_id_of(content@)
                &&& p.location.dir@ == object_dir_of(p.id@)
                &&& p.location.file@ == object_file_of(p.id@)
                &&& p.data@ == zlib_of(record_of(content@))
                &&& inflate_of(p.data@) == Some(record_of(content@))
            },
            Err(e) => e == ObjectError::Io,
        },
{
    let id = object_id(content);
    let location = match object_location(id.as_str()) {
        Ok(loc) => loc,
        Err(_) => {
            return Err(ObjectError::Io);
        },
    };
    let rec = encode_blob(content);
    match zlib_compress(&rec) {
        Some(data) => Ok(PutPlan { id, location, data }),
        None => Err(ObjectError::Io),
    }
}

/// How an attempt to create a directory or a file ended.
#[derive(Clone, Copy, Debug, PartialEq, Eq, Structural)]
pub enum CreateOutcome {
    Created,
    AlreadyExists,
    Failed,
}

/// What the write path does next.
#[derive(Clone, Copy, Debug, PartialEq, Eq, Structural)]
pub enum PutStep {
    /// Create the object file exclusively.
    CreateFile,
    /// Write the compressed record into the file just created.
    WriteData,
    /// The object is stored: nothing more to do.
    Done,
    /// Give up with this error.
    Fail(ObjectError),
}

/// The step after trying to create the object's directory: a directory that
/// already exists is as good as a new one.
pub fn after_dir_created(outcome: CreateOutcome) -> (r: PutStep)
    ensures
        r == (match outcome {
            CreateOutcome::Failed => PutStep::Fail(ObjectError::Io),
            _ => PutStep::CreateFile,
        }),
{
    match outcome {
        CreateOutcome::Failed => PutStep::Fail(ObjectError::Io),
        _ => PutStep::CreateFile,
    }
}

/// The step after trying to create the object file exclusively: a file that
/// already exists holds the same object, so nothing is rewritten.
pub fn after_file_created(outcome: CreateOutcome) -> (r: PutStep)
    ensures
        r == (match outcome {
            CreateOutcome::Created => PutStep::WriteData,
            CreateOutcome::AlreadyExists => PutStep::Done,
            CreateOutcome::Failed => PutStep::Fail(ObjectError::Io),
        }),
{
    match outcome {
        CreateOutcome::Created => PutStep::WriteData,
        CreateOutcome::AlreadyExists => PutStep::Done,
        CreateOutcome::Failed => PutStep::Fail(ObjectError::Io),
    }
}

} // verus!
