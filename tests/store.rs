use std::io::Write;

use toy_git::error::ObjectError;
use toy_git::layout::{
    after_dir_created, after_file_created, object_location, plan_put, CreateOutcome, PutStep,
};
use toy_git::oid::{object_id, parse_object_id, to_hex};
use toy_git::record::{decode_record, encode_blob, Blob};
use toy_git::store::{read_object, MemStore};

fn zlib(data: &[u8]) -> Vec<u8> {
    let mut e = flate2::write::ZlibEncoder::new(Vec::new(), flate2::Compression::default());
    e.write_all(data).unwrap();
    e.finish().unwrap()
}

#[test]
fn hash_object_creates_correct_object_file() {
    let content = b"hello\n".to_vec();
    let id = object_id(&content);
    assert_eq!(id, "ce013625030ba8dba906f756967f9e9ca394464a");
    let plan = match plan_put(&content) {
        Ok(p) => p,
        Err(e) => panic!("plan failed: {:?}", e),
    };
    assert_eq!(plan.id, "ce013625030ba8dba906f756967f9e9ca394464a");
    assert_eq!(plan.location.dir, ".git/objects/ce");
    assert_eq!(plan.location.file, ".git/objects/ce/013625030ba8dba906f756967f9e9ca394464a");
    assert_eq!(read_object(&plan.data), Ok(content));
}

#[test]
fn hash_object_same_content_same_hash() {
    let a = b"same content\n".to_vec();
    let b = b"same content\n".to_vec();
    let mut store = MemStore::new();
    let id_a = store.put(&a).unwrap();
    let id_b = store.put(&b).unwrap();
    assert_eq!(id_a, id_b);
    assert_eq!(store.len(), 1);
}

#[test]
fn cat_file_prints_blob_content() {
    let content = b"hello from cat-file\n".to_vec();
    let mut store = MemStore::new();
    let id = store.put(&content).unwrap();
    assert_eq!(id.len(), 40);
    assert_eq!(store.get(&id), Ok(content));
}

#[test]
fn cat_file_invalid_hash_should_fail() {
    let store = MemStore::new();
    assert_eq!(
        store.get("deadbeefdeadbeefdeadbeefdeadbeefdeadbeef"),
        Err(ObjectError::NotFound)
    );
}

#[test]
fn get_short_identifier_is_invalid() {
    let store = MemStore::new();
    assert_eq!(store.get("deadbeef"), Err(ObjectError::InvalidIdentifier));
}

#[test]
fn get_uppercase_or_non_hex_identifier_is_invalid() {
    let store = MemStore::new();
    assert_eq!(
        store.get("CE013625030BA8DBA906F756967F9E9CA394464A"),
        Err(ObjectError::InvalidIdentifier)
    );
    assert_eq!(
        store.get("ce013625030ba8dba906f756967f9e9ca394464g"),
        Err(ObjectError::InvalidIdentifier)
    );
    assert_eq!(
        object_location("ce013625030ba8dba906f756967f9e9ca394464").map(|l| l.file),
        Err(ObjectError::InvalidIdentifier)
    );
}

#[test]
fn round_trip_hello() {
    let content = b"hello\n".to_vec();
    let mut store = MemStore::new();
    let id = store.put(&content).unwrap();
    assert_eq!(id, "ce013625030ba8dba906f756967f9e9ca394464a");
    assert_eq!(store.get(&id), Ok(content));
}

#[test]
fn round_trip_empty_content() {
    let mut store = MemStore::new();
    let id = store.put(&Vec::new()).unwrap();
    assert_eq!(id, "e69de29bb2d1d6434b8b29ae775ad8c2e48c5391");
    assert_eq!(store.get(&id), Ok(Vec::new()));
}

#[test]
fn round_trip_binary_with_nul() {
    let content = vec![0u8, 1, 2, 0, 255, 0, 98, 108, 111, 98];
    let mut store = MemStore::new();
    let id = store.put(&content).unwrap();
    assert_eq!(store.get(&id), Ok(content));
}

#[test]
fn put_twice_keeps_the_stored_object() {
    let content = b"twice\n".to_vec();
    let mut store = MemStore::new();
    let first = store.put(&content).unwrap();
    let after_first = store.get(&first);
    let second = store.put(&content).unwrap();
    assert_eq!(first, second);
    assert_eq!(store.get(&second), after_first);
    assert_eq!(store.len(), 1);
}

#[test]
fn distinct_contents_get_distinct_ids() {
    let mut store = MemStore::new();
    let a = store.put(&b"a".to_vec()).unwrap();
    let b = store.put(&b"b".to_vec()).unwrap();
    let ab = store.put(&b"a\0".to_vec()).unwrap();
    assert_ne!(a, b);
    assert_ne!(a, ab);
    assert_ne!(b, ab);
    assert_eq!(store.len(), 3);
    assert_eq!(store.get(&a), Ok(b"a".to_vec()));
    assert_eq!(store.get(&ab), Ok(b"a\0".to_vec()));
}

#[test]
fn identifier_is_stable() {
    let content = b"stable\n".to_vec();
    let mut one = MemStore::new();
    let mut two = MemStore::new();
    two.put(&b"other".to_vec()).unwrap();
    assert_eq!(one.put(&content).unwrap(), two.put(&content).unwrap());
    assert_eq!(object_id(&content), object_id(&content));
}

#[test]
fn encode_hello_record() {
    assert_eq!(encode_blob(&b"hello\n".to_vec()), b"blob 6\0hello\n".to_vec());
    assert_eq!(encode_blob(&Vec::new()), b"blob 0\0".to_vec());
}

#[test]
fn blob_to_record_frames_content() {
    let blob = Blob::new(2, b"hi".to_vec());
    assert_eq!(blob.size, 2);
    assert_eq!(blob.to_record(), b"blob 2\0hi".to_vec());
    let twelve = b"hello world\n".to_vec();
    assert_eq!(Blob::new(12, twelve.clone()).to_record(), encode_blob(&twelve));
    let big = vec![7u8; 1000];
    let rec = Blob::new(1000, big.clone()).to_record();
    assert_eq!(&rec[..10], b"blob 1000\0");
    assert_eq!(&rec[10..], &big[..]);
}

#[test]
fn decode_well_formed_record() {
    assert_eq!(decode_record(&b"blob 6\0hello\n".to_vec()), Ok(b"hello\n".to_vec()));
    assert_eq!(decode_record(&b"blob 3\0a\0b".to_vec()), Ok(b"a\0b".to_vec()));
    assert_eq!(decode_record(&b"blob 0\0".to_vec()), Ok(Vec::new()));
}

#[test]
fn decode_malformed_records() {
    let bad: Vec<&[u8]> = vec![
        b"blob 6hello\n",
        b"blob 5\0hello\n",
        b"blob 06\0hello\n",
        b"tree 6\0hello\n",
        b"blob6\0hello\n",
        b"blob \0",
        b"",
    ];
    for r in bad {
        assert_eq!(decode_record(&r.to_vec()), Err(ObjectError::MalformedRecord));
    }
}

#[test]
fn read_object_rejects_garbage_and_non_records() {
    assert_eq!(read_object(&b"not zlib at all".to_vec()), Err(ObjectError::Io));
    assert_eq!(read_object(&zlib(b"hello")), Err(ObjectError::MalformedRecord));
    assert_eq!(read_object(&zlib(b"blob 5\0hello")), Ok(b"hello".to_vec()));
}

#[test]
fn compressed_data_is_not_the_record() {
    let content = b"hello\n".to_vec();
    let plan = plan_put(&content).unwrap();
    assert_ne!(plan.data, encode_blob(&content));
    assert_eq!(plan.data[0], 0x78);
}

#[test]
fn hex_rendering_and_parsing() {
    assert_eq!(to_hex(&vec![0x00, 0x0f, 0xa5, 0xff]), "000fa5ff");
    let digest = parse_object_id("ce013625030ba8dba906f756967f9e9ca394464a").unwrap();
    assert_eq!(digest.len(), 20);
    assert_eq!(digest[0], 0xce);
    assert_eq!(digest[19], 0x4a);
    assert_eq!(to_hex(&digest), "ce013625030ba8dba906f756967f9e9ca394464a");
    assert_eq!(parse_object_id("deadbeef"), Err(ObjectError::InvalidIdentifier));
}

#[test]
fn write_path_steps() {
    assert_eq!(after_dir_created(CreateOutcome::Created), PutStep::CreateFile);
    assert_eq!(after_dir_created(CreateOutcome::AlreadyExists), PutStep::CreateFile);
    assert_eq!(after_dir_created(CreateOutcome::Failed), PutStep::Fail(ObjectError::Io));
    assert_eq!(after_file_created(CreateOutcome::Created), PutStep::WriteData);
    assert_eq!(after_file_created(CreateOutcome::AlreadyExists), PutStep::Done);
    assert_eq!(after_file_created(CreateOutcome::Failed), PutStep::Fail(ObjectError::Io));
}
