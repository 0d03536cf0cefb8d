//! A small content-addressed object store: blobs are framed as
//! `blob <len>\0<bytes>`, named by the SHA-1 digest of that framing in
//! lowercase hex, and kept zlib-compressed under that name.

pub mod error;
pub mod record;
pub mod oid;
pub mod compress;
pub mod store;
pub mod layout;
