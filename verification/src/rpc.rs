//! Wire-level payload types of the upload protocol and the error taxonomy
//! surfaced to its callers.

use vstd::prelude::*;

verus! {

/// Identifies a logical file and its expected final size. Supplied by the
/// client when an upload is initiated and never mutated afterwards for a
/// given session.
#[derive(Clone, Debug)]
pub struct FileMetadata {
    pub file_name: String,
    pub last_modified: u64,
    pub file_size: u64,
}

/// One bounded slice of file bytes sent in a single protocol call. Always
/// written starting at byte `offset` of the storage unit backing the session
/// identified by `token`.
#[derive(Clone, Debug)]
pub struct FileChunk {
    pub token: u32,
    pub offset: u64,
    pub data: Vec<u8>,
}

/// Failures reported by a storage backend.
#[derive(Clone, Copy, Debug, PartialEq, Eq, Structural)]
pub enum StorageError {
    /// The underlying medium rejected allocation or a write.
    NotWritable,
    /// No storage unit exists for the requested logical name.
    InvalidTarget,
}

/// Failures surfaced by the upload service.
#[derive(Clone, Copy, Debug, PartialEq, Eq, Structural)]
pub enum UploadError {
    /// Unknown or already retired token.
    InvalidToken,
    /// The chunk's offset does not equal the stored length.
    BadOffset,
    /// A storage-backend fault, surfaced verbatim.
    Storage(StorageError),
}

impl UploadError {
    /// The human-readable message carried beside the error status at the
    /// protocol boundary.
    pub fn message(&self) -> (r: &'static str)
        ensures
            *self == UploadError::InvalidToken ==> r@ == "Invalid token"@,
            *self == UploadError::BadOffset ==> r@ == "Bad offset"@,
            *self == UploadError::Storage(StorageError::NotWritable) ==> r@
                == "Storage not writable"@,
            *self == UploadError::Storage(StorageError::InvalidTarget) ==> r@
                == "Invalid storage target"@,
    {
        match self {
            UploadError::InvalidToken => "Invalid token",
            UploadError::BadOffset => "Bad offset",
            UploadError::Storage(StorageError::NotWritable) => "Storage not writable",
            UploadError::Storage(StorageError::InvalidTarget) => "Invalid storage target",
        }
    }
}

} // verus!
