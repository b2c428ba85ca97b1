use std::collections::HashSet;

use baacup::rpc::{FileChunk, FileMetadata, UploadError};
use baacup::server::BaacupImpl;
use baacup::storage::InMemoryStorage;

fn chunk_bytes(from: usize, to: usize) -> Vec<u8> {
    (from..to).map(|n| (n % 256) as u8).collect()
}

#[test]
fn test_unique_tokens() {
    // Make manager
    let storage_manager = InMemoryStorage::new();

    // Make a new server from the manager
    let mut server = BaacupImpl::new_from_storage(storage_manager);

    let mut token_set = HashSet::new();
    let mut count = 0;
    while count != 10000 {
        // Upload generated file to server
        let metadata = FileMetadata {
            file_name: format!("file_{}", count),
            last_modified: 0,
            file_size: 1,
        };
        let token = match server.init_upload(metadata) {
            Ok(token) => token,
            Err(err) => panic!("Error: {}", err.message()),
        };
        assert!(!token_set.contains(&token));
        token_set.insert(token);
        count += 1;
    }
}

#[test]
fn test_file_upload() {
    // Make manager
    let storage_manager = InMemoryStorage::new();

    // Make a new server from the manager
    let mut server = BaacupImpl::new_from_storage(storage_manager);

    // Upload generated file to server
    let metadata = FileMetadata {
        file_name: "test_file".into(),
        last_modified: 0,
        file_size: 2048,
    };
    let token = match server.init_upload(metadata) {
        Ok(token) => token,
        Err(err) => panic!("Error: {}", err.message()),
    };
    let offset = server.get_head(token).unwrap();
    assert_eq!(offset, 0);
    let chunk = FileChunk { token, offset, data: chunk_bytes(0, 1024) };
    let _checksum = server.upload_chunk(chunk).unwrap();
    let offset = server.get_head(token).unwrap();
    assert_eq!(offset, 1024);
    let chunk = FileChunk { token, offset, data: chunk_bytes(0, 1024) };
    let _checksum = server.upload_chunk(chunk).unwrap();

    // Get file from storage manager
    let buf = server
        .storage_manager()
        .open_storage(&"test_file".to_string())
        .unwrap();

    // Was it the right length?
    assert_eq!(buf.len(), 2048);

    // Does it have the right contents?
    for (idx, byte) in buf.iter().enumerate() {
        assert_eq!(*byte, (idx % 256) as u8);
    }
}

#[test]
fn test_upload_scenario() {
    let mut server = BaacupImpl::new_from_storage(InMemoryStorage::new());
    let source = chunk_bytes(0, 2048);

    let metadata = FileMetadata { file_name: "f".into(), last_modified: 3, file_size: 2048 };
    let token = server.init_upload(metadata).unwrap();

    assert_eq!(server.get_head(token), Ok(0));
    let first = FileChunk { token, offset: 0, data: source[0..1024].to_vec() };
    assert_eq!(server.upload_chunk(first), Ok(0));

    assert_eq!(server.get_head(token), Ok(1024));
    let second = FileChunk { token, offset: 1024, data: source[1024..2048].to_vec() };
    assert_eq!(server.upload_chunk(second), Ok(0));

    let stored = server.storage_manager().open_storage(&"f".to_string()).unwrap();
    assert_eq!(stored, source);

    assert_eq!(server.get_head(token), Err(UploadError::InvalidToken));
}

#[test]
fn test_completion_retires_token() {
    let mut server = BaacupImpl::new_from_storage(InMemoryStorage::new());
    let metadata = FileMetadata { file_name: "done".into(), last_modified: 0, file_size: 4 };
    let token = server.init_upload(metadata).unwrap();
    let chunk = FileChunk { token, offset: 0, data: vec![1, 2, 3, 4] };
    assert_eq!(server.upload_chunk(chunk), Ok(0));

    // The final chunk exactly reached file_size: the session is retired and
    // both operations reject the token.
    assert_eq!(server.get_head(token), Err(UploadError::InvalidToken));
    let late = FileChunk { token, offset: 4, data: vec![5] };
    assert_eq!(server.upload_chunk(late), Err(UploadError::InvalidToken));
}

#[test]
fn test_bad_offset_rejected() {
    let mut server = BaacupImpl::new_from_storage(InMemoryStorage::new());
    let metadata = FileMetadata { file_name: "g".into(), last_modified: 0, file_size: 2048 };
    let token = server.init_upload(metadata).unwrap();
    let chunk = FileChunk { token, offset: 0, data: chunk_bytes(0, 1024) };
    assert_eq!(server.upload_chunk(chunk), Ok(0));

    // A gap, an overlap and a stale offset are all rejected without
    // touching storage.
    for wrong in [0u64, 512, 2048] {
        let bad = FileChunk { token, offset: wrong, data: vec![7] };
        assert_eq!(server.upload_chunk(bad), Err(UploadError::BadOffset));
        assert_eq!(server.get_head(token), Ok(1024));
    }
    let stored = server.storage_manager().open_storage(&"g".to_string()).unwrap();
    assert_eq!(stored, chunk_bytes(0, 1024));
}

#[test]
fn test_invalid_token_rejected() {
    let mut server = BaacupImpl::new_from_storage(InMemoryStorage::new());
    assert_eq!(server.get_head(42), Err(UploadError::InvalidToken));
    let chunk = FileChunk { token: 42, offset: 0, data: vec![1] };
    assert_eq!(server.upload_chunk(chunk), Err(UploadError::InvalidToken));
}

#[test]
fn test_resumed_upload_is_byte_identical() {
    let source = chunk_bytes(0, 2048);

    // An uninterrupted upload.
    let mut all_at_once = BaacupImpl::new_from_storage(InMemoryStorage::new());
    let metadata = FileMetadata { file_name: "r".into(), last_modified: 9, file_size: 2048 };
    let token = all_at_once.init_upload(metadata).unwrap();
    for k in 0..2 {
        let offset = all_at_once.get_head(token).unwrap();
        assert_eq!(offset, k * 1024);
        let data = source[offset as usize..offset as usize + 1024].to_vec();
        assert_eq!(all_at_once.upload_chunk(FileChunk { token, offset, data }), Ok(0));
    }

    // A client that stops after one chunk and restarts re-derives the
    // resume point from get_head instead of any local state.
    let mut resumed = BaacupImpl::new_from_storage(InMemoryStorage::new());
    let metadata = FileMetadata { file_name: "r".into(), last_modified: 9, file_size: 2048 };
    let token = resumed.init_upload(metadata).unwrap();
    let offset = resumed.get_head(token).unwrap();
    let data = source[0..1024].to_vec();
    assert_eq!(resumed.upload_chunk(FileChunk { token, offset, data }), Ok(0));

    // ... crash and restart: the offset comes from the server again.
    let offset = resumed.get_head(token).unwrap();
    assert_eq!(offset, 1024);
    let data = source[1024..2048].to_vec();
    assert_eq!(resumed.upload_chunk(FileChunk { token, offset, data }), Ok(0));

    let a = all_at_once.storage_manager().open_storage(&"r".to_string()).unwrap();
    let b = resumed.storage_manager().open_storage(&"r".to_string()).unwrap();
    assert_eq!(a, source);
    assert_eq!(a, b);
}

#[test]
fn test_skip_if_unchanged() {
    let mut server = BaacupImpl::new_from_storage(InMemoryStorage::new());
    let metadata = FileMetadata { file_name: "s".into(), last_modified: 42, file_size: 1 };
    let token = server.init_upload(metadata).unwrap();
    assert_eq!(server.upload_chunk(FileChunk { token, offset: 0, data: vec![1] }), Ok(0));

    let same = FileMetadata { file_name: "s".into(), last_modified: 42, file_size: 1 };
    assert_eq!(server.file_is_uploaded(same), Ok(true));

    // Only an exact stamp match proves byte-for-byte correspondence: both
    // an older and a newer stamp force a re-upload.
    let older = FileMetadata { file_name: "s".into(), last_modified: 41, file_size: 1 };
    assert_eq!(server.file_is_uploaded(older), Ok(false));
    let newer = FileMetadata { file_name: "s".into(), last_modified: 43, file_size: 1 };
    assert_eq!(server.file_is_uploaded(newer), Ok(false));

    let unknown = FileMetadata { file_name: "t".into(), last_modified: 42, file_size: 1 };
    assert_eq!(server.file_is_uploaded(unknown), Ok(false));
}

#[test]
fn test_reinit_restarts_at_zero() {
    let mut server = BaacupImpl::new_from_storage(InMemoryStorage::new());
    let metadata = FileMetadata { file_name: "p".into(), last_modified: 1, file_size: 8 };
    let token = server.init_upload(metadata).unwrap();
    assert_eq!(server.upload_chunk(FileChunk { token, offset: 0, data: vec![1, 2, 3] }), Ok(0));
    assert_eq!(server.get_head(token), Ok(3));

    // Re-initiating the same name truncates the partial unit back to zero.
    let metadata = FileMetadata { file_name: "p".into(), last_modified: 2, file_size: 8 };
    let second_token = server.init_upload(metadata).unwrap();
    assert_ne!(token, second_token);
    assert_eq!(server.get_head(second_token), Ok(0));
}

#[test]
fn test_error_messages() {
    assert_eq!(UploadError::InvalidToken.message(), "Invalid token");
    assert_eq!(UploadError::BadOffset.message(), "Bad offset");
}
