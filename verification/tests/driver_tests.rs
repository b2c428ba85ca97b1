use baacup::driver::{BaacupClient, DriverAction, DriverEvent, DriverState, path_excluded, CHUNK_SIZE};
use baacup::rpc::{FileChunk, FileMetadata};
use baacup::server::BaacupImpl;
use baacup::session::SessionManager;
use baacup::storage::InMemoryStorage;

fn source_bytes(len: usize) -> Vec<u8> {
    (0..len).map(|n| (n % 256) as u8).collect()
}

/// Runs one driver against an in-process server over the given local file
/// bytes, the way the embedding program runs the loop, and hands back the
/// server once the driver stops.
fn run_transfer(
    server: &mut BaacupImpl<InMemoryStorage>,
    file: &[u8],
    metadata: FileMetadata,
) -> BaacupClient {
    let mut driver = BaacupClient::new(metadata.clone());
    let mut pending: Vec<u8> = Vec::new();
    let mut action = driver.step(DriverEvent::Start);
    loop {
        match action {
            DriverAction::CheckUploaded => {
                action = match server.file_is_uploaded(metadata.clone()) {
                    Ok(skip) => driver.step(DriverEvent::Uploaded { skip }),
                    Err(_) => driver.step(DriverEvent::CallFailed),
                };
            }
            DriverAction::InitUpload => {
                action = match server.init_upload(metadata.clone()) {
                    Ok(token) => driver.step(DriverEvent::Token { token }),
                    Err(_) => driver.step(DriverEvent::CallFailed),
                };
            }
            DriverAction::GetHead { token } => {
                action = match server.get_head(token) {
                    Ok(offset) => driver.step(DriverEvent::Head { offset }),
                    Err(_) => driver.step(DriverEvent::CallFailed),
                };
            }
            DriverAction::ReadChunk { token: _, offset } => {
                let start = (offset as usize).min(file.len());
                let end = (start + CHUNK_SIZE as usize).min(file.len());
                pending = file[start..end].to_vec();
                action = driver.step(DriverEvent::Read { len: pending.len() as u64 });
            }
            DriverAction::SendChunk { token, offset, len } => {
                assert_eq!(len as usize, pending.len());
                let chunk = FileChunk { token, offset, data: pending.clone() };
                action = match server.upload_chunk(chunk) {
                    Ok(checksum) => driver.step(DriverEvent::Ack { checksum }),
                    Err(_) => driver.step(DriverEvent::CallFailed),
                };
            }
            DriverAction::Stop => break,
        }
    }
    driver
}

#[test]
fn test_driver_uploads_whole_file() {
    let mut server = BaacupImpl::new_from_storage(InMemoryStorage::new());
    let file = source_bytes(2048);
    let metadata = FileMetadata { file_name: "d".into(), last_modified: 4, file_size: 2048 };

    let driver = run_transfer(&mut server, &file, metadata);
    assert_eq!(driver.state, DriverState::Done);

    let stored = server.storage_manager().open_storage(&"d".to_string()).unwrap();
    assert_eq!(stored, file);
}

#[test]
fn test_driver_handles_short_tail_chunk() {
    let mut server = BaacupImpl::new_from_storage(InMemoryStorage::new());
    let file = source_bytes(1500);
    let metadata = FileMetadata { file_name: "tail".into(), last_modified: 4, file_size: 1500 };

    let driver = run_transfer(&mut server, &file, metadata);
    assert_eq!(driver.state, DriverState::Done);

    let stored = server.storage_manager().open_storage(&"tail".to_string()).unwrap();
    assert_eq!(stored, file);
}

#[test]
fn test_driver_skips_up_to_date_file() {
    let mut server = BaacupImpl::new_from_storage(InMemoryStorage::new());
    let file = source_bytes(100);
    let metadata = FileMetadata { file_name: "skip".into(), last_modified: 11, file_size: 100 };

    let uploaded = run_transfer(&mut server, &file, metadata.clone());
    assert_eq!(uploaded.state, DriverState::Done);

    // The second transfer of the unchanged file stops after the
    // is-uploaded check: no new session is opened.
    let mut driver = BaacupClient::new(metadata.clone());
    let action = driver.step(DriverEvent::Start);
    assert_eq!(action, DriverAction::CheckUploaded);
    let skip = server.file_is_uploaded(metadata).unwrap();
    assert!(skip);
    let action = driver.step(DriverEvent::Uploaded { skip });
    assert_eq!(action, DriverAction::Stop);
    assert_eq!(driver.state, DriverState::Done);
}

#[test]
fn test_driver_fails_on_nonzero_checksum() {
    let metadata = FileMetadata { file_name: "c".into(), last_modified: 0, file_size: 10 };
    let mut driver = BaacupClient::new(metadata);
    driver.step(DriverEvent::Start);
    driver.step(DriverEvent::Uploaded { skip: false });
    driver.step(DriverEvent::Token { token: 1 });
    driver.step(DriverEvent::Head { offset: 0 });
    driver.step(DriverEvent::Read { len: 10 });
    let action = driver.step(DriverEvent::Ack { checksum: 5 });
    assert_eq!(action, DriverAction::Stop);
    assert_eq!(driver.state, DriverState::Failed);
    assert!(driver.finished());
}

#[test]
fn test_driver_fails_on_remote_error() {
    let metadata = FileMetadata { file_name: "e".into(), last_modified: 0, file_size: 10 };
    let mut driver = BaacupClient::new(metadata);
    driver.step(DriverEvent::Start);
    let action = driver.step(DriverEvent::CallFailed);
    assert_eq!(action, DriverAction::Stop);
    assert_eq!(driver.state, DriverState::Failed);
}

#[test]
fn test_driver_stops_on_exhausted_file() {
    // Zero bytes read means the local file is exhausted: completion, not
    // an error.
    let metadata = FileMetadata { file_name: "z".into(), last_modified: 0, file_size: 10 };
    let mut driver = BaacupClient::new(metadata);
    driver.step(DriverEvent::Start);
    driver.step(DriverEvent::Uploaded { skip: false });
    driver.step(DriverEvent::Token { token: 0 });
    driver.step(DriverEvent::Head { offset: 10 });
    let action = driver.step(DriverEvent::Read { len: 0 });
    assert_eq!(action, DriverAction::Stop);
    assert_eq!(driver.state, DriverState::Done);
}

#[test]
fn test_session_manager_lifecycle() {
    let mut manager = SessionManager::new();
    let metadata = FileMetadata { file_name: "m".into(), last_modified: 0, file_size: 1 };
    let first = manager.issue(metadata.clone());
    let second = manager.issue(metadata);
    assert_ne!(first, second);
    assert_eq!(manager.lookup(first).unwrap().file_name, "m");
    manager.retire(first);
    assert!(manager.lookup(first).is_none());
    assert!(manager.lookup(second).is_some());
    // Retiring an absent token is a no-op.
    manager.retire(first);
    assert!(manager.lookup(second).is_some());
}

#[test]
fn test_path_excluded() {
    let exclude = vec!["/tmp/a".to_string(), "/tmp/b".to_string()];
    assert!(path_excluded(&exclude, &"/tmp/a".to_string()));
    assert!(path_excluded(&exclude, &"/tmp/b".to_string()));
    assert!(!path_excluded(&exclude, &"/tmp/c".to_string()));
    assert!(!path_excluded(&Vec::new(), &"/tmp/a".to_string()));
}
