//! Resumable chunked-upload library: a server that issues upload-session
//! tokens and enforces append-only, offset-verified writes against a storage
//! backend, and the client-side transfer driver that resumes an interrupted
//! upload from the exact byte offset the server reports.

pub mod catalog;
pub mod client_config;
pub mod driver;
pub mod rpc;
pub mod server;
pub mod server_config;
pub mod session;
pub mod storage;

pub use rpc::{FileChunk, FileMetadata};
