//! Client-side transfer driver: the state machine that drives a single
//! file through init → (head, chunk)* → done, re-deriving the resume
//! offset from the server's reported head on every iteration.
//!
//! The embedding program owns the outward-facing work — reading the local
//! file and performing the remote calls — and feeds each outcome back as an
//! event; the decisions all live here.

use vstd::prelude::*;

use crate::rpc::FileMetadata;

verus! {

/// Number of file bytes read and sent per chunk.
pub const CHUNK_SIZE: u64 = 1024;

/// Where the transfer of one file stands.
#[derive(Clone, Copy, Debug, PartialEq, Eq, Structural)]
pub enum DriverState {
    /// Nothing has happened yet.
    Idle,
    /// Waiting for the answer to the is-uploaded check.
    AwaitUploaded,
    /// Waiting for the session token of the initiated upload.
    AwaitToken,
    /// Waiting for the server-reported head offset.
    AwaitHead { token: u32 },
    /// Waiting for the bytes read from the local file at `offset`.
    AwaitRead { token: u32, offset: u64 },
    /// Waiting for the acknowledgement of the chunk just sent.
    AwaitAck { token: u32, offset: u64, sent: u64 },
    /// The transfer is over: the file was already up to date, the local
    /// file was exhausted, or the final chunk was acknowledged.
    Done,
    /// A remote call failed or the server acknowledged with a non-zero
    /// checksum; the transfer stops and the error is surfaced.
    Failed,
}

/// The outcome of the outward-facing work the driver asked for.
#[derive(Clone, Copy, Debug, PartialEq, Eq, Structural)]
pub enum DriverEvent {
    /// Begin the transfer.
    Start,
    /// Answer of the is-uploaded check.
    Uploaded { skip: bool },
    /// The token the initiated session was issued.
    Token { token: u32 },
    /// The server-reported head offset.
    Head { offset: u64 },
    /// `len` bytes were read from the local file at the requested offset
    /// (at most `CHUNK_SIZE`; 0 means the file is exhausted).
    Read { len: u64 },
    /// The server acknowledged the chunk with this checksum.
    Ack { checksum: u32 },
    /// The remote call failed.
    CallFailed,
}

/// What the embedding program must do next.
#[derive(Clone, Copy, Debug, PartialEq, Eq, Structural)]
pub enum DriverAction {
    /// Ask the server whether the file is already up to date.
    CheckUploaded,
    /// Initiate the upload with the file's metadata.
    InitUpload,
    /// Ask the server for the head offset of the session.
    GetHead { token: u32 },
    /// Read up to `CHUNK_SIZE` bytes from the local file at `offset`.
    ReadChunk { token: u32, offset: u64 },
    /// Send the `len` bytes just read as a chunk starting at `offset`.
    SendChunk { token: u32, offset: u64, len: u64 },
    /// The transfer is over; perform no further work.
    Stop,
}

/// The transition the driver takes on `event` in state `s` for a file
/// described by `metadata`: the follow-up state and the action the
/// embedding program must perform next. An event that does not answer the
/// pending question is a protocol violation and fails the transfer.
pub open spec fn step_spec(s: DriverState, metadata: FileMetadata, event: DriverEvent) -> (
    DriverState,
    DriverAction,
) {
    match (s, event) {
        (DriverState::Idle, DriverEvent::Start) => (
            DriverState::AwaitUploaded,
            DriverAction::CheckUploaded,
        ),
        (DriverState::AwaitUploaded, DriverEvent::Uploaded { skip }) => if skip {
            (DriverState::Done, DriverAction::Stop)
        } else {
            (DriverState::AwaitToken, DriverAction::InitUpload)
        },
        (DriverState::AwaitToken, DriverEvent::Token { token }) => (
            DriverState::AwaitHead { token },
            DriverAction::GetHead { token },
        ),
        (DriverState::AwaitHead { token }, DriverEvent::Head { offset }) => (
            DriverState::AwaitRead { token, offset },
            DriverAction::ReadChunk { token, offset },
        ),
        (DriverState::AwaitRead { token, offset }, DriverEvent::Read { len }) => if len == 0 {
            (DriverState::Done, DriverAction::Stop)
        } else {
            (
                DriverState::AwaitAck { token, offset, sent: len },
                DriverAction::SendChunk { token, offset, len },
            )
        },
        (DriverState::AwaitAck { token, offset, sent }, DriverEvent::Ack { checksum }) => if checksum
            != 0 {
            (DriverState::Failed, DriverAction::Stop)
        } else if sent <= metadata.file_size && offset == metadata.file_size - sent {
            (DriverState::Done, DriverAction::Stop)
        } else {
            (DriverState::AwaitHead { token }, DriverAction::GetHead { token })
        },
        _ => (DriverState::Failed, DriverAction::Stop),
    }
}

/// Drives one local file through the upload protocol. The resume offset is
/// re-derived from the server's head on every loop iteration rather than
/// carried as client-local state, so a client that crashes and restarts
/// mid-upload re-discovers the correct resume point.
#[derive(Debug)]
pub struct BaacupClient {
    /// The metadata captured from the local file when the transfer began.
    pub file_metadata: FileMetadata,
    /// Where the transfer stands.
    pub state: DriverState,
}

impl BaacupClient {
    pub fn new(file_metadata: FileMetadata) -> (r: BaacupClient)
        ensures
            r.file_metadata == file_metadata,
            r.state == DriverState::Idle,
    {
        BaacupClient { file_metadata, state: DriverState::Idle }
    }

    /// Feeds one event into the transfer and hands back the next action.
    pub fn step(&mut self, event: DriverEvent) -> (action: DriverAction)
        ensures
            final(self).file_metadata == old(self).file_metadata,
            (final(self).state, action) == step_spec(
                old(self).state,
                old(self).file_metadata,
                event,
            ),
    {
        let (next, action): (DriverState, DriverAction) = match (self.state, event) {
            (DriverState::Idle, DriverEvent::Start) => (
                DriverState::AwaitUploaded,
                DriverAction::CheckUploaded,
            ),
            (DriverState::AwaitUploaded, DriverEvent::Uploaded { skip }) => if skip {
                (DriverState::Done, DriverAction::Stop)
            } else {
                (DriverState::AwaitToken, DriverAction::InitUpload)
            },
            (DriverState::AwaitToken, DriverEvent::Token { token }) => (
                DriverState::AwaitHead { token },
                DriverAction::GetHead { token },
            ),
            (DriverState::AwaitHead { token }, DriverEvent::Head { offset }) => (
                DriverState::AwaitRead { token, offset },
                DriverAction::ReadChunk { token, offset },
            ),
            (DriverState::AwaitRead { token, offset }, DriverEvent::Read { len }) => if len == 0 {
                (DriverState::Done, DriverAction::Stop)
            } else {
                (
                    DriverState::AwaitAck { token, offset, sent: len },
                    DriverAction::SendChunk { token, offset, len },
                )
            },
            (
                DriverState::AwaitAck { token, offset, sent },
                DriverEvent::Ack { checksum },
            ) => if checksum != 0 {
                (DriverState::Failed, DriverAction::Stop)
            } else if sent <= self.file_metadata.file_size && offset == self.file_metadata.file_size
                - sent {
                (DriverState::Done, DriverAction::Stop)
            } else {
                (DriverState::AwaitHead { token }, DriverAction::GetHead { token })
            },
            _ => (DriverState::Failed, DriverAction::Stop),
        };
        self.state = next;
        action
    }

    /// Whether the transfer is over, successfully or not.
    pub fn finished(&self) -> (r: bool)
        ensures
            r == (self.state == DriverState::Done || self.state == DriverState::Failed),
    {
        match self.state {
            DriverState::Done => true,
            DriverState::Failed => true,
            _ => false,
        }
    }
}

/// Whether `path` is one of the excluded paths; the directory scan skips
/// excluded paths instead of offering them for upload.
pub fn path_excluded(exclude: &Vec<String>, path: &String) -> (r: bool)
    ensures
        r == exists|i: int| 0 <= i < exclude@.len() && exclude@[i]@ == path@,
{
    let mut i: usize = 0;
    while i < exclude.len()
        invariant
            i <= exclude@.len(),
            forall|j: int| 0 <= j < i ==> exclude@[j]@ != path@,
        decreases exclude@.len() - i,
    {
        if exclude[i] == *path {
            return true;
        }
        i = i + 1;
    }
    false
}

} // verus!
