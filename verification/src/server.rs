//! Upload service: composes the session manager and a storage backend into
//! the server half of the resumable-upload protocol, enforcing the offset
//! and completion invariants.

use vstd::prelude::*;

use crate::rpc::{FileChunk, FileMetadata, UploadError};
use crate::session::SessionManager;
use crate::storage::{FileSystem, StorageManager};

verus! {

/// The protocol-facing server: an upload session manager plus the storage
/// backend selected at construction time.
///
/// Callers that share one server between request handlers place the whole
/// value under a single mutual-exclusion region, so that the token counter,
/// the session map and the offset-check-then-append sequence of
/// `upload_chunk` each stay one atomic unit.
pub struct BaacupImpl<S> {
    manager: SessionManager,
    store: S,
}

impl<S> BaacupImpl<S> {
    /// The currently active sessions.
    pub closed spec fn active_sessions(&self) -> Map<u32, FileMetadata> {
        self.manager.active()
    }

    /// The token counter; the next issued token takes this value.
    pub closed spec fn token_counter(&self) -> u32 {
        self.manager.counter()
    }

    /// The storage backend the service writes through.
    pub closed spec fn backend(&self) -> S {
        self.store
    }

    pub fn new_from_storage(storage_manager: S) -> (r: BaacupImpl<S>)
        ensures
            r.active_sessions() == Map::<u32, FileMetadata>::empty(),
            r.token_counter() == 0,
            r.backend() == storage_manager,
    {
        BaacupImpl { manager: SessionManager::new(), store: storage_manager }
    }

    /// The storage backend, for direct inspection.
    pub fn storage_manager(&self) -> (r: &S)
        ensures
            *r == self.backend(),
    {
        &self.store
    }
}

impl BaacupImpl<FileSystem> {
    /// A server over the direct filesystem backend rooted at `path`.
    pub fn new_from_path(path: String) -> (r: BaacupImpl<FileSystem>)
        ensures
            r.active_sessions() == Map::<u32, FileMetadata>::empty(),
            r.token_counter() == 0,
            r.backend().base() == path@,
    {
        Self::new_from_storage(FileSystem::new(path))
    }

    /// A server over the direct filesystem backend rooted at `path`.
    pub fn new(path: String) -> (r: BaacupImpl<FileSystem>)
        ensures
            r.active_sessions() == Map::<u32, FileMetadata>::empty(),
            r.token_counter() == 0,
            r.backend().base() == path@,
    {
        Self::new_from_path(path)
    }
}

impl<S: StorageManager> BaacupImpl<S> {
    /// The stored bytes of each logical file of the backend.
    pub open spec fn storage_contents(&self) -> Map<Seq<char>, Seq<u8>> {
        self.backend().contents()
    }

    /// The recorded last-modified stamp of each logical file of the backend.
    pub open spec fn storage_stamps(&self) -> Map<Seq<char>, u64> {
        self.backend().stamps()
    }

    /// Well-formedness: active tokens lie below the counter, the backend is
    /// well-formed, and every active session's file has a storage unit, so
    /// a session's resume offset is always answerable.
    pub open spec fn wf(&self) -> bool {
        &&& forall|t: u32| self.active_sessions().contains_key(t) ==> t < self.token_counter()
        &&& self.backend().wf()
        &&& forall|t: u32| #[trigger] self.active_sessions().contains_key(t)
            ==> self.storage_contents().contains_key(self.active_sessions()[t].file_name@)
    }

    /// Well-formedness carries over to any state with the same sessions,
    /// the same counter, the same stored bytes and a well-formed backend.
    proof fn lemma_wf_preserved(pre: BaacupImpl<S>, post: BaacupImpl<S>)
        requires
            pre.wf(),
            post.active_sessions() == pre.active_sessions(),
            post.token_counter() == pre.token_counter(),
            post.backend().wf(),
            post.storage_contents() == pre.storage_contents(),
        ensures
            post.wf(),
    {
        assert forall|t: u32| #[trigger] post.active_sessions().contains_key(t) implies t
            < post.token_counter() && post.storage_contents().contains_key(
            post.active_sessions()[t].file_name@,
        ) by {
            assert(pre.active_sessions().contains_key(t));
            assert(pre.storage_contents().contains_key(pre.active_sessions()[t].file_name@));
        }
    }

    /// Creates (or resets) storage for the file, then issues a session
    /// token keyed to `metadata`. The storage side effect happens before
    /// token issuance, so a token is never handed out for a file that
    /// failed to allocate.
    pub fn init_upload(&mut self, metadata: FileMetadata) -> (r: Result<u32, UploadError>)
        requires
            old(self).wf(),
            old(self).token_counter() < u32::MAX,
        ensures
            final(self).wf(),
            match r {
                Ok(token) => {
                    &&& token == old(self).token_counter()
                    &&& !old(self).active_sessions().contains_key(token)
                    &&& final(self).token_counter() == old(self).token_counter() + 1
                    &&& final(self).active_sessions() == old(self).active_sessions().insert(
                        token,
                        metadata,
                    )
                    &&& final(self).storage_contents() == old(self).storage_contents().insert(
                        metadata.file_name@,
                        Seq::<u8>::empty(),
                    )
                    &&& final(self).storage_stamps() == old(self).storage_stamps().insert(
                        metadata.file_name@,
                        metadata.last_modified,
                    )
                },
                Err(e) => {
                    &&& e matches UploadError::Storage(_)
                    &&& !old(self).backend().create_succeeds(metadata)
                    &&& final(self).active_sessions() == old(self).active_sessions()
                    &&& final(self).token_counter() == old(self).token_counter()
                    &&& final(self).storage_contents() == old(self).storage_contents()
                    &&& final(self).storage_stamps() == old(self).storage_stamps()
                },
            },
            old(self).backend().create_succeeds(metadata) ==> r is Ok,
    {
        match self.store.create(&metadata) {
            Err(e) => {
                proof {
                    assert(self.manager == old(self).manager);
                    assert forall|t: u32|
                        #[trigger] self.active_sessions().contains_key(t) implies t
                        < self.token_counter() && self.storage_contents().contains_key(
                        self.active_sessions()[t].file_name@,
                    ) by {
                        assert(old(self).active_sessions().contains_key(t));
                        assert(old(self).storage_contents().contains_key(
                            old(self).active_sessions()[t].file_name@,
                        ));
                    }
                }
                Err(UploadError::Storage(e))
            },
            Ok(()) => {
                let ghost name = metadata.file_name@;
                proof {
                    assert(self.manager == old(self).manager);
                    assert forall|t: u32| self.manager.active().contains_key(t) implies t
                        < self.manager.counter() by {
                        assert(old(self).active_sessions().contains_key(t));
                    }
                }
                let token = self.manager.issue(metadata);
                proof {
                    assert forall|t: u32|
                        #[trigger] self.active_sessions().contains_key(t) implies t
                        < self.token_counter() by {
                        assert(self.manager.active().contains_key(t));
                    }
                }
                proof {
                    assert forall|t: u32| #[trigger] self.active_sessions().contains_key(t)
                        implies self.storage_contents().contains_key(
                        self.active_sessions()[t].file_name@,
                    ) by {
                        if t != token {
                            assert(old(self).active_sessions().contains_key(t));
                            assert(old(self).storage_contents().contains_key(
                                old(self).active_sessions()[t].file_name@,
                            ));
                        }
                    }
                }
                Ok(token)
            },
        }
    }

    /// The byte offset at which the next chunk for this session must start:
    /// how the client discovers the resume point after a restart, including
    /// on the very first call, where it returns 0.
    pub fn get_head(&self, token: u32) -> (r: Result<u64, UploadError>)
        requires
            self.wf(),
        ensures
            !self.active_sessions().contains_key(token) ==> r == Err::<u64, UploadError>(
                UploadError::InvalidToken,
            ),
            self.active_sessions().contains_key(token) ==> match r {
                Ok(offset) => offset == self.storage_contents()[self.active_sessions()[
                    token].file_name@].len(),
                Err(e) => e matches UploadError::Storage(_) && !self.backend().get_head_succeeds(
                    self.active_sessions()[token].file_name@,
                ),
            },
            self.active_sessions().contains_key(token) && self.backend().get_head_succeeds(
                self.active_sessions()[token].file_name@,
            ) ==> r is Ok,
    {
        let metadata = match self.manager.lookup(token) {
            None => {
                return Err(UploadError::InvalidToken);
            },
            Some(metadata) => metadata,
        };
        match self.store.get_head(&metadata.file_name) {
            Ok(offset) => Ok(offset),
            Err(e) => Err(UploadError::Storage(e)),
        }
    }

    /// Writes one chunk. The session is resolved (rejecting retired tokens,
    /// which guards against duplicate completion), the stored length is
    /// re-read and must equal `chunk.offset` exactly — the core safety
    /// check preventing gaps, overlaps and out-of-order writes — and the
    /// data is appended. The chunk that brings the stored length exactly to
    /// `file_size` retires the session. The returned checksum is 0, the
    /// reserved "not yet computed" value.
    pub fn upload_chunk(&mut self, chunk: FileChunk) -> (r: Result<u32, UploadError>)
        requires
            old(self).wf(),
        ensures
            final(self).wf(),
            !old(self).active_sessions().contains_key(chunk.token) ==> {
                &&& r == Err::<u32, UploadError>(UploadError::InvalidToken)
                &&& final(self).active_sessions() == old(self).active_sessions()
                &&& final(self).token_counter() == old(self).token_counter()
                &&& final(self).storage_contents() == old(self).storage_contents()
                &&& final(self).storage_stamps() == old(self).storage_stamps()
            },
            old(self).active_sessions().contains_key(chunk.token) ==> {
                let metadata = old(self).active_sessions()[chunk.token];
                let stored = old(self).storage_contents()[metadata.file_name@];
                match r {
                    Ok(checksum) => {
                        &&& checksum == 0
                        &&& chunk.offset == stored.len()
                        &&& final(self).storage_contents() == old(
                            self,
                        ).storage_contents().insert(metadata.file_name@, stored + chunk.data@)
                        &&& final(self).storage_stamps() == old(self).storage_stamps()
                        &&& final(self).token_counter() == old(self).token_counter()
                        &&& if stored.len() + chunk.data@.len() == metadata.file_size {
                            final(self).active_sessions() == old(self).active_sessions().remove(
                                chunk.token,
                            )
                        } else {
                            final(self).active_sessions() == old(self).active_sessions()
                        }
                    },
                    Err(e) => {
                        &&& final(self).active_sessions() == old(self).active_sessions()
                        &&& final(self).token_counter() == old(self).token_counter()
                        &&& final(self).storage_contents() == old(self).storage_contents()
                        &&& final(self).storage_stamps() == old(self).storage_stamps()
                        &&& e != UploadError::InvalidToken
                        &&& (e == UploadError::BadOffset ==> chunk.offset != stored.len())
                        &&& (e matches UploadError::Storage(_) ==> !old(
                            self,
                        ).backend().get_head_succeeds(metadata.file_name@) || !old(
                            self,
                        ).backend().append_succeeds(metadata.file_name@))
                    },
                }
            },
            old(self).active_sessions().contains_key(chunk.token) && old(
                self,
            ).backend().get_head_succeeds(
                old(self).active_sessions()[chunk.token].file_name@,
            ) && chunk.offset != old(self).storage_contents()[old(self).active_sessions()[
                chunk.token].file_name@].len() ==> r == Err::<u32, UploadError>(
                UploadError::BadOffset,
            ),
            old(self).active_sessions().contains_key(chunk.token) && old(
                self,
            ).backend().get_head_succeeds(old(self).active_sessions()[chunk.token].file_name@)
                && old(self).backend().append_succeeds(
                old(self).active_sessions()[chunk.token].file_name@,
            ) && chunk.offset == old(self).storage_contents()[old(self).active_sessions()[
                chunk.token].file_name@].len() ==> r is Ok,
    {
        let (file_name, file_size) = match self.manager.lookup(chunk.token) {
            None => {
                proof {
                    Self::lemma_wf_preserved(*old(self), *self);
                }
                return Err(UploadError::InvalidToken);
            },
            Some(metadata) => (metadata.file_name.clone(), metadata.file_size),
        };
        let stored_len = match self.store.get_head(&file_name) {
            Ok(n) => n,
            Err(e) => {
                proof {
                    Self::lemma_wf_preserved(*old(self), *self);
                }
                return Err(UploadError::Storage(e));
            },
        };
        if stored_len != chunk.offset {
            proof {
                Self::lemma_wf_preserved(*old(self), *self);
            }
            return Err(UploadError::BadOffset);
        }
        match self.store.append(&file_name, &chunk.data) {
            Ok(()) => {},
            Err(e) => {
                proof {
                    Self::lemma_wf_preserved(*old(self), *self);
                }
                return Err(UploadError::Storage(e));
            },
        }
        let data_len = chunk.data.len() as u64;
        if data_len <= file_size && chunk.offset == file_size - data_len {
            self.manager.retire(chunk.token);
        }
        proof {
            assert forall|t: u32| #[trigger] self.active_sessions().contains_key(t) implies t
                < self.token_counter() && self.storage_contents().contains_key(
                self.active_sessions()[t].file_name@,
            ) by {
                assert(old(self).active_sessions().contains_key(t));
                assert(old(self).storage_contents().contains_key(
                    old(self).active_sessions()[t].file_name@,
                ));
            }
        }
        Ok(0)
    }

    /// Whether the stored copy of the file is already up to date, so the
    /// client can skip the transfer entirely: true exactly when a unit for
    /// `metadata.file_name` records a last-modified stamp equal to
    /// `metadata.last_modified` — any mismatch, older or newer, means the
    /// file must be uploaded again.
    pub fn file_is_uploaded(&self, metadata: FileMetadata) -> (r: Result<bool, UploadError>)
        requires
            self.wf(),
        ensures
            match r {
                Ok(b) => b == (self.storage_stamps().contains_key(metadata.file_name@)
                    && self.storage_stamps()[metadata.file_name@] == metadata.last_modified),
                Err(e) => e matches UploadError::Storage(_) && !self.backend().outdated_succeeds(),
            },
            self.backend().outdated_succeeds() ==> r is Ok,
    {
        match self.store.storage_outdated(&metadata) {
            Ok(outdated) => Ok(!outdated),
            Err(e) => Err(UploadError::Storage(e)),
        }
    }
}

/// Completion removes the session: the chunk that brings the stored length
/// exactly to `file_size` leaves the session map without the token (see the
/// completion clause of `upload_chunk`), and a token outside the session
/// map is answered with `InvalidToken` by both `get_head` and
/// `upload_chunk`.
pub proof fn lemma_completion_removes_session(sessions: Map<u32, FileMetadata>, token: u32)
    ensures
        !sessions.remove(token).contains_key(token),
{
}

/// The stored bytes after `k` chunks of size `chunk_len` cut consecutively
/// from `file` have been appended in order.
pub open spec fn uploaded_prefix(file: Seq<u8>, chunk_len: nat, k: nat) -> Seq<u8>
    decreases k,
{
    if k == 0 {
        Seq::<u8>::empty()
    } else {
        uploaded_prefix(file, chunk_len, (k - 1) as nat) + file.subrange(
            (((k - 1) as nat) * chunk_len) as int,
            (k * chunk_len) as int,
        )
    }
}

/// Offset monotonicity: after `k` full chunks of size `chunk_len` the
/// stored unit holds exactly the first `k * chunk_len` bytes of the source
/// file, so the head reported for the next chunk is exactly
/// `k * chunk_len`.
pub proof fn lemma_offset_after_chunks(file: Seq<u8>, chunk_len: nat, k: nat)
    requires
        k * chunk_len <= file.len(),
    ensures
        uploaded_prefix(file, chunk_len, k).len() == k * chunk_len,
        uploaded_prefix(file, chunk_len, k) == file.take((k * chunk_len) as int),
    decreases k,
{
    if k == 0 {
        assert(uploaded_prefix(file, chunk_len, 0) =~= file.take(0));
    } else {
        let prev = (k - 1) as nat;
        assert(prev * chunk_len <= k * chunk_len) by (nonlinear_arith)
            requires prev < k
        ;
        assert(prev * chunk_len + chunk_len == k * chunk_len) by (nonlinear_arith)
            requires prev + 1 == k
        ;
        lemma_offset_after_chunks(file, chunk_len, prev);
        assert(uploaded_prefix(file, chunk_len, k) =~= file.take((k * chunk_len) as int));
    }
    assert(file.take((k * chunk_len) as int).len() == k * chunk_len);
}

/// Resumability: when the stored bytes are a prefix of the source file and
/// the next chunk is cut from the source at exactly the stored length — the
/// head the server reports — appending it keeps the stored bytes a prefix
/// of the source. A client that restarts after a partial upload and
/// re-derives its offset from `get_head` therefore produces final content
/// byte-identical to an uninterrupted upload.
pub proof fn lemma_resume_preserves_content(file: Seq<u8>, stored: Seq<u8>, data: Seq<u8>)
    requires
        stored.len() + data.len() <= file.len(),
        stored == file.take(stored.len() as int),
        data == file.subrange(stored.len() as int, (stored.len() + data.len()) as int),
    ensures
        stored + data == file.take((stored.len() + data.len()) as int),
{
    assert(stored + data =~= file.take((stored.len() + data.len()) as int));
}

} // verus!
