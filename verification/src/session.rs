//! Session manager: issues monotonically unique upload tokens, associates
//! each token with the metadata of the file being uploaded, and retires the
//! token when the transfer completes.

use vstd::prelude::*;

use std::collections::HashMap;

use crate::rpc::FileMetadata;

verus! {

/// Owner of the token counter and of the map from active token to the
/// metadata of its in-progress upload. Reading and incrementing the counter
/// and recording the session happen inside one call, so no window exists in
/// which a freshly issued token is not yet in the map.
pub struct SessionManager {
    next_token: u32,
    sessions: HashMap<u32, FileMetadata>,
}

impl SessionManager {
    /// The currently active sessions: each active token and the metadata it
    /// was issued for.
    pub closed spec fn active(&self) -> Map<u32, FileMetadata> {
        self.sessions@
    }

    /// The counter value the next issued token will carry.
    pub closed spec fn counter(&self) -> u32 {
        self.next_token
    }

    /// Every active token lies strictly below the counter, so a freshly
    /// issued token can never collide with an active one.
    pub open spec fn wf(&self) -> bool {
        forall|t: u32| self.active().contains_key(t) ==> t < self.counter()
    }

    pub fn new() -> (r: SessionManager)
        ensures
            r.wf(),
            r.counter() == 0,
            r.active() == Map::<u32, FileMetadata>::empty(),
    {
        SessionManager { next_token: 0, sessions: HashMap::new() }
    }

    /// Atomically reads and increments the counter and inserts the session;
    /// the returned token is fresh: it was active for no other session.
    pub fn issue(&mut self, metadata: FileMetadata) -> (token: u32)
        requires
            old(self).wf(),
            old(self).counter() < u32::MAX,
        ensures
            final(self).wf(),
            token == old(self).counter(),
            !old(self).active().contains_key(token),
            final(self).counter() == old(self).counter() + 1,
            final(self).active() == old(self).active().insert(token, metadata),
    {
        let token = self.next_token;
        self.next_token = self.next_token + 1;
        self.sessions.insert(token, metadata);
        proof {
            assert forall|t: u32| self.sessions@.contains_key(t) implies t < self.next_token by {
                if t != token {
                    assert(old(self).active().contains_key(t));
                }
            }
        }
        token
    }

    /// Read-only lookup; `None` means the token is invalid or already
    /// retired.
    pub fn lookup(&self, token: u32) -> (r: Option<&FileMetadata>)
        ensures
            match r {
                Some(metadata) => self.active().contains_key(token) && *metadata
                    == self.active()[token],
                None => !self.active().contains_key(token),
            },
    {
        self.sessions.get(&token)
    }

    /// Removes the session; retiring an already absent token is a no-op,
    /// not an error.
    pub fn retire(&mut self, token: u32)
        ensures
            final(self).active() == old(self).active().remove(token),
            final(self).counter() == old(self).counter(),
            old(self).wf() ==> final(self).wf(),
    {
        self.sessions.remove(&token);
    }
}

/// The token handed out by the i-th `issue` of a run that starts at counter
/// value `start`: `issue` returns exactly the counter and increments it by
/// one, and the counter never moves otherwise.
pub open spec fn issued_token(start: u32, i: int) -> int {
    start + i
}

/// Token uniqueness: over any run of issues from one manager, the tokens
/// handed out are pairwise distinct, however many sessions are opened.
pub proof fn lemma_token_uniqueness(start: u32, count: int)
    ensures
        forall|i: int, j: int|
            0 <= i < j < count ==> issued_token(start, i) != issued_token(start, j),
{
}

/// A freshly issued token is active for no session: every active token lies
/// strictly below the counter, and `issue` hands out the counter itself, so
/// the manager never hands out a token value currently present in the map.
pub proof fn lemma_fresh_token(active: Map<u32, FileMetadata>, counter: u32)
    requires
        forall|t: u32| active.contains_key(t) ==> t < counter,
    ensures
        !active.contains_key(counter),
{
}

} // verus!
