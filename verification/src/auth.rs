//! The acceptance decision: replay check first, then the window of candidate
//! digests.
//!
//! `verify` consults the replay cache before any digest comparison, so a
//! presented token is consumed for its window whether or not it would have
//! matched a candidate. The cache update happens under the cache's own
//! exclusive access; the digest comparisons run on local data afterwards.

use crate::replay::EntryView;
use crate::replay::ReplayCache;
use crate::replay::cache_accepts;
use crate::replay::cache_after;
use crate::replay::lemma_replay_rejected_same_instant;
use crate::token::token_for;
use crate::token::token_in_window;
use crate::token::token_matches_window;
use crate::wallclock::get_time;
use vstd::prelude::*;

verus! {

/// Whether a single `verify` call at clock reading `now`, against cache state
/// `m`, accepts `(id, tok)`: the pair must be new to the identity's current
/// window and the token must match an instant inside the acceptance window.
pub open spec fn verify_outcome(
    m: Map<Seq<char>, EntryView>,
    id: Seq<char>,
    tok: Seq<char>,
    secret: Seq<char>,
    now: u64,
) -> bool {
    cache_accepts(m, id, tok, now) && token_in_window(id, tok, secret, now)
}

/// Decides whether a presented `(identity, token)` pair is a currently valid,
/// not-yet-used proof of identity. Owns the shared secret and the replay
/// cache; construct one per process (or per test) and share it by reference.
pub struct TokenVerifier {
    secret: String,
    cache: ReplayCache,
}

impl TokenVerifier {
    /// The shared secret the verifier was built with.
    pub closed spec fn secret(&self) -> Seq<char> {
        self.secret@
    }

    /// The replay-cache state: identity to window start and presented tokens.
    pub closed spec fn cache(&self) -> Map<Seq<char>, EntryView> {
        self.cache@
    }

    /// The verifier's internal invariant.
    pub closed spec fn wf(&self) -> bool {
        self.cache.wf()
    }

    /// Builds a verifier for `secret` with an empty replay history.
    pub fn new(secret: String) -> (v: TokenVerifier)
        ensures
            v.wf(),
            v.secret() == secret@,
            v.cache() == Map::<Seq<char>, EntryView>::empty(),
    {
        TokenVerifier { secret, cache: ReplayCache::new() }
    }

    /// Decides acceptance of `(identity, token)` at clock reading `now`: the
    /// replay cache is checked and updated first, and only a pair new to the
    /// identity's current window is compared against the candidate digests of
    /// the acceptance window.
    pub fn verify_at(&mut self, identity: &str, token: &str, now: u64) -> (accepted: bool)
        requires
            old(self).wf(),
        ensures
            final(self).wf(),
            final(self).secret() == old(self).secret(),
            accepted == verify_outcome(
                old(self).cache(),
                identity@,
                token@,
                old(self).secret(),
                now,
            ),
            final(self).cache() == cache_after(old(self).cache(), identity@, token@, now),
    {
        let fresh = self.cache.check_and_record(identity, token, now);
        if !fresh {
            return false;
        }
        token_matches_window(identity, token, self.secret.as_str(), now)
    }

    /// Decides acceptance of `(identity, token)` at the wall clock's current
    /// reading. Whatever instant the clock reports, the outcome and the new
    /// cache state are those of `verify_at` at that instant.
    pub fn verify(&mut self, identity: &str, token: &str) -> (accepted: bool)
        requires
            old(self).wf(),
        ensures
            final(self).wf(),
            final(self).secret() == old(self).secret(),
            exists|now: u64|
                accepted == verify_outcome(
                    old(self).cache(),
                    identity@,
                    token@,
                    old(self).secret(),
                    now,
                ) && final(self).cache() == cache_after(
                    old(self).cache(),
                    identity@,
                    token@,
                    now,
                ),
    {
        let now = get_time();
        let accepted = self.verify_at(identity, token, now);
        proof {
            assert(accepted == verify_outcome(
                old(self).cache(),
                identity@,
                token@,
                old(self).secret(),
                now,
            ) && final(self).cache() == cache_after(old(self).cache(), identity@, token@, now));
        }
        accepted
    }
}

/// A token issued for an instant inside the acceptance window is accepted,
/// provided the pair has not already been presented in the identity's current
/// window — in particular whenever the identity is new to the cache.
pub proof fn lemma_fresh_token_accepted(
    m: Map<Seq<char>, EntryView>,
    id: Seq<char>,
    secret: Seq<char>,
    stamp: u64,
    now: u64,
)
    requires
        cache_accepts(m, id, token_for(id, stamp, secret), now),
        stamp <= now,
        now - stamp < crate::WINDOW_SECONDS,
    ensures
        verify_outcome(m, id, token_for(id, stamp, secret), secret, now),
{
    crate::token::lemma_window_accepts(id, secret, stamp, now);
}

/// A pair accepted (or even merely presented) at one instant is rejected when
/// presented again at the same instant: of two serialized calls with the same
/// `(identity, token)` at one clock reading, the second never accepts.
pub proof fn lemma_single_use(
    m: Map<Seq<char>, EntryView>,
    id: Seq<char>,
    tok: Seq<char>,
    secret: Seq<char>,
    now: u64,
)
    ensures
        !verify_outcome(cache_after(m, id, tok, now), id, tok, secret, now),
{
    lemma_replay_rejected_same_instant(m, id, tok, now);
}

} // verus!
