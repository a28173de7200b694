//! Token derivation and the sliding acceptance window.
//!
//! A token issued for an identity at instant `stamp` is the hex digest of the
//! preimage `"{identity}:{stamp}:{secret}"`. A verifier with clock `now`
//! accepts any token issued for an instant at most `WINDOW_SECONDS - 1`
//! seconds in the past, and never one from the future.

use crate::WINDOW_SECONDS;
use crate::digits::dec_digits;
use crate::digits::lemma_dec_digits_injective;
use crate::digits::u64_to_decimal;
use vstd::prelude::*;

verus! {

/// The lowercase hex SHA-256 digest of the UTF-8 bytes of a string, named
/// here so that contracts can speak of it; its value on a given preimage is
/// known only to the hash function itself.
pub uninterp spec fn sha256_hex(preimage: Seq<char>) -> Seq<char>;

/// Relies on sha256::digest, which returns the lowercase hex encoding of the
/// SHA-256 digest of the string's UTF-8 bytes: a 64-character string that is
/// a function of the input characters alone.
#[verifier::external_body]
fn sha256_hex_digest(s: &str) -> (r: String)
    ensures
        r@ == sha256_hex(s@),
        r@.len() == 64,
{
    sha256::digest(s)
}

/// The preimage whose digest is the token for `identity` at `stamp`.
pub open spec fn auth_preimage(identity: Seq<char>, stamp: u64, secret: Seq<char>) -> Seq<char> {
    identity + seq![':'] + dec_digits(stamp as nat) + seq![':'] + secret
}

/// The token issued for `identity` at `stamp` under `secret`.
pub open spec fn token_for(identity: Seq<char>, stamp: u64, secret: Seq<char>) -> Seq<char> {
    sha256_hex(auth_preimage(identity, stamp, secret))
}

/// Whether an issuance instant `stamp` lies inside the acceptance window of a
/// verifier whose clock reads `now`: at most `WINDOW_SECONDS - 1` seconds in
/// the past, and never in the future.
pub open spec fn stamp_in_window(stamp: u64, now: u64) -> bool {
    stamp <= now && now - stamp < WINDOW_SECONDS
}

/// Whether `token` is the token issued for `identity` at some instant inside
/// the window ending at `now`.
pub open spec fn token_in_window(
    identity: Seq<char>,
    token: Seq<char>,
    secret: Seq<char>,
    now: u64,
) -> bool {
    exists|stamp: u64| stamp_in_window(stamp, now) && token == token_for(identity, stamp, secret)
}

/// Builds the preimage string `"{identity}:{stamp}:{secret}"`.
fn auth_preimage_string(identity: &str, stamp: u64, secret: &str) -> (r: String)
    ensures
        r@ == auth_preimage(identity@, stamp, secret@),
{
    proof {
        reveal_strlit(":");
        assert(":"@ =~= seq![':']);
    }
    let mut m = String::from_str(identity);
    m.append(":");
    let stamp_str = u64_to_decimal(stamp);
    m.append(stamp_str.as_str());
    m.append(":");
    m.append(secret);
    proof {
        assert(m@ =~= auth_preimage(identity@, stamp, secret@));
    }
    m
}

/// Computes the token an issuer hands out for `identity` at instant `stamp`.
pub fn issue_token(identity: &str, stamp: u64, secret: &str) -> (r: String)
    ensures
        r@ == token_for(identity@, stamp, secret@),
{
    let preimage = auth_preimage_string(identity, stamp, secret);
    sha256_hex_digest(preimage.as_str())
}

/// Decides whether `token` matches the issued token of any instant in the
/// acceptance window ending at `now`.
pub fn token_matches_window(identity: &str, token: &str, secret: &str, now: u64) -> (r: bool)
    ensures
        r == token_in_window(identity@, token@, secret@, now),
{
    let token_owned: String = token.to_owned();
    let mut offset: u64 = 0;
    while offset < WINDOW_SECONDS && offset <= now
        invariant
            0 <= offset <= WINDOW_SECONDS,
            token_owned@ == token@,
            forall|s: u64|
                stamp_in_window(s, now) && now - s < offset ==> token@ != token_for(
                    identity@,
                    s,
                    secret@,
                ),
        decreases WINDOW_SECONDS - offset,
    {
        let stamp = now - offset;
        let candidate = issue_token(identity, stamp, secret);
        if candidate == token_owned {
            assert(stamp_in_window(stamp, now) && token@ == token_for(identity@, stamp, secret@));
            return true;
        }
        offset = offset + 1;
    }
    assert(forall|s: u64|
        stamp_in_window(s, now) ==> token@ != token_for(identity@, s, secret@)) by {
        assert(forall|s: u64| stamp_in_window(s, now) ==> now - s < offset);
    }
    false
}

/// A token issued for an instant inside the window is matched by the window
/// check at that clock reading.
pub proof fn lemma_window_accepts(identity: Seq<char>, secret: Seq<char>, stamp: u64, now: u64)
    requires
        stamp_in_window(stamp, now),
    ensures
        token_in_window(identity, token_for(identity, stamp, secret), secret, now),
{
    let token = token_for(identity, stamp, secret);
    assert(stamp_in_window(stamp, now) && token == token_for(identity, stamp, secret));
}

/// For a fixed identity and secret, distinct issuance instants give distinct
/// preimages: the decimal timestamp is recoverable from its position.
pub proof fn lemma_preimage_stamp_injective(
    identity: Seq<char>,
    secret: Seq<char>,
    s1: u64,
    s2: u64,
)
    requires
        auth_preimage(identity, s1, secret) == auth_preimage(identity, s2, secret),
    ensures
        s1 == s2,
{
    let p1 = auth_preimage(identity, s1, secret);
    let p2 = auth_preimage(identity, s2, secret);
    let d1 = dec_digits(s1 as nat);
    let d2 = dec_digits(s2 as nat);
    let start = identity.len() + 1;
    assert(p1.len() == identity.len() + 1 + d1.len() + 1 + secret.len());
    assert(p2.len() == identity.len() + 1 + d2.len() + 1 + secret.len());
    assert(d1.len() == d2.len());
    assert(d1 =~= p1.subrange(start as int, (start + d1.len()) as int)) by {
        assert(forall|i: int|
            0 <= i < d1.len() ==> p1[start + i] == #[trigger] d1[i]);
    }
    assert(d2 =~= p2.subrange(start as int, (start + d2.len()) as int)) by {
        assert(forall|i: int|
            0 <= i < d2.len() ==> p2[start + i] == #[trigger] d2[i]);
    }
    lemma_dec_digits_injective(s1 as nat, s2 as nat);
}

/// A token issued for an instant outside the window matches the window check
/// only through a digest collision between two distinct preimages.
pub proof fn lemma_out_of_window_needs_collision(
    identity: Seq<char>,
    secret: Seq<char>,
    issued: u64,
    now: u64,
)
    requires
        !stamp_in_window(issued, now),
        token_in_window(identity, token_for(identity, issued, secret), secret, now),
    ensures
        exists|s: u64|
            stamp_in_window(s, now) && auth_preimage(identity, s, secret) != auth_preimage(
                identity,
                issued,
                secret,
            ) && sha256_hex(auth_preimage(identity, s, secret)) == sha256_hex(
                auth_preimage(identity, issued, secret),
            ),
{
    let token = token_for(identity, issued, secret);
    let s = choose|s: u64| stamp_in_window(s, now) && token == token_for(identity, s, secret);
    if auth_preimage(identity, s, secret) == auth_preimage(identity, issued, secret) {
        lemma_preimage_stamp_injective(identity, secret, s, issued);
        assert(false);
    }
    assert(stamp_in_window(s, now) && auth_preimage(identity, s, secret) != auth_preimage(
        identity,
        issued,
        secret,
    ) && sha256_hex(auth_preimage(identity, s, secret)) == sha256_hex(
        auth_preimage(identity, issued, secret),
    ));
}

/// An expired token — issued `WINDOW_SECONDS` or more seconds before the
/// verifier's clock — is matched only through a digest collision.
pub proof fn lemma_expired_token_needs_collision(
    identity: Seq<char>,
    secret: Seq<char>,
    issued: u64,
    now: u64,
)
    requires
        now - issued >= WINDOW_SECONDS,
        token_in_window(identity, token_for(identity, issued, secret), secret, now),
    ensures
        exists|s: u64|
            stamp_in_window(s, now) && auth_preimage(identity, s, secret) != auth_preimage(
                identity,
                issued,
                secret,
            ) && sha256_hex(auth_preimage(identity, s, secret)) == sha256_hex(
                auth_preimage(identity, issued, secret),
            ),
{
    lemma_out_of_window_needs_collision(identity, secret, issued, now);
}

/// A token issued for a future instant — the window never looks forward — is
/// matched only through a digest collision.
pub proof fn lemma_future_token_needs_collision(
    identity: Seq<char>,
    secret: Seq<char>,
    issued: u64,
    now: u64,
)
    requires
        issued > now,
        token_in_window(identity, token_for(identity, issued, secret), secret, now),
    ensures
        exists|s: u64|
            stamp_in_window(s, now) && auth_preimage(identity, s, secret) != auth_preimage(
                identity,
                issued,
                secret,
            ) && sha256_hex(auth_preimage(identity, s, secret)) == sha256_hex(
                auth_preimage(identity, issued, secret),
            ),
{
    lemma_out_of_window_needs_collision(identity, secret, issued, now);
}

} // verus!
