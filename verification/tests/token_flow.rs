//! End-to-end acceptance behaviour of the token verifier, driven with an
//! explicit clock so every outcome is reproducible.

use tokenauth::auth::TokenVerifier;
use tokenauth::token::issue_token;

const SECRET: &str = "super_secret_code";
const T: u64 = 1_700_000_000;

fn fresh_verifier() -> TokenVerifier {
    TokenVerifier::new(SECRET.to_string())
}

#[test]
fn fresh_token_accepted() {
    let mut v = fresh_verifier();
    let tok = issue_token("u1", T, SECRET);
    assert!(v.verify_at("u1", &tok, T));
}

#[test]
fn second_presentation_rejected() {
    let mut v = fresh_verifier();
    let tok = issue_token("u1", T, SECRET);
    assert!(v.verify_at("u1", &tok, T));
    assert!(!v.verify_at("u1", &tok, T));
}

#[test]
fn window_boundary() {
    let tok = issue_token("u1", T, SECRET);
    for age in 0..=7u64 {
        let mut v = fresh_verifier();
        assert!(
            v.verify_at("u1", &tok, T + age),
            "token aged {age} seconds should be accepted"
        );
    }
    let mut v = fresh_verifier();
    assert!(!v.verify_at("u1", &tok, T + 8));
    let mut v = fresh_verifier();
    assert!(!v.verify_at("u1", &tok, T + 100));
}

#[test]
fn future_token_rejected() {
    let mut v = fresh_verifier();
    let tok = issue_token("u1", T + 1, SECRET);
    assert!(!v.verify_at("u1", &tok, T));
}

#[test]
fn identities_are_isolated() {
    let mut v = fresh_verifier();
    let tok_x = issue_token("x", T, SECRET);
    let tok_y = issue_token("y", T, SECRET);
    assert!(v.verify_at("x", &tok_x, T));
    // Presenting x's token as y fails the digest comparison, not the replay
    // check, and leaves y's own standing untouched.
    assert!(!v.verify_at("y", &tok_x, T));
    assert!(v.verify_at("y", &tok_y, T));
    // x's replay record still stands.
    assert!(!v.verify_at("x", &tok_x, T));
}

#[test]
fn quiet_identity_window_resets() {
    let mut v = fresh_verifier();
    let tok1 = issue_token("u1", T, SECRET);
    assert!(v.verify_at("u1", &tok1, T));
    // More than a window of silence: the next contact sees a reset entry and
    // a freshly issued token is accepted.
    let tok2 = issue_token("u1", T + 9, SECRET);
    assert!(v.verify_at("u1", &tok2, T + 9));
    // The first token is no longer a replay, but its instant has left the
    // acceptance window.
    assert!(!v.verify_at("u1", &tok1, T + 9));
}

#[test]
fn duplicate_pair_yields_exactly_one_acceptance() {
    let mut v = fresh_verifier();
    let tok = issue_token("u1", T, SECRET);
    let first = v.verify_at("u1", &tok, T);
    let second = v.verify_at("u1", &tok, T);
    assert_eq!(
        (first, second),
        (true, false),
        "of two presentations of one pair, exactly the first may succeed"
    );
}

#[test]
fn example_trace() {
    // secret "super_secret_code", identity "u1", clock 1_700_000_000.
    let mut v = fresh_verifier();
    let tok = sha256::digest("u1:1700000000:super_secret_code");
    assert!(v.verify_at("u1", &tok, 1_700_000_000));
    assert!(!v.verify_at("u1", &tok, 1_700_000_010));
    assert!(!v.verify_at("u1", &tok, 1_700_000_000));
}

#[test]
fn empty_strings_simply_fail() {
    let mut v = fresh_verifier();
    assert!(!v.verify_at("", "", T));
    let tok = issue_token("u1", T, SECRET);
    assert!(!v.verify_at("", &tok, T));
    assert!(!v.verify_at("u1", "", T));
}

#[test]
fn wall_clock_verify_accepts_a_just_issued_token() {
    let mut v = fresh_verifier();
    let now = tokenauth::wallclock::get_time();
    let tok = issue_token("u1", now, SECRET);
    assert!(v.verify("u1", &tok));
    assert!(!v.verify("u1", &tok));
}
