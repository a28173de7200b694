//! Token derivation and the supporting utilities: decimal rendering, digest
//! agreement with an independent computation, and the time-derived helpers.

use tokenauth::digits::u128_to_decimal;
use tokenauth::digits::u64_to_decimal;
use tokenauth::records::UserDataBody;
use tokenauth::token::issue_token;
use tokenauth::wallclock::generate_new_id;
use tokenauth::wallclock::get_time;

#[test]
fn decimal_rendering_exact_values() {
    assert_eq!(u64_to_decimal(0), "0");
    assert_eq!(u64_to_decimal(7), "7");
    assert_eq!(u64_to_decimal(10), "10");
    assert_eq!(u64_to_decimal(1_700_000_000), "1700000000");
    assert_eq!(u64_to_decimal(u64::MAX), "18446744073709551615");
    assert_eq!(u128_to_decimal(u128::MAX), "340282366920938463463374607431768211455");
}

#[test]
fn issued_token_matches_independent_digest() {
    // The library's digest must agree with the digest computed directly from
    // the formatted preimage; a wrapper that altered or echoed its input
    // would fail here.
    let tok = issue_token("u1", 1_700_000_000, "super_secret_code");
    assert_eq!(tok, sha256::digest("u1:1700000000:super_secret_code"));
    // A known digest computed elsewhere: SHA-256 of "hello", as the digest
    // crate's own documentation lists it.
    assert_eq!(
        sha256::digest("hello"),
        "2cf24dba5fb0a30e26e83b2ac5b9e29e1b161e5c1fa7425e73043362938b9824"
    );
}

#[test]
fn token_is_lowercase_hex_of_expected_length() {
    let tok = issue_token("u1", 1_700_000_000, "super_secret_code");
    assert_eq!(tok.len(), 64);
    assert!(tok.chars().all(|c| c.is_ascii_hexdigit() && !c.is_ascii_uppercase()));
}

#[test]
fn distinct_stamps_give_distinct_tokens() {
    let a = issue_token("u1", 1_700_000_000, "super_secret_code");
    let b = issue_token("u1", 1_700_000_001, "super_secret_code");
    assert_ne!(a, b);
}

#[test]
fn generated_id_has_prefix_and_decimal_suffix() {
    let id = generate_new_id("class-42");
    let rest = id.strip_prefix("class-42:").expect("prefix and separator");
    assert!(!rest.is_empty());
    assert!(rest.chars().all(|c| c.is_ascii_digit()));
}

#[test]
fn wall_clock_reads_a_plausible_instant() {
    let before = get_time();
    let after = get_time();
    assert!(before > 1_000_000_000);
    assert!(after >= before);
}

#[test]
fn record_fields_round_trip() {
    let body = UserDataBody { user_name: "Ada".to_string(), email: "ada@example.com".to_string() };
    let copy = body.clone();
    assert_eq!(copy.user_name, "Ada");
    assert_eq!(copy.email, "ada@example.com");
}
