use rperf3::common::auth::{
    admit_client, authorize, build_authtoken, build_authtoken_at, claim_from_plain,
    decode_authtoken, parse_authorized_users, parse_claim, parse_private_key_pem,
    parse_public_key_pem, sha256_hex, token_from_cipher, validate_timestamp,
    validate_timestamp_at, AuthClaim, AuthorizedUsers, PrivateKey, PublicKey, TIMESTAMP_SKEW_SECS,
};
use rsa::pkcs1::{EncodeRsaPrivateKey, EncodeRsaPublicKey};
use rsa::pkcs8::{EncodePrivateKey, EncodePublicKey, LineEnding};
use rsa::traits::PrivateKeyParts;
use rsa::{BigUint, RsaPrivateKey, RsaPublicKey};

fn keypair(bits: usize) -> (RsaPrivateKey, RsaPublicKey) {
    let mut rng = rand::thread_rng();
    let priv_key = RsaPrivateKey::new(&mut rng, bits).expect("generate");
    let pub_key = RsaPublicKey::from(&priv_key);
    (priv_key, pub_key)
}

fn fresh_keypair_of(bits: usize) -> (PrivateKey, PublicKey) {
    let (priv_key, pub_key) = keypair(bits);
    let priv_pem = priv_key.to_pkcs8_pem(LineEnding::LF).unwrap();
    let pub_pem = pub_key.to_public_key_pem(LineEnding::LF).unwrap();
    (parse_private_key_pem(&priv_pem).unwrap(), parse_public_key_pem(&pub_pem).unwrap())
}

fn fresh_keypair() -> (PrivateKey, PublicKey) {
    fresh_keypair_of(2048)
}

/// A key that is just large enough for a token, and quick to make.
fn small_keypair() -> (PrivateKey, PublicKey) {
    fresh_keypair_of(1280)
}

fn claim(timestamp: u64, username: &str, digest: &str) -> AuthClaim {
    AuthClaim {
        timestamp,
        username: username.to_string(),
        password_sha256_hex: digest.to_string(),
    }
}

#[test]
fn roundtrip_authtoken() {
    let (priv_key, pub_key) = fresh_keypair();
    let token = build_authtoken(&pub_key, "alice", "secret").unwrap();
    let claim = decode_authtoken(&priv_key, &token).unwrap();
    assert_eq!(claim.username, "alice");
    assert_eq!(claim.password_sha256_hex, sha256_hex("secret"));
    validate_timestamp(&claim, TIMESTAMP_SKEW_SECS).unwrap();
}

#[test]
fn stale_timestamp_rejected() {
    let claim = claim(0, "a", "x");
    assert!(validate_timestamp(&claim, 10).is_err());
}

#[test]
fn authorize_known_user() {
    let mut users = AuthorizedUsers::new();
    users.insert("alice".to_string(), sha256_hex("secret"));
    let claim = claim(0, "alice", &sha256_hex("secret"));
    authorize(&claim, &users).unwrap();
}

#[test]
fn authorize_bad_password_rejected() {
    let mut users = AuthorizedUsers::new();
    users.insert("alice".to_string(), sha256_hex("secret"));
    let claim = claim(0, "alice", &sha256_hex("wrong"));
    assert_eq!(authorize(&claim, &users).unwrap_err(), "bad password");
}

#[test]
fn authorize_unknown_user_rejected() {
    let users = AuthorizedUsers::new();
    let claim = claim(0, "alice", &sha256_hex("secret"));
    assert_eq!(authorize(&claim, &users).unwrap_err(), "unknown user: alice");
}

#[test]
fn digests_are_those_of_sha_256() {
    assert_eq!(
        sha256_hex("secret"),
        "2bb80d537b1da3e38bd30361aa855686bde0eacd7162fef6a25fe97bf527a25b"
    );
    assert_eq!(
        sha256_hex(""),
        "e3b0c44298fc1c149afbf4c8996fb92427ae41e4649b934ca495991b7852b855"
    );
}

#[test]
fn case_of_a_digest_does_not_matter() {
    let mut users = AuthorizedUsers::new();
    users.insert("alice".to_string(), sha256_hex("secret").to_uppercase());
    authorize(&claim(0, "alice", &sha256_hex("secret")), &users).unwrap();
    users.insert("bob".to_string(), "ÄB".to_string());
    assert!(authorize(&claim(0, "bob", "äb"), &users).is_err());
    assert!(authorize(&claim(0, "bob", "Äb"), &users).is_ok());
}

#[test]
fn keys_are_read_in_both_notations() {
    let (priv_key, pub_key) = keypair(1280);
    let a = parse_private_key_pem(&priv_key.to_pkcs8_pem(LineEnding::LF).unwrap()).unwrap();
    let b = parse_private_key_pem(&priv_key.to_pkcs1_pem(LineEnding::LF).unwrap()).unwrap();
    assert_eq!(a, b);
    let a = parse_public_key_pem(&pub_key.to_public_key_pem(LineEnding::LF).unwrap()).unwrap();
    let b = parse_public_key_pem(&pub_key.to_pkcs1_pem(LineEnding::LF).unwrap()).unwrap();
    assert_eq!(a, b);
    assert!(parse_private_key_pem("junk").unwrap_err().starts_with("parse privkey: "));
    assert!(parse_public_key_pem("junk").unwrap_err().starts_with("parse pubkey: "));
}

#[test]
fn tokens_differ_but_say_the_same() {
    let (priv_key, pub_key) = small_keypair();
    let a = build_authtoken_at(&pub_key, "al,ice é", "p\nw", 42).unwrap();
    let b = build_authtoken_at(&pub_key, "al,ice é", "p\nw", 42).unwrap();
    assert_ne!(a, b, "each encryption is salted");
    let expected = claim(42, "al,ice é", &sha256_hex("p\nw"));
    assert_eq!(decode_authtoken(&priv_key, &a), Ok(expected.clone()));
    assert_eq!(decode_authtoken(&priv_key, &b), Ok(expected));
}

#[test]
fn broken_tokens_say_where_they_break() {
    let (priv_key, pub_key) = small_keypair();
    let (other, _) = small_keypair();
    assert!(decode_authtoken(&priv_key, "%%%").unwrap_err().starts_with("b64: "));
    assert!(decode_authtoken(&priv_key, "AAAA").unwrap_err().starts_with("rsa decrypt: "));
    let token = build_authtoken_at(&pub_key, "a", "b", 1).unwrap();
    assert!(decode_authtoken(&other, &token).unwrap_err().starts_with("rsa decrypt: "));
    let long = "x".repeat(1_000);
    assert!(build_authtoken_at(&pub_key, &long, "b", 1).unwrap_err().starts_with("rsa encrypt: "));
}

#[test]
fn claims_have_three_parts() {
    assert_eq!(parse_claim("7\nuser\nabc"), Ok(claim(7, "user", "abc")));
    assert_eq!(parse_claim("7\nuser\nabc\nd\n"), Ok(claim(7, "user", "abc\nd\n")));
    assert_eq!(parse_claim("7\n\n"), Ok(claim(7, "", "")));
    assert_eq!(
        parse_claim("x\nuser\nabc").unwrap_err(),
        "bad timestamp: invalid digit found in string"
    );
    assert_eq!(
        parse_claim("").unwrap_err(),
        "bad timestamp: cannot parse integer from empty string"
    );
    assert_eq!(parse_claim("7").unwrap_err(), "missing username");
    assert_eq!(parse_claim("7\nuser").unwrap_err(), "missing password hash");
    assert_eq!(claim_from_plain(vec![0xff]).unwrap_err(), "authtoken not utf8");
    assert_eq!(claim_from_plain(b"1\na\nb".to_vec()), Ok(claim(1, "a", "b")));
}

#[test]
fn freshness_counts_both_ways() {
    let c = claim(100, "a", "b");
    assert!(validate_timestamp_at(&c, 10, 110).is_ok());
    assert!(validate_timestamp_at(&c, 10, 90).is_ok());
    assert_eq!(validate_timestamp_at(&c, 10, 111).unwrap_err(), "timestamp skew 11 > 10");
    assert_eq!(validate_timestamp_at(&c, 0, 99).unwrap_err(), "timestamp skew 1 > 0");
    assert!(validate_timestamp_at(&claim(0, "a", "b"), u64::MAX, u64::MAX).is_ok());
}

#[test]
fn users_file_is_read_line_by_line() {
    let text = "# comment\n\n  alice , aa \r\nbob,bb,cc\nalice,dd\n   \n,empty";
    let users = parse_authorized_users(text).unwrap();
    assert_eq!(users.get("alice").map(String::as_str), Some("dd"), "the last entry holds");
    assert_eq!(users.get("bob").map(String::as_str), Some("bb,cc"));
    assert_eq!(users.get("").map(String::as_str), Some("empty"));
    assert_eq!(users.get("carol"), None);
    assert_eq!(parse_authorized_users("alice,aa\n  bob \n").unwrap_err(), "bad line: bob");
    assert!(parse_authorized_users("").unwrap().entries.is_empty());
}

#[test]
fn clients_are_admitted_with_the_right_token() {
    let (priv_key, pub_key) = small_keypair();
    let mut users = AuthorizedUsers::new();
    users.insert("alice".to_string(), sha256_hex("secret"));
    let token = |user: &str, password: &str, at: u64| {
        Some(build_authtoken_at(&pub_key, user, password, at).unwrap())
    };
    let key = Some(priv_key);
    let known = Some(users);
    assert!(admit_client(&key, &known, &token("alice", "secret", 1_000), 1_010).is_ok());
    assert_eq!(
        admit_client(&key, &known, &token("alice", "secret", 1_000), 1_011).unwrap_err(),
        "timestamp skew 11 > 10"
    );
    assert_eq!(
        admit_client(&key, &known, &token("alice", "wrong", 1_000), 1_000).unwrap_err(),
        "bad password"
    );
    assert_eq!(
        admit_client(&key, &known, &token("eve", "secret", 1_000), 1_000).unwrap_err(),
        "unknown user: eve"
    );
    assert_eq!(admit_client(&key, &known, &None, 1_000).unwrap_err(), "missing authtoken");
    assert!(admit_client(&None, &known, &None, 1_000).is_ok(), "both have to be set");
    assert!(admit_client(&key, &None, &None, 1_000).is_ok(), "both have to be set");
}

#[test]
fn texts_too_long_for_the_key_are_refused() {
    let (_, pub_key) = small_keypair();
    let user = "u".repeat(300);
    let e = build_authtoken(&pub_key, &user, "secret").unwrap_err();
    assert_eq!(e, "rsa encrypt: message too long");
    let none = PublicKey { der: vec![1, 2, 3] };
    assert!(build_authtoken_at(&none, "a", "b", 1).unwrap_err().starts_with("rsa encrypt: "));
}

#[test]
fn tokens_are_the_base64_of_what_was_encrypted() {
    assert_eq!(token_from_cipher(Ok(b"any carnal pleas".to_vec())).unwrap(), "YW55IGNhcm5hbCBwbGVhcw==");
    let e = token_from_cipher(Err("no key".to_string())).unwrap_err();
    assert_eq!(e, "rsa encrypt: no key");
}

#[test]
fn keys_of_unequal_factors_do_not_hold_the_server_up() {
    let e = BigUint::from(65_537u32);
    let key = loop {
        let (priv_key, _) = keypair(1280);
        let primes = vec![BigUint::from(3u32), priv_key.primes()[0].clone()];
        if let Ok(key) = RsaPrivateKey::from_primes(primes, e.clone()) {
            break key;
        }
    };
    let pem = key.to_pkcs8_pem(LineEnding::LF).unwrap();
    let key = parse_private_key_pem(&pem).unwrap();
    assert_eq!(key.first_prime, vec![3]);
    let mut cipher = vec![0u8; key.modulus.len()];
    cipher[64] = 77;
    let token = token_from_cipher(Ok(cipher)).unwrap();
    assert!(decode_authtoken(&key, &token).err().unwrap().starts_with("rsa decrypt: "));
}

#[test]
fn the_order_of_the_factors_does_not_matter() {
    let (mut key, pub_key) = small_keypair();
    let token = build_authtoken_at(&pub_key, "alice", "secret", 5).unwrap();
    for _ in 0..2 {
        let claim = decode_authtoken(&key, &token).unwrap();
        assert_eq!((claim.timestamp, claim.username.as_str()), (5, "alice"));
        std::mem::swap(&mut key.first_prime, &mut key.second_prime);
    }
}
