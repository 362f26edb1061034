//! Authentication of clients.
//!
//! A client that has the server's public key encrypts
//! `"{unix time}\n{user}\n{SHA-256 of the password, in hex}"` with RSA-OAEP
//! over SHA-256 and sends the result, in base64, among its options. The
//! server decrypts it, checks that it is fresh, and looks the user up in the
//! file of authorized users.

use vstd::prelude::*;
use vstd::string::StringExecFns;
use vstd::utf8::{decode_utf8, encode_utf8, valid_utf8};
use base64::Engine;
use rsa::pkcs1::{DecodeRsaPrivateKey, DecodeRsaPublicKey};
use rsa::pkcs8::{DecodePrivateKey, DecodePublicKey, EncodePublicKey};
use rsa::traits::{PrivateKeyParts, PublicKeyParts};
use sha2::Digest;

use super::big_endian::{be_at_least, be_value};
use super::text::{chars_views, decimal, find_char, from_chars, index_of};
use super::text::{index_of_joined, lines, number, number_error_message, number_error_text};
use super::text::{parse_number, push_decimal, same_ignoring_case, same_text};
use super::text::{same_text_ignoring_case, slice_chars, split_lines, to_chars, trim, trim_chars};

verus! {

/// How many seconds a token may be off.
pub const TIMESTAMP_SKEW_SECS: u64 = 10;

// ---------------------------------------------------------------------
// Outside functions.

/// A result over bytes and a message, by what it holds.
pub open spec fn bytes_or_text(r: Result<Vec<u8>, String>) -> Result<Seq<u8>, Seq<char>> {
    match r {
        Ok(v) => Ok(v@),
        Err(e) => Err(e@),
    }
}

/// Bytes that may be missing, by what they are.
pub open spec fn bytes_if_any(r: Option<Vec<u8>>) -> Option<Seq<u8>> {
    match r {
        Some(v) => Some(v@),
        None => None,
    }
}

/// The SHA-256 digest of bytes.
pub uninterp spec fn sha256(data: Seq<u8>) -> Seq<u8>;

/// `sha2::Sha256::digest`: the digest, 32 bytes long.
#[verifier::external_body]
fn sha256_digest(data: &[u8]) -> (digest: Vec<u8>)
    ensures
        digest@ == sha256(data@),
        digest@.len() == 32,
{
    sha2::Sha256::digest(data).to_vec()
}

/// The base64 text of bytes, with padding.
pub uninterp spec fn base64_text(data: Seq<u8>) -> Seq<char>;

/// The bytes that a base64 text stands for, or why it stands for none.
pub uninterp spec fn base64_bytes(text: Seq<char>) -> Result<Seq<u8>, Seq<char>>;

/// `base64::Engine::encode` of the standard engine. Decoding the text gives
/// the bytes back.
#[verifier::external_body]
fn base64_encode(data: &[u8]) -> (text: String)
    ensures
        text@ == base64_text(data@),
        base64_bytes(text@) is Ok && base64_bytes(text@)->Ok_0 == data@,
{
    base64::engine::general_purpose::STANDARD.encode(data)
}

/// `base64::Engine::decode` of the standard engine, an error by its message.
#[verifier::external_body]
fn base64_decode(text: &str) -> (r: Result<Vec<u8>, String>)
    ensures
        bytes_or_text(r) == base64_bytes(text@),
{
    base64::engine::general_purpose::STANDARD.decode(text).map_err(|e| e.to_string())
}

/// The key that a PKCS#8 public-key PEM text holds, in DER.
pub uninterp spec fn spki_public_key(pem: Seq<char>) -> Option<Seq<u8>>;

/// `DecodePublicKey::from_public_key_pem` of `rsa::RsaPublicKey`, the key
/// written in DER by `to_public_key_der`; nothing where the text holds no such
/// key.
#[verifier::external_body]
fn read_spki_public(pem: &str) -> (der: Option<Vec<u8>>)
    ensures
        bytes_if_any(der) == spki_public_key(pem@),
{
    let key = rsa::RsaPublicKey::from_public_key_pem(pem).ok()?;
    key.to_public_key_der().ok().map(|d| d.as_bytes().to_vec())
}

/// The key that a PKCS#1 public-key PEM text holds, in PKCS#8 DER, or why it
/// holds none.
pub uninterp spec fn pkcs1_public_key(pem: Seq<char>) -> Result<Seq<u8>, Seq<char>>;

/// `DecodeRsaPublicKey::from_pkcs1_pem` of `rsa::RsaPublicKey`, the key
/// written in DER by `to_public_key_der`, or the message of the error.
#[verifier::external_body]
fn read_pkcs1_public(pem: &str) -> (r: Result<Vec<u8>, String>)
    ensures
        bytes_or_text(r) == pkcs1_public_key(pem@),
{
    let key = rsa::RsaPublicKey::from_pkcs1_pem(pem).map_err(|e| e.to_string())?;
    key.to_public_key_der().map(|d| d.as_bytes().to_vec()).map_err(|e| e.to_string())
}

/// The parts of the key that a PKCS#8 private-key PEM text holds.
pub uninterp spec fn pkcs8_private_key(pem: Seq<char>) -> Option<Seq<Seq<u8>>>;

/// `DecodePrivateKey::from_pkcs8_pem` of `rsa::RsaPrivateKey`, by the parts of
/// the key; nothing where the text holds no such key.
#[verifier::external_body]
fn read_pkcs8_private(pem: &str) -> (r: Option<PrivateKey>)
    ensures
        match r {
            Some(key) => pkcs8_private_key(pem@) == Some(key.parts()),
            None => pkcs8_private_key(pem@) is None,
        },
{
    let key = rsa::RsaPrivateKey::from_pkcs8_pem(pem).ok()?;
    Some(
        PrivateKey {
            modulus: key.n().to_bytes_be(),
            public_exponent: key.e().to_bytes_be(),
            private_exponent: key.d().to_bytes_be(),
            first_prime: key.primes()[0].to_bytes_be(),
            second_prime: key.primes()[1].to_bytes_be(),
        },
    )
}

/// The parts of the key that a PKCS#1 private-key PEM text holds, or why it
/// holds none.
pub uninterp spec fn pkcs1_private_key(pem: Seq<char>) -> Result<Seq<Seq<u8>>, Seq<char>>;

/// `DecodeRsaPrivateKey::from_pkcs1_pem` of `rsa::RsaPrivateKey`, by the parts
/// of the key, or the message of the error.
#[verifier::external_body]
fn read_pkcs1_private(pem: &str) -> (r: Result<PrivateKey, String>)
    ensures
        match r {
            Ok(key) => pkcs1_private_key(pem@) is Ok && pkcs1_private_key(pem@)->Ok_0
                == key.parts(),
            Err(e) => pkcs1_private_key(pem@) is Err && pkcs1_private_key(pem@)->Err_0 == e@,
        },
{
    let key = rsa::RsaPrivateKey::from_pkcs1_pem(pem).map_err(|e| e.to_string())?;
    Ok(
        PrivateKey {
            modulus: key.n().to_bytes_be(),
            public_exponent: key.e().to_bytes_be(),
            private_exponent: key.d().to_bytes_be(),
            first_prime: key.primes()[0].to_bytes_be(),
            second_prime: key.primes()[1].to_bytes_be(),
        },
    )
}

/// `cipher` is what `plain` can be encrypted to under the public key `key`
/// with RSA-OAEP over SHA-256: it depends on chance which of many such texts
/// an encryption gives.
pub uninterp spec fn oaep_encrypts(key: Seq<u8>, plain: Seq<u8>, cipher: Seq<u8>) -> bool;

/// Why `plain` cannot be encrypted under the public key `key`, if it cannot:
/// the key is none, or too small for the text.
pub uninterp spec fn oaep_refusal(key: Seq<u8>, plain: Seq<u8>) -> Option<Seq<char>>;

/// `rsa::RsaPublicKey::encrypt` with `rsa::Oaep` over SHA-256 and the
/// thread's generator, or the message of the error. Whether there is one
/// depends on the key and the text; which of the possible ciphertexts comes
/// out depends on chance. That decrypting with the private half of the key
/// gives the plain text back is left unsaid: it holds only of keys made of
/// primes, which are never tested for it.
#[verifier::external_body]
fn oaep_encrypt(key: &[u8], plain: &[u8]) -> (r: Result<Vec<u8>, String>)
    ensures
        match r {
            Ok(cipher) => oaep_refusal(key@, plain@) is None && oaep_encrypts(
                key@,
                plain@,
                cipher@,
            ),
            Err(e) => oaep_refusal(key@, plain@) == Some(e@),
        },
{
    let key = rsa::RsaPublicKey::from_public_key_der(key).map_err(|e| e.to_string())?;
    let padding = rsa::Oaep::new::<sha2::Sha256>();
    key.encrypt(&mut rand::thread_rng(), padding, plain).map_err(|e| e.to_string())
}

/// What a ciphertext decrypts to under the private key with the given parts,
/// with RSA-OAEP over SHA-256, or why it does not.
pub uninterp spec fn oaep_plain(key: Seq<Seq<u8>>, cipher: Seq<u8>) -> Result<
    Seq<u8>,
    Seq<char>,
>;

/// `rsa::RsaPrivateKey::decrypt` with `rsa::Oaep` over SHA-256, or the
/// message of the error. The larger factor has to stand first: the outside
/// code adds the first one to a difference of remainders until that is not
/// negative, which a small first factor would make go on without end.
#[verifier::external_body]
fn oaep_decrypt(key: &PrivateKey, cipher: &[u8]) -> (r: Result<Vec<u8>, String>)
    requires
        be_value(key.first_prime@) >= be_value(key.second_prime@),
    ensures
        bytes_or_text(r) == oaep_plain(key.parts(), cipher@),
{
    let n = rsa::BigUint::from_bytes_be(&key.modulus);
    let e = rsa::BigUint::from_bytes_be(&key.public_exponent);
    let d = rsa::BigUint::from_bytes_be(&key.private_exponent);
    let p = rsa::BigUint::from_bytes_be(&key.first_prime);
    let q = rsa::BigUint::from_bytes_be(&key.second_prime);
    let whole = rsa::RsaPrivateKey::from_components(n, e, d, vec![p, q]);
    let key = whole.map_err(|e| e.to_string())?;
    key.decrypt(rsa::Oaep::new::<sha2::Sha256>(), cipher).map_err(|e| e.to_string())
}

/// `String::from_utf8`: the text that bytes encode, where they encode one.
#[verifier::external_body]
fn text_from_utf8(bytes: Vec<u8>) -> (r: Option<String>)
    ensures
        match r {
            Some(s) => valid_utf8(bytes@) && s@ == decode_utf8(bytes@),
            None => !valid_utf8(bytes@),
        },
{
    String::from_utf8(bytes).ok()
}

/// `std::time::SystemTime::duration_since` of the epoch, in whole seconds, or
/// the message of the error for a clock that stands before it. It depends on
/// when it is called.
#[verifier::external_body]
fn unix_time_secs() -> (r: Result<u64, String>) {
    let since = std::time::SystemTime::now().duration_since(std::time::UNIX_EPOCH);
    since.map(|d| d.as_secs()).map_err(|e| e.to_string())
}

/// The wall clock says `r` when it is asked: whole seconds since the epoch, or
/// why it cannot tell.
pub closed spec fn wall_clock_says(r: Result<u64, String>) -> bool {
    call_ensures(unix_time_secs, (), r)
}

// ---------------------------------------------------------------------
// Keys.

/// A public RSA key in DER.
#[derive(Debug, Clone, PartialEq, Eq)]
pub struct PublicKey {
    pub der: Vec<u8>,
}

/// A private RSA key: numbers in big-endian bytes.
#[derive(Debug, Clone, PartialEq, Eq)]
pub struct PrivateKey {
    pub modulus: Vec<u8>,
    pub public_exponent: Vec<u8>,
    pub private_exponent: Vec<u8>,
    pub first_prime: Vec<u8>,
    pub second_prime: Vec<u8>,
}

impl PrivateKey {
    /// The numbers that make up the key.
    pub open spec fn parts(self) -> Seq<Seq<u8>> {
        seq![
            self.modulus@,
            self.public_exponent@,
            self.private_exponent@,
            self.first_prime@,
            self.second_prime@,
        ]
    }

    /// The same key with its larger factor first. The product is the same,
    /// and so is what it decrypts to.
    pub open spec fn larger_first(self) -> Seq<Seq<u8>> {
        if be_value(self.first_prime@) >= be_value(self.second_prime@) {
            self.parts()
        } else {
            seq![
                self.modulus@,
                self.public_exponent@,
                self.private_exponent@,
                self.second_prime@,
                self.first_prime@,
            ]
        }
    }

    fn with_larger_first(&self) -> (key: PrivateKey)
        ensures
            key.parts() == self.larger_first(),
            be_value(key.first_prime@) >= be_value(key.second_prime@),
    {
        let in_order = be_at_least(self.first_prime.as_slice(), self.second_prime.as_slice());
        let (first, second) = if in_order {
            (self.first_prime.clone(), self.second_prime.clone())
        } else {
            (self.second_prime.clone(), self.first_prime.clone())
        };
        let key = PrivateKey {
            modulus: self.modulus.clone(),
            public_exponent: self.public_exponent.clone(),
            private_exponent: self.private_exponent.clone(),
            first_prime: first,
            second_prime: second,
        };
        proof {
            assert(key.parts() =~= self.larger_first());
        }
        key
    }
}

/// The key in a PEM text: PKCS#8 is tried first, then PKCS#1.
pub open spec fn public_key_in(pem: Seq<char>) -> Result<Seq<u8>, Seq<char>> {
    match spki_public_key(pem) {
        Some(der) => Ok(der),
        None => pkcs1_public_key(pem),
    }
}

/// Reads a public key: PKCS#8 is tried first, then PKCS#1.
pub fn parse_public_key_pem(pem: &str) -> (r: Result<PublicKey, String>)
    ensures
        match public_key_in(pem@) {
            Ok(der) => r is Ok && r->Ok_0.der@ == der,
            Err(e) => r is Err && r->Err_0@ == "parse pubkey: "@ + e,
        },
{
    match read_spki_public(pem) {
        Some(der) => Ok(PublicKey { der }),
        None => match read_pkcs1_public(pem) {
            Ok(der) => Ok(PublicKey { der }),
            Err(e) => Err(join("parse pubkey: ", e.as_str())),
        },
    }
}

/// The key in a PEM text: PKCS#8 is tried first, then PKCS#1.
pub open spec fn private_key_in(pem: Seq<char>) -> Result<Seq<Seq<u8>>, Seq<char>> {
    match pkcs8_private_key(pem) {
        Some(parts) => Ok(parts),
        None => pkcs1_private_key(pem),
    }
}

/// Reads a private key: PKCS#8 is tried first, then PKCS#1.
pub fn parse_private_key_pem(pem: &str) -> (r: Result<PrivateKey, String>)
    ensures
        match private_key_in(pem@) {
            Ok(parts) => r is Ok && r->Ok_0.parts() == parts,
            Err(e) => r is Err && r->Err_0@ == "parse privkey: "@ + e,
        },
{
    match read_pkcs8_private(pem) {
        Some(key) => Ok(key),
        None => match read_pkcs1_private(pem) {
            Ok(key) => Ok(key),
            Err(e) => Err(join("parse privkey: ", e.as_str())),
        },
    }
}

fn join(a: &str, b: &str) -> (s: String)
    ensures
        s@ == a@ + b@,
{
    let mut s = a.to_owned();
    s.append(b);
    s
}

// ---------------------------------------------------------------------
// The content of a token.

/// The character of a hexadecimal digit.
pub open spec fn hex_digit(d: int) -> char {
    if d < 10 {
        super::text::digit_char(d)
    } else if d == 10 {
        'a'
    } else if d == 11 {
        'b'
    } else if d == 12 {
        'c'
    } else if d == 13 {
        'd'
    } else if d == 14 {
        'e'
    } else {
        'f'
    }
}

/// Bytes in hexadecimal, two lower-case digits each.
pub open spec fn hex(data: Seq<u8>) -> Seq<char>
    decreases data.len(),
{
    if data.len() == 0 {
        Seq::empty()
    } else {
        hex(data.drop_last()) + seq![
            hex_digit(data.last() as int / 16),
            hex_digit(data.last() as int % 16),
        ]
    }
}

fn hex_digit_char(d: u8) -> (c: char)
    requires
        d < 16,
    ensures
        c == hex_digit(d as int),
{
    match d {
        0 => '0',
        1 => '1',
        2 => '2',
        3 => '3',
        4 => '4',
        5 => '5',
        6 => '6',
        7 => '7',
        8 => '8',
        9 => '9',
        10 => 'a',
        11 => 'b',
        12 => 'c',
        13 => 'd',
        14 => 'e',
        _ => 'f',
    }
}

fn to_hex(data: &[u8]) -> (s: String)
    ensures
        s@ == hex(data@),
{
    let mut s = String::new();
    let mut i: usize = 0;
    while i < data.len()
        invariant
            i <= data.len(),
            s@ == hex(data@.take(i as int)),
        decreases data.len() - i,
    {
        s.push(hex_digit_char(data[i] / 16));
        s.push(hex_digit_char(data[i] % 16));
        proof {
            let more = data@.take(i as int + 1);
            assert(more.drop_last() =~= data@.take(i as int));
            assert(s@ =~= hex(more));
        }
        i = i + 1;
    }
    proof {
        assert(data@.take(i as int) =~= data@);
    }
    s
}

/// The SHA-256 digest of a text, in hex.
pub open spec fn text_digest(s: Seq<char>) -> Seq<char> {
    hex(sha256(encode_utf8(s)))
}

/// The SHA-256 digest of a text, in hex.
pub fn sha256_hex(input: &str) -> (s: String)
    ensures
        s@ == text_digest(input@),
{
    let digest = sha256_digest(input.as_bytes());
    to_hex(digest.as_slice())
}

/// What a token holds: when it was made, by whom, and the digest of their
/// password.
pub open spec fn payload_text(timestamp: u64, user: Seq<char>, digest: Seq<char>) -> Seq<char> {
    decimal(timestamp as nat) + seq!['\n'] + (user + seq!['\n'] + digest)
}

fn build_payload(timestamp: u64, user: &str, digest: &str) -> (s: String)
    ensures
        s@ == payload_text(timestamp, user@, digest@),
{
    let mut s = String::new();
    push_decimal(&mut s, timestamp as u128);
    s.push('\n');
    s.append(user);
    s.push('\n');
    s.append(digest);
    proof {
        assert(s@ =~= payload_text(timestamp, user@, digest@));
    }
    s
}

/// What a client claims.
#[derive(Debug, Clone, PartialEq, Eq)]
pub struct AuthClaim {
    pub timestamp: u64,
    pub username: String,
    pub password_sha256_hex: String,
}

impl AuthClaim {
    /// The claim says this.
    pub open spec fn says(self, timestamp: int, user: Seq<char>, digest: Seq<char>) -> bool {
        &&& self.timestamp == timestamp
        &&& self.username@ == user
        &&& self.password_sha256_hex@ == digest
    }
}

/// The text is the content of a token: three parts, separated by the first
/// two line feeds. Or this is what is wrong with it.
pub open spec fn claim_in(s: Seq<char>, r: Result<AuthClaim, String>) -> bool {
    let i = index_of(s, '\n');
    let rest = s.skip(i + 1);
    let j = index_of(rest, '\n');
    match number(s.take(i), 10, u64::MAX as int) {
        Err(e) => r is Err && r->Err_0@ == "bad timestamp: "@ + number_error_text(e),
        Ok(timestamp) => if i == s.len() {
            r is Err && r->Err_0@ == "missing username"@
        } else if j == rest.len() {
            r is Err && r->Err_0@ == "missing password hash"@
        } else {
            r is Ok && r->Ok_0.says(timestamp, rest.take(j), rest.skip(j + 1))
        },
    }
}

/// Takes the content of a token apart.
pub fn parse_claim(text: &str) -> (r: Result<AuthClaim, String>)
    ensures
        claim_in(text@, r),
{
    let chars = to_chars(text);
    let i: usize = find_char(&chars, '\n');
    let head = slice_chars(&chars, 0, i);
    proof {
        assert(head@ =~= text@.take(i as int));
    }
    let timestamp: u64 = match parse_number(&head, 10, u64::MAX) {
        Ok(n) => n,
        Err(e) => {
            return Err(join("bad timestamp: ", number_error_message(e)));
        },
    };
    if i == chars.len() {
        return Err("missing username".to_owned());
    }
    let rest = slice_chars(&chars, i + 1, chars.len());
    proof {
        assert(rest@ =~= text@.skip(i as int + 1));
    }
    let j: usize = find_char(&rest, '\n');
    if j == rest.len() {
        return Err("missing password hash".to_owned());
    }
    let user = slice_chars(&rest, 0, j);
    let digest = slice_chars(&rest, j + 1, rest.len());
    proof {
        assert(user@ =~= rest@.take(j as int));
        assert(digest@ =~= rest@.skip(j as int + 1));
    }
    Ok(
        AuthClaim {
            timestamp,
            username: from_chars(&user),
            password_sha256_hex: from_chars(&digest),
        },
    )
}

/// The server reads from a token what the client put into it, for every user
/// whose name holds no line feed.
pub proof fn claim_round_trip(
    timestamp: u64,
    user: Seq<char>,
    digest: Seq<char>,
    r: Result<AuthClaim, String>,
)
    requires
        !user.contains('\n'),
        claim_in(payload_text(timestamp, user, digest), r),
    ensures
        r is Ok,
        r->Ok_0.says(timestamp as int, user, digest),
{
    let s = payload_text(timestamp, user, digest);
    let ts = decimal(timestamp as nat);
    let rest = user + seq!['\n'] + digest;
    super::text::decimal_is_digits(timestamp as nat);
    super::text::decimal_round_trip(timestamp as nat, u64::MAX as int);
    assert(!ts.contains('\n')) by {
        if ts.contains('\n') {
            let k = choose|k: int| 0 <= k < ts.len() && ts[k] == '\n';
            assert('0' <= ts[k]);
        }
    }
    index_of_joined(ts, '\n', rest);
    index_of_joined(user, '\n', digest);
    assert(s.take(ts.len() as int) == ts);
    assert(s.skip(ts.len() as int + 1) == rest);
}

// ---------------------------------------------------------------------
// Tokens.

/// The token is an encryption, under the key, of what this user claims at
/// this time.
pub open spec fn is_token(
    key: Seq<u8>,
    timestamp: u64,
    user: Seq<char>,
    password: Seq<char>,
    token: Seq<char>,
) -> bool {
    exists|cipher: Seq<u8>| #[trigger]
        oaep_encrypts(
            key,
            encode_utf8(payload_text(timestamp, user, text_digest(password))),
            cipher,
        ) && token == base64_text(cipher) && base64_bytes(token) == Ok::<Seq<u8>, Seq<char>>(cipher)
}

/// What comes of making the token of a user at a given time: a token, unless
/// the key does not encrypt what they claim.
pub open spec fn token_outcome(
    key: Seq<u8>,
    timestamp: u64,
    user: Seq<char>,
    password: Seq<char>,
    r: Result<String, String>,
) -> bool {
    let plain = encode_utf8(payload_text(timestamp, user, text_digest(password)));
    match oaep_refusal(key, plain) {
        None => r is Ok && is_token(key, timestamp, user, password, r->Ok_0@),
        Some(e) => r is Err && r->Err_0@ == "rsa encrypt: "@ + e,
    }
}

/// Makes a token of what encryption gave.
pub fn token_from_cipher(encrypted: Result<Vec<u8>, String>) -> (r: Result<String, String>)
    ensures
        match encrypted {
            Ok(cipher) => {
                &&& r is Ok
                &&& r->Ok_0@ == base64_text(cipher@)
                &&& base64_bytes(r->Ok_0@) == Ok::<Seq<u8>, Seq<char>>(cipher@)
            },
            Err(e) => r is Err && r->Err_0@ == "rsa encrypt: "@ + e@,
        },
{
    match encrypted {
        Ok(cipher) => Ok(base64_encode(cipher.as_slice())),
        Err(e) => Err(join("rsa encrypt: ", e.as_str())),
    }
}

/// Makes the token of a user at a given time.
pub fn build_authtoken_at(pubkey: &PublicKey, username: &str, password: &str, timestamp: u64) -> (r:
    Result<String, String>)
    ensures
        token_outcome(pubkey.der@, timestamp, username@, password@, r),
{
    let digest = sha256_hex(password);
    let payload = build_payload(timestamp, username, digest.as_str());
    let encrypted = oaep_encrypt(pubkey.der.as_slice(), payload.as_str().as_bytes());
    token_from_cipher(encrypted)
}

/// Makes the token of a user, by the wall clock.
pub fn build_authtoken(pubkey: &PublicKey, username: &str, password: &str) -> (r: Result<
    String,
    String,
>)
    ensures
        exists|time: Result<u64, String>| #[trigger]
            wall_clock_says(time) && match time {
                Ok(timestamp) => token_outcome(pubkey.der@, timestamp, username@, password@, r),
                Err(e) => r is Err && r->Err_0@ == "clock: "@ + e@,
            },
{
    let time = unix_time_secs();
    proof {
        assert(wall_clock_says(time));
    }
    match time {
        Ok(timestamp) => build_authtoken_at(pubkey, username, password, timestamp),
        Err(e) => Err(join("clock: ", e.as_str())),
    }
}

/// What a token claims to a server with the given private key, or what is
/// wrong with it.
pub open spec fn token_claims(
    key: Seq<Seq<u8>>,
    token: Seq<char>,
    r: Result<AuthClaim, String>,
) -> bool {
    match base64_bytes(token) {
        Err(e) => r is Err && r->Err_0@ == "b64: "@ + e,
        Ok(cipher) => match oaep_plain(key, cipher) {
            Err(e) => r is Err && r->Err_0@ == "rsa decrypt: "@ + e,
            Ok(plain) => decrypted_claims(plain, r),
        },
    }
}

/// What the decrypted content of a token claims, or what is wrong with it.
pub open spec fn decrypted_claims(plain: Seq<u8>, r: Result<AuthClaim, String>) -> bool {
    if valid_utf8(plain) {
        claim_in(decode_utf8(plain), r)
    } else {
        r is Err && r->Err_0@ == "authtoken not utf8"@
    }
}

/// Reads the decrypted content of a token.
pub fn claim_from_plain(plain: Vec<u8>) -> (r: Result<AuthClaim, String>)
    ensures
        decrypted_claims(plain@, r),
{
    match text_from_utf8(plain) {
        None => Err("authtoken not utf8".to_owned()),
        Some(text) => parse_claim(text.as_str()),
    }
}

/// Reads a token with the server's private key.
pub fn decode_authtoken(privkey: &PrivateKey, token: &str) -> (r: Result<AuthClaim, String>)
    ensures
        token_claims(privkey.larger_first(), token@, r),
{
    let cipher = match base64_decode(token) {
        Ok(v) => v,
        Err(e) => {
            return Err(join("b64: ", e.as_str()));
        },
    };
    match oaep_decrypt(&privkey.with_larger_first(), cipher.as_slice()) {
        Err(e) => Err(join("rsa decrypt: ", e.as_str())),
        Ok(plain) => claim_from_plain(plain),
    }
}

/// The two keys belong together: decrypting with the private one undoes
/// encrypting with the public one.
pub open spec fn is_key_pair(private_key: Seq<Seq<u8>>, public_key: Seq<u8>) -> bool {
    forall|plain: Seq<u8>, cipher: Seq<u8>| #[trigger]
        oaep_encrypts(public_key, plain, cipher) ==> oaep_plain(private_key, cipher) == Ok::<
            Seq<u8>,
            Seq<char>,
        >(plain)
}

/// A token gives the server with the matching private key the claim of the
/// user who made it, for every user whose name holds no line feed.
pub proof fn token_round_trip(
    private_key: Seq<Seq<u8>>,
    public_key: Seq<u8>,
    timestamp: u64,
    user: Seq<char>,
    password: Seq<char>,
    token: Seq<char>,
    r: Result<AuthClaim, String>,
)
    requires
        is_key_pair(private_key, public_key),
        !user.contains('\n'),
        is_token(public_key, timestamp, user, password, token),
        token_claims(private_key, token, r),
    ensures
        r is Ok,
        r->Ok_0.says(timestamp as int, user, text_digest(password)),
{
    let s = payload_text(timestamp, user, text_digest(password));
    let cipher = choose|cipher: Seq<u8>| #[trigger]
        oaep_encrypts(public_key, encode_utf8(s), cipher) && token == base64_text(cipher)
            && base64_bytes(token) == Ok::<Seq<u8>, Seq<char>>(cipher);
    vstd::utf8::encode_utf8_valid_utf8(s);
    vstd::utf8::encode_utf8_decode_utf8(s);
    claim_round_trip(timestamp, user, text_digest(password), r);
}

// ---------------------------------------------------------------------
// Freshness.

/// How far two points in time lie apart, in seconds.
pub open spec fn apart(a: u64, b: u64) -> int {
    if a >= b {
        a - b
    } else {
        b - a
    }
}

/// A claim is fresh if it is no further off than allowed, either way.
pub open spec fn freshness(timestamp: u64, skew_secs: u64, now: u64, r: Result<(), String>) -> bool {
    if apart(now, timestamp) > skew_secs {
        r is Err && r->Err_0@ == "timestamp skew "@ + decimal(apart(now, timestamp) as nat)
            + " > "@ + decimal(skew_secs as nat)
    } else {
        r is Ok
    }
}

/// Checks that a claim is fresh at a given time.
pub fn validate_timestamp_at(claim: &AuthClaim, skew_secs: u64, now: u64) -> (r: Result<(), String>)
    ensures
        freshness(claim.timestamp, skew_secs, now, r),
{
    let delta: u64 = if now >= claim.timestamp {
        now - claim.timestamp
    } else {
        claim.timestamp - now
    };
    if delta > skew_secs {
        let mut text = "timestamp skew ".to_owned();
        push_decimal(&mut text, delta as u128);
        text.append(" > ");
        push_decimal(&mut text, skew_secs as u128);
        return Err(text);
    }
    Ok(())
}

/// Checks that a claim is fresh, by the wall clock.
pub fn validate_timestamp(claim: &AuthClaim, skew_secs: u64) -> (r: Result<(), String>)
    ensures
        exists|time: Result<u64, String>| #[trigger]
            wall_clock_says(time) && match time {
                Ok(now) => freshness(claim.timestamp, skew_secs, now, r),
                Err(e) => r is Err && r->Err_0@ == "clock: "@ + e@,
            },
        skew_secs == u64::MAX ==> r is Ok || "clock: "@.is_prefix_of(r->Err_0@),
{
    let time = unix_time_secs();
    proof {
        assert(wall_clock_says(time));
    }
    match time {
        Ok(now) => validate_timestamp_at(claim, skew_secs, now),
        Err(e) => Err(join("clock: ", e.as_str())),
    }
}

// ---------------------------------------------------------------------
// Authorized users.

/// A user with the digest of their password.
#[derive(Debug, Clone, PartialEq, Eq)]
pub struct UserEntry {
    pub name: String,
    pub digest: String,
}

/// The authorized users. Where a name was entered more than once, the last
/// entry holds.
#[derive(Debug, Clone)]
pub struct AuthorizedUsers {
    pub entries: Vec<UserEntry>,
}

/// The users that entries stand for.
pub open spec fn users_of(entries: Seq<UserEntry>) -> Map<Seq<char>, Seq<char>>
    decreases entries.len(),
{
    if entries.len() == 0 {
        Map::empty()
    } else {
        users_of(entries.drop_last()).insert(entries.last().name@, entries.last().digest@)
    }
}

impl View for AuthorizedUsers {
    type V = Map<Seq<char>, Seq<char>>;

    open spec fn view(&self) -> Map<Seq<char>, Seq<char>> {
        users_of(self.entries@)
    }
}

impl AuthorizedUsers {
    /// No users.
    pub fn new() -> (u: AuthorizedUsers)
        ensures
            u@ == Map::<Seq<char>, Seq<char>>::empty(),
    {
        AuthorizedUsers { entries: Vec::new() }
    }

    /// Enters a user, in place of any entry under the same name.
    pub fn insert(&mut self, name: String, digest: String)
        ensures
            final(self)@ == old(self)@.insert(name@, digest@),
    {
        self.entries.push(UserEntry { name, digest });
        proof {
            assert(self.entries@.drop_last() =~= old(self).entries@);
        }
    }

    /// The digest of a user's password.
    pub fn get(&self, name: &str) -> (r: Option<&String>)
        ensures
            match r {
                Some(d) => self@.dom().contains(name@) && self@[name@] == d@,
                None => !self@.dom().contains(name@),
            },
    {
        let mut i: usize = self.entries.len();
        proof {
            assert(self.entries@.take(i as int) =~= self.entries@);
        }
        while i > 0
            invariant
                i <= self.entries@.len(),
                self@.dom().contains(name@) == users_of(
                    self.entries@.take(i as int),
                ).dom().contains(name@),
                self@.dom().contains(name@) ==> self@[name@] == users_of(
                    self.entries@.take(i as int),
                )[name@],
            decreases i,
        {
            proof {
                let part = self.entries@.take(i as int);
                assert(part.drop_last() =~= self.entries@.take(i as int - 1));
                assert(part.last() == self.entries@[i - 1]);
            }
            let entry = &self.entries[i - 1];
            if same_text(entry.name.as_str(), name) {
                return Some(&entry.digest);
            }
            i = i - 1;
        }
        proof {
            assert(self.entries@.take(0) =~= Seq::<UserEntry>::empty());
        }
        None
    }
}

/// What one line of the file of authorized users says.
pub enum UserLine {
    /// Nothing: it is blank or a comment.
    Nothing,
    /// A user and the digest of their password.
    User(Seq<char>, Seq<char>),
    /// It is not understood.
    Bad(Seq<char>),
}

/// What one line says: a name and a digest, separated by the first comma.
/// Blank lines and lines that begin with `#` say nothing.
pub open spec fn line_says(line: Seq<char>) -> UserLine {
    let t = trim(line);
    let i = index_of(t, ',');
    if t.len() == 0 || t[0] == '#' {
        UserLine::Nothing
    } else if i == t.len() {
        UserLine::Bad(t)
    } else {
        UserLine::User(trim(t.take(i)), trim(t.skip(i + 1)))
    }
}

/// What lines say on top of the users known so far: all users, or the first
/// line that is not understood.
pub open spec fn users_in(
    all: Seq<Seq<char>>,
    known: Map<Seq<char>, Seq<char>>,
) -> Result<Map<Seq<char>, Seq<char>>, Seq<char>>
    decreases all.len(),
{
    if all.len() == 0 {
        Ok(known)
    } else {
        match line_says(all[0]) {
            UserLine::Nothing => users_in(all.skip(1), known),
            UserLine::Bad(t) => Err(t),
            UserLine::User(name, digest) => users_in(all.skip(1), known.insert(name, digest)),
        }
    }
}

/// Reads the file of authorized users.
pub fn parse_authorized_users(contents: &str) -> (r: Result<AuthorizedUsers, String>)
    ensures
        match users_in(lines(contents@), Map::empty()) {
            Ok(users) => r is Ok && r->Ok_0@ == users,
            Err(line) => r is Err && r->Err_0@ == "bad line: "@ + line,
        },
{
    let chars = to_chars(contents);
    let all = split_lines(&chars);
    let ghost texts = chars_views(all@);
    let mut users = AuthorizedUsers::new();
    let mut k: usize = 0;
    proof {
        assert(texts.skip(0) =~= texts);
    }
    while k < all.len()
        invariant
            k <= all@.len(),
            texts == chars_views(all@),
            texts == lines(contents@),
            texts.len() == all@.len(),
            users_in(texts.skip(k as int), users@) == users_in(texts, Map::empty()),
        decreases all.len() - k,
    {
        proof {
            assert(texts.skip(k as int)[0] == all@[k as int]@);
            assert(texts.skip(k as int).skip(1) =~= texts.skip(k as int + 1));
        }
        let line = trim_chars(&all[k]);
        if line.len() > 0 && line[0] != '#' {
            let i: usize = find_char(&line, ',');
            if i == line.len() {
                proof {
                    assert(line_says(texts.skip(k as int)[0]) == UserLine::Bad(line@));
                }
                let text = from_chars(&line);
                return Err(join("bad line: ", text.as_str()));
            }
            let before = slice_chars(&line, 0, i);
            let after = slice_chars(&line, i + 1, line.len());
            proof {
                assert(before@ =~= line@.take(i as int));
                assert(after@ =~= line@.skip(i as int + 1));
            }
            let name = trim_chars(&before);
            let digest = trim_chars(&after);
            users.insert(from_chars(&name), from_chars(&digest));
        }
        k = k + 1;
    }
    Ok(users)
}

/// A claim is good if its user is known and the digest is theirs, in
/// whichever case its letters are.
pub open spec fn authorization(
    user: Seq<char>,
    digest: Seq<char>,
    users: Map<Seq<char>, Seq<char>>,
    r: Result<(), String>,
) -> bool {
    if !users.dom().contains(user) {
        r is Err && r->Err_0@ == "unknown user: "@ + user
    } else if !same_ignoring_case(users[user], digest) {
        r is Err && r->Err_0@ == "bad password"@
    } else {
        r is Ok
    }
}

/// Checks a claim against the authorized users.
pub fn authorize(claim: &AuthClaim, users: &AuthorizedUsers) -> (r: Result<(), String>)
    ensures
        authorization(claim.username@, claim.password_sha256_hex@, users@, r),
{
    match users.get(claim.username.as_str()) {
        Some(expected) => {
            if same_text_ignoring_case(expected.as_str(), claim.password_sha256_hex.as_str()) {
                Ok(())
            } else {
                Err("bad password".to_owned())
            }
        },
        None => Err(join("unknown user: ", claim.username.as_str())),
    }
}

// ---------------------------------------------------------------------
// The server's decision.

/// Whether clients have to authenticate: only where both the key and the
/// users are given.
pub open spec fn is_enforced(key: Option<PrivateKey>, users: Option<AuthorizedUsers>) -> bool {
    key is Some && users is Some
}

/// The decision on a claim that was read from a token: it has to be fresh,
/// and the user authorized.
pub open spec fn claim_decision(
    claim: Result<AuthClaim, String>,
    users: Map<Seq<char>, Seq<char>>,
    now: u64,
    r: Result<(), String>,
) -> bool {
    match claim {
        Err(e) => r == Err::<(), String>(e),
        Ok(c) => if apart(now, c.timestamp) > TIMESTAMP_SKEW_SECS {
            freshness(c.timestamp, TIMESTAMP_SKEW_SECS, now, r)
        } else {
            authorization(c.username@, c.password_sha256_hex@, users, r)
        },
    }
}

/// Decides on a claim that was read from a token.
pub fn decide_claim(claim: Result<AuthClaim, String>, users: &AuthorizedUsers, now: u64) -> (r:
    Result<(), String>)
    ensures
        claim_decision(claim, users@, now, r),
{
    match claim {
        Err(e) => Err(e),
        Ok(c) => {
            match validate_timestamp_at(&c, TIMESTAMP_SKEW_SECS, now) {
                Err(e) => Err(e),
                Ok(_) => authorize(&c, users),
            }
        },
    }
}

/// Decides whether a client that sent `token` among its options is let in.
/// Without both a key and users, every client is.
pub fn admit_client(
    key: &Option<PrivateKey>,
    users: &Option<AuthorizedUsers>,
    token: &Option<String>,
    now: u64,
) -> (r: Result<(), String>)
    ensures
        !is_enforced(*key, *users) ==> r is Ok,
        is_enforced(*key, *users) ==> match *token {
            None => r is Err && r->Err_0@ == "missing authtoken"@,
            Some(t) => exists|claim: Result<AuthClaim, String>| #[trigger]
                token_claims(key->0.larger_first(), t@, claim) && claim_decision(claim, users->0@, now, r),
        },
{
    let k = match key {
        Some(k) => k,
        None => {
            return Ok(());
        },
    };
    let u = match users {
        Some(u) => u,
        None => {
            return Ok(());
        },
    };
    match token {
        None => Err("missing authtoken".to_owned()),
        Some(t) => {
            let claim = decode_authtoken(k, t.as_str());
            proof {
                assert(token_claims(key->0.larger_first(), t@, claim));
            }
            decide_claim(claim, u, now)
        },
    }
}

/// Where clients have to authenticate, one is let in only if its token was
/// made within the allowed skew and carries the password digest of a user in
/// the file.
pub proof fn only_authorized_users_enter(
    claim: Result<AuthClaim, String>,
    users: Map<Seq<char>, Seq<char>>,
    now: u64,
    r: Result<(), String>,
)
    requires
        claim_decision(claim, users, now, r),
        r is Ok,
    ensures
        claim is Ok,
        apart(now, claim->Ok_0.timestamp) <= TIMESTAMP_SKEW_SECS,
        users.dom().contains(claim->Ok_0.username@),
        same_ignoring_case(users[claim->Ok_0.username@], claim->Ok_0.password_sha256_hex@),
{
}

/// A user in the file who proves the right password in time is let in: from
/// the claim of their token, with the digest of the password entered for
/// them.
pub proof fn authorized_users_do_enter(
    timestamp: u64,
    user: Seq<char>,
    password: Seq<char>,
    claim: AuthClaim,
    users: Map<Seq<char>, Seq<char>>,
    now: u64,
    r: Result<(), String>,
)
    requires
        claim.says(timestamp as int, user, text_digest(password)),
        users.dom().contains(user),
        users[user] == text_digest(password),
        apart(now, timestamp) <= TIMESTAMP_SKEW_SECS,
        claim_decision(Ok(claim), users, now, r),
    ensures
        r is Ok,
{
    assert(same_ignoring_case(users[user], text_digest(password)));
}

} // verus!
