//! The crate's trusted boundary: every call into an outside crate, and into
//! the parts of std that vstd gives no specification, goes through one of the
//! items in this module.  Verus believes their contracts without reading the
//! bodies, so each doc comment names the outside function relied on and what
//! is assumed of it.

use vstd::prelude::*;
use vstd::utf8::valid_utf8;
use vstd::utf8::decode_utf8;
use crate::json::printable;

verus! {

/// What `String::from_utf8_lossy` returns on bytes that are not valid UTF-8;
/// the replacement scheme is a fixed function of the input bytes.
pub uninterp spec fn utf8_lossy(bytes: Seq<u8>) -> Seq<char>;

/// Relies on `String::from_utf8`: returns the decoded string exactly when the
/// bytes are valid UTF-8.
#[verifier::external_body]
pub fn string_from_utf8(v: Vec<u8>) -> (r: Option<String>)
    ensures
        r is Some <==> valid_utf8(v@),
        r matches Some(s) ==> s@ == decode_utf8(v@),
{
    String::from_utf8(v).ok()
}

/// Relies on `str::from_utf8`: succeeds exactly on valid UTF-8.
#[verifier::external_body]
pub fn utf8_check(v: &[u8]) -> (r: bool)
    ensures
        r == valid_utf8(v@),
{
    core::str::from_utf8(v).is_ok()
}

/// Relies on `String::from_utf8_lossy`: decodes valid UTF-8 exactly and
/// substitutes replacement characters otherwise.
#[verifier::external_body]
pub fn bytes_to_string(bytes: &Vec<u8>) -> (r: String)
    ensures
        r@ == utf8_lossy(bytes@),
        valid_utf8(bytes@) ==> r@ == decode_utf8(bytes@),
{
    String::from_utf8_lossy(bytes).to_string()
}

/// What the standard base64 encoding of a byte sequence is, as bytes.
pub uninterp spec fn base64_bytes_of(bytes: Seq<u8>) -> Seq<u8>;

/// Relies on `base64::engine::general_purpose::STANDARD.encode`: the standard
/// alphabet with padding, so the output is printable ASCII.
#[verifier::external_body]
pub fn base64_encode(v: &[u8]) -> (r: Vec<u8>)
    ensures
        r@ == base64_bytes_of(v@),
        forall|i: int| 0 <= i < r@.len() ==> 32 <= #[trigger] r@[i] < 127,
        valid_utf8(r@),
{
    base64::Engine::encode(&base64::engine::general_purpose::STANDARD, v).into_bytes()
}


/// Relies on `chrono::Utc::now().timestamp()`: the wall clock in seconds
/// since the epoch.  Nothing is assumed of the value.
#[verifier::external_body]
pub fn now_unix() -> i64 {
    chrono::Utc::now().timestamp()
}

/// Relies on `uuid::Uuid::new_v4`: a fresh random identifier in the
/// hyphenated form, 36 printable ASCII characters.  Nothing else is assumed;
/// in particular not that two calls differ.
#[verifier::external_body]
pub fn new_uuid() -> (r: String)
    ensures
        r@.len() == 36,
        forall|i: int| 0 <= i < r@.len() ==> printable(#[trigger] r@[i]),
{
    uuid::Uuid::new_v4().to_string()
}

/// What signing a claims document with HS256 under a secret yields: the
/// compact token, a function of the claims JSON text and the secret alone.
pub uninterp spec fn hs256_token(claims_json: Seq<char>, secret: Seq<u8>) -> Seq<char>;

/// Relies on `serde_json::from_str` and `jsonwebtoken::encode` with the
/// default HS256 header: both are deterministic in their inputs, and the
/// token is printable ASCII (base64url segments joined by dots).  Signing
/// fails only when the text is not JSON or on an algorithm/key-family
/// mismatch; a claims document this crate's canonical serializer renders is
/// JSON, the key here is always a symmetric HS256 key, and HMAC signing in
/// the pure-Rust provider, pinned before the call, cannot fail — so such a
/// document always signs.
#[verifier::external_body]
pub fn jwt_sign(claims_json: &str, secret: &[u8]) -> (r: Result<String, String>)
    ensures
        r matches Ok(t) ==> t@ == hs256_token(claims_json@, secret@),
        r matches Ok(t) ==> forall|i: int| 0 <= i < t@.len() ==> printable(#[trigger] t@[i]),
        (exists|c: crate::jwt::JWTClaims|
            vstd::utf8::encode_utf8(claims_json@) == #[trigger] crate::jwt::ser_claims(c)
                && crate::jwt::wf_claims(c)) ==> r is Ok,
{
    let _ = jsonwebtoken::crypto::rust_crypto::DEFAULT_PROVIDER.install_default();
    let value: serde_json::Value = match serde_json::from_str(claims_json) {
        Ok(v) => v,
        Err(e) => return Err(e.to_string()),
    };
    jsonwebtoken::encode(
        &jsonwebtoken::Header::default(),
        &value,
        &jsonwebtoken::EncodingKey::from_secret(secret),
    ).map_err(|e| e.to_string())
}

/// What a token's claims document is once decoded: the payload re-rendered
/// as compact JSON with keys in sorted order, a function of the token alone.
pub uninterp spec fn jwt_claims_json(token: Seq<char>) -> Seq<char>;

/// Relies on `jsonwebtoken::decode::<serde_json::Value>` with the default
/// validation (HS256, expiry checked against the clock, so when `Ok` comes
/// depends on the time): on success the claims are the token's payload.  The
/// default pure-Rust crypto provider is pinned before the call.
#[verifier::external_body]
pub fn jwt_verify(token: &str, secret: &[u8]) -> (r: Result<String, String>)
    ensures
        r matches Ok(c) ==> c@ == jwt_claims_json(token@),
{
    let _ = jsonwebtoken::crypto::rust_crypto::DEFAULT_PROVIDER.install_default();
    match jsonwebtoken::decode::<serde_json::Value>(
        token,
        &jsonwebtoken::DecodingKey::from_secret(secret),
        &jsonwebtoken::Validation::default(),
    ) {
        Ok(d) => Ok(d.claims.to_string()),
        Err(e) => Err(e.to_string()),
    }
}

/// Relies on `url::Url::parse` and `Url::socket_addrs`: parses the text as a
/// URL and resolves its host to socket addresses, returning them rendered as
/// `ip:port` strings together with the URL's domain for use as SNI.
/// Resolution asks the system resolver, so nothing is assumed of the result.
#[verifier::external_body]
pub fn resolve_url(url: &str) -> (r: Option<(Vec<String>, String)>) {
    let u = url::Url::parse(url).ok()?;
    let addrs = u.socket_addrs(|| None).unwrap_or_default();
    let mut list: Vec<String> = Vec::new();
    for a in addrs.iter() {
        list.push(a.to_string());
    }
    let sni = u.domain().unwrap_or_default().to_string();
    Some((list, sni))
}

/// What the subject-public-key bytes of a PEM certificate are, when the PEM
/// and the certificate in it parse: a function of the PEM text alone.
pub uninterp spec fn spki_of_pem(pem: Seq<char>) -> Option<Seq<u8>>;

/// Relies on `x509_parser::pem::parse_x509_pem` and
/// `x509_parser::parse_x509_certificate`: both are pure parsers, so whether
/// they succeed and what key they extract depend on the PEM text alone.
#[verifier::external_body]
pub fn extract_x509_pem(pem: &str) -> (r: Option<Vec<u8>>)
    ensures
        r matches Some(k) ==> spki_of_pem(pem@) == Some(k@),
        r is None ==> spki_of_pem(pem@) is None,
{
    let (_, parsed) = x509_parser::pem::parse_x509_pem(pem.as_bytes()).ok()?;
    let (_, cert) = x509_parser::parse_x509_certificate(&parsed.contents).ok()?;
    Some(cert.public_key().subject_public_key.data.to_vec())
}

} // verus!
