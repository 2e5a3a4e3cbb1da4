//! Environment-based authentication helpers for direct API access: the L2
//! signature and headers of the Polymarket API.

use vstd::prelude::*;
use vstd::utf8::encode_utf8;
use base64::Engine;
use hmac::Mac;
use crate::text::{decimal, u64_decimal};

verus! {

#[verifier::external_type_specification]
#[verifier::external_body]
pub struct ExDecodeError(base64::DecodeError);

#[verifier::external_type_specification]
#[verifier::external_body]
pub struct ExInvalidLength(hmac::digest::InvalidLength);

/// L2 API credentials.
#[derive(Debug)]
pub struct ApiCreds {
    pub api_key: String,
    pub secret: String,
    pub passphrase: String,
}

/// Why no signature could be made.
#[derive(Debug)]
pub enum AuthError {
    /// The API secret is not URL-safe base64.
    SecretDecode(base64::DecodeError),
    /// The HMAC refused the key.
    KeyLength(hmac::digest::InvalidLength),
}

/// The bytes that URL-safe base64 (with padding) decodes `s` to, or `None`
/// where `s` is not such base64.
pub uninterp spec fn base64_url_decoded(s: Seq<char>) -> Option<Seq<u8>>;

/// The URL-safe base64 text (with padding) of `b`.
pub uninterp spec fn base64_url_encoded(b: Seq<u8>) -> Seq<char>;

/// HMAC-SHA256 of `msg` under `key`.
pub uninterp spec fn hmac_sha256(key: Seq<u8>, msg: Seq<u8>) -> Seq<u8>;

/// Decodes `s` with base64's `URL_SAFE` engine (`Engine::decode`); the
/// result is named by `base64_url_decoded`.
#[verifier::external_body]
fn base64_url_decode(s: &str) -> (r: Result<Vec<u8>, base64::DecodeError>)
    ensures
        match r {
            Ok(v) => base64_url_decoded(s@) == Some(v@),
            Err(_) => base64_url_decoded(s@) is None,
        },
{
    base64::engine::general_purpose::URL_SAFE.decode(s)
}

/// Encodes `b` with base64's `URL_SAFE` engine (`Engine::encode`); the
/// result is named by `base64_url_encoded`. With padding, the text has four
/// characters for each started group of three bytes (`encoded_len`), and
/// the engine decodes it back to `b`.
#[verifier::external_body]
fn base64_url_encode(b: &[u8]) -> (r: String)
    ensures
        r@ == base64_url_encoded(b@),
        r@.len() == (b@.len() + 2) / 3 * 4,
        base64_url_decoded(r@) == Some(b@),
{
    base64::engine::general_purpose::URL_SAFE.encode(b)
}

/// HMAC-SHA256 of `msg` under `key`, through hmac's `Hmac<Sha256>`:
/// `new_from_slice`, `update`, `finalize`. The result is named by
/// `hmac_sha256`; SHA-256 output is 32 bytes. `new_from_slice` of this type
/// accepts a key of any length, so the call succeeds.
#[verifier::external_body]
fn hmac_sha256_digest(key: &[u8], msg: &[u8]) -> (r: Result<Vec<u8>, hmac::digest::InvalidLength>)
    ensures
        r is Ok,
        match r {
            Ok(v) => v@ == hmac_sha256(key@, msg@) && v@.len() == 32,
            Err(_) => true,
        },
{
    let mut mac = match <hmac::Hmac<sha2::Sha256> as Mac>::new_from_slice(key) {
        Ok(m) => m,
        Err(e) => return Err(e),
    };
    mac.update(msg);
    Ok(mac.finalize().into_bytes().to_vec())
}

/// The message that an L2 request signs: the timestamp in decimal, the
/// method, the path and the body, if any.
pub open spec fn l2_message(
    timestamp: u64,
    method: Seq<char>,
    path: Seq<char>,
    body: Option<Seq<char>>,
) -> Seq<char> {
    let m = decimal(timestamp as nat) + method + path;
    match body {
        Some(b) => m + b,
        None => m,
    }
}

/// The L2 signature of a request under a secret that decodes to `key`.
pub open spec fn l2_signature(
    key: Seq<u8>,
    timestamp: u64,
    method: Seq<char>,
    path: Seq<char>,
    body: Option<Seq<char>>,
) -> Seq<char> {
    base64_url_encoded(hmac_sha256(key, encode_utf8(l2_message(timestamp, method, path, body))))
}

/// The value of an optional string slice.
pub open spec fn opt_str_view(o: Option<&str>) -> Option<Seq<char>> {
    match o {
        Some(s) => Some(s@),
        None => None,
    }
}

/// Generates the L2 signature for Polymarket API authentication: the
/// URL-safe base64 of HMAC-SHA256, under the URL-safe base64 decoded
/// secret, of timestamp, method, path and body. The signature is 44
/// characters and decodes to the 32 bytes of the MAC.
pub fn generate_l2_signature(
    api_secret: &str,
    timestamp: u64,
    method: &str,
    path: &str,
    body: Option<&str>,
) -> (r: Result<String, AuthError>)
    ensures
        match base64_url_decoded(api_secret@) {
            None => r matches Err(AuthError::SecretDecode(_)),
            Some(key) => r matches Ok(s) && s@ == l2_signature(
                key,
                timestamp,
                method@,
                path@,
                opt_str_view(body),
            ) && base64_url_decoded(s@) == Some(
                hmac_sha256(key, encode_utf8(l2_message(timestamp, method@, path@, opt_str_view(body)))),
            ) && s@.len() == 44 && hmac_sha256(
                key,
                encode_utf8(l2_message(timestamp, method@, path@, opt_str_view(body))),
            ).len() == 32,
        },
{
    let mut message = u64_decimal(timestamp);
    message.append(method);
    message.append(path);
    if let Some(b) = body {
        message.append(b);
    }
    let secret_bytes = match base64_url_decode(api_secret) {
        Ok(v) => v,
        Err(e) => {
            return Err(AuthError::SecretDecode(e));
        },
    };
    let digest = match hmac_sha256_digest(secret_bytes.as_slice(), message.as_str().as_bytes()) {
        Ok(d) => d,
        Err(e) => {
            return Err(AuthError::KeyLength(e));
        },
    };
    Ok(base64_url_encode(digest.as_slice()))
}

/// The values of a list of header name and value pairs.
pub open spec fn headers_view(v: Seq<(String, String)>) -> Seq<(Seq<char>, Seq<char>)> {
    v.map_values(|p: (String, String)| (p.0@, p.1@))
}

/// The L2 headers of a request made at `timestamp` with `signature`, in the
/// order they are sent.
pub open spec fn l2_headers(
    address: Seq<char>,
    api_key: Seq<char>,
    passphrase: Seq<char>,
    timestamp: u64,
    signature: Seq<char>,
) -> Seq<(Seq<char>, Seq<char>)> {
    seq![
        ("poly_address"@, address),
        ("poly_api_key"@, api_key),
        ("poly_passphrase"@, passphrase),
        ("poly_timestamp"@, decimal(timestamp as nat)),
        ("poly_signature"@, signature),
    ]
}

/// Builds the L2 authentication headers of a request made at `timestamp`
/// (seconds since the Unix epoch).
pub fn build_l2_headers_at(
    api_creds: &ApiCreds,
    address: &str,
    method: &str,
    path: &str,
    body: Option<&str>,
    timestamp: u64,
) -> (r: Result<Vec<(String, String)>, AuthError>)
    ensures
        match base64_url_decoded(api_creds.secret@) {
            None => r matches Err(AuthError::SecretDecode(_)),
            Some(key) => r matches Ok(h) && headers_view(h@) == l2_headers(
                address@,
                api_creds.api_key@,
                api_creds.passphrase@,
                timestamp,
                l2_signature(key, timestamp, method@, path@, opt_str_view(body)),
            ),
        },
{
    let signature = match generate_l2_signature(
        api_creds.secret.as_str(),
        timestamp,
        method,
        path,
        body,
    ) {
        Ok(s) => s,
        Err(e) => {
            return Err(e);
        },
    };
    let mut h: Vec<(String, String)> = Vec::new();
    h.push((String::from_str("poly_address"), String::from_str(address)));
    h.push((String::from_str("poly_api_key"), api_creds.api_key.clone()));
    h.push((String::from_str("poly_passphrase"), api_creds.passphrase.clone()));
    h.push((String::from_str("poly_timestamp"), u64_decimal(timestamp)));
    h.push((String::from_str("poly_signature"), signature));
    proof {
        assert(headers_view(h@) =~= l2_headers(
            address@,
            api_creds.api_key@,
            api_creds.passphrase@,
            timestamp,
            h@[4].1@,
        ));
    }
    Ok(h)
}

/// Reads the system clock through `chrono::Utc::now()` and returns
/// `timestamp()` of it: seconds since the Unix epoch. The value depends on
/// the clock; what holds of every value it returns is that `Utc::now`
/// panics on a clock before the epoch or past the last second chrono can
/// represent (the end of the year 262142), so it lies between those.
#[verifier::external_body]
pub(crate) fn now_seconds() -> (t: i64)
    ensures
        0 <= t <= 8_210_266_876_799,
{
    chrono::Utc::now().timestamp()
}

/// Builds the L2 authentication headers of a request made now.
pub fn build_l2_headers(
    api_creds: &ApiCreds,
    address: &str,
    method: &str,
    path: &str,
    body: Option<&str>,
) -> (r: Result<Vec<(String, String)>, AuthError>)
    ensures
        match base64_url_decoded(api_creds.secret@) {
            None => r matches Err(AuthError::SecretDecode(_)),
            Some(key) => r matches Ok(h) && exists|t: u64|
                t <= 8_210_266_876_799 && headers_view(h@) == #[trigger] l2_headers(
                address@,
                api_creds.api_key@,
                api_creds.passphrase@,
                t,
                l2_signature(key, t, method@, path@, opt_str_view(body)),
            ),
        },
{
    let timestamp = now_seconds() as u64;
    build_l2_headers_at(api_creds, address, method, path, body, timestamp)
}

} // verus!
