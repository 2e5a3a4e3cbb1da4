use base64::engine::general_purpose;
use base64::Engine;
use polybot::auth_env::{build_l2_headers, build_l2_headers_at, generate_l2_signature, ApiCreds, AuthError};
use std::collections::HashMap;

#[test]
fn test_l2_signature_generation() {
    let api_secret = "AAAAAAAAAAAAAAAAAAAAAAAAAAAAAAAAAAAAAAAAAAA=";
    let timestamp = 1000000;
    let method = "test-sign";
    let path = "/orders";
    let body = r#"{"hash": "0x123"}"#;

    let signature = generate_l2_signature(api_secret, timestamp, method, path, Some(body)).unwrap();

    assert!(!signature.is_empty());
    assert!(general_purpose::URL_SAFE.decode(&signature).is_ok());

    let signature2 = generate_l2_signature(api_secret, timestamp, method, path, Some(body)).unwrap();

    assert_eq!(signature, signature2);
}

#[test]
fn test_build_l2_headers() {
    let api_creds = ApiCreds {
        api_key: "test_key".to_string(),
        secret: "AAAAAAAAAAAAAAAAAAAAAAAAAAAAAAAAAAAAAAAAAAA=".to_string(),
        passphrase: "test_pass".to_string(),
    };

    let headers = build_l2_headers(
        &api_creds,
        "0x1234567890123456789012345678901234567890",
        "GET",
        "/test",
        None,
    )
    .unwrap();

    let header_map: HashMap<String, String> = headers.into_iter().collect();

    assert!(header_map.contains_key("poly_address"));
    assert!(header_map.contains_key("poly_api_key"));
    assert!(header_map.contains_key("poly_passphrase"));
    assert!(header_map.contains_key("poly_timestamp"));
    assert!(header_map.contains_key("poly_signature"));

    assert_eq!(header_map["poly_api_key"], "test_key");
    assert_eq!(header_map["poly_passphrase"], "test_pass");
    assert_eq!(header_map["poly_address"], "0x1234567890123456789012345678901234567890");
}

#[test]
fn signature_covers_the_body() {
    let secret = "AAAAAAAAAAAAAAAAAAAAAAAAAAAAAAAAAAAAAAAAAAA=";
    let with_body = generate_l2_signature(secret, 1000000, "test-sign", "/orders", Some("{}")).unwrap();
    let without_body = generate_l2_signature(secret, 1000000, "test-sign", "/orders", None).unwrap();
    assert_ne!(with_body, without_body);
    // A body appended to the path signs the same message as the path holding it.
    let joined = generate_l2_signature(secret, 1000000, "test-sign", "/orders{}", None).unwrap();
    assert_eq!(with_body, joined);
    // 32 digest bytes take 44 characters of padded base64.
    assert_eq!(with_body.len(), 44);
    assert_eq!(general_purpose::URL_SAFE.decode(&with_body).unwrap().len(), 32);
}

#[test]
fn signature_depends_on_timestamp_digits() {
    let secret = "AAAAAAAAAAAAAAAAAAAAAAAAAAAAAAAAAAAAAAAAAAA=";
    let a = generate_l2_signature(secret, 12, "GET", "/x", None).unwrap();
    let b = generate_l2_signature(secret, 1, "GET", "2/x", None).unwrap();
    // "12GET/x" and "1GET2/x" differ, so do their signatures.
    assert_ne!(a, b);
    let c = generate_l2_signature(secret, 1, "2GET", "/x", None).unwrap();
    // "12GET/x" is also "1" followed by "2GET/x".
    assert_eq!(a, c);
}

#[test]
fn bad_secret_is_refused() {
    let r = generate_l2_signature("not base64!", 1, "GET", "/", None);
    assert!(matches!(r, Err(AuthError::SecretDecode(_))));
}

#[test]
fn headers_at_a_given_time() {
    let creds = ApiCreds {
        api_key: "k".to_string(),
        secret: "AAAAAAAAAAAAAAAAAAAAAAAAAAAAAAAAAAAAAAAAAAA=".to_string(),
        passphrase: "p".to_string(),
    };
    let h = build_l2_headers_at(&creds, "0xabc", "GET", "/t", None, 1700000000).unwrap();
    let names: Vec<&str> = h.iter().map(|p| p.0.as_str()).collect();
    assert_eq!(names, vec!["poly_address", "poly_api_key", "poly_passphrase", "poly_timestamp", "poly_signature"]);
    assert_eq!(h[3].1, "1700000000");
    let sig = generate_l2_signature(&creds.secret, 1700000000, "GET", "/t", None).unwrap();
    assert_eq!(h[4].1, sig);
}

#[test]
fn signature_lengths() {
    let sig = generate_l2_signature("c2VjcmV0", 42, "POST", "/order", None).unwrap();
    assert_eq!(sig.len(), 44);
    assert_eq!(general_purpose::URL_SAFE.decode(&sig).unwrap().len(), 32);
}
