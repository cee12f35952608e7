use base64::Engine;
use hmac::{Hmac, KeyInit, Mac};
use rebalancer::signer::{AuthError, Signer};
use sha2::{Digest, Sha256, Sha512};

fn test_secret_bytes() -> Vec<u8> {
    (0u8..64).collect()
}

fn test_secret() -> String {
    base64::engine::general_purpose::STANDARD.encode(test_secret_bytes())
}

fn new_signer() -> Signer {
    Signer::new("key".to_string(), &test_secret()).unwrap()
}

#[test]
fn new_rejects_invalid_base64() {
    let r = Signer::new("key".to_string(), "!!!not-base64!!!");
    assert!(matches!(r, Err(AuthError::BadSecret)));
}

#[test]
fn new_rejects_short_key() {
    let short = base64::engine::general_purpose::STANDARD.encode([1u8; 10]);
    let r = Signer::new("key".to_string(), &short);
    assert!(matches!(r, Err(AuthError::BadSecret)));
}

#[test]
fn new_accepts_full_length_key() {
    assert!(Signer::new("key".to_string(), &test_secret()).is_ok());
}

#[test]
fn body_carries_fields_and_nonce() {
    let s = new_signer();
    let fields = vec![("otp".to_string(), "123".to_string())];
    let (body, _) = s.sign_with_nonce("/0/private/GetToken", &fields, 42);
    assert_eq!(body, "otp=123&nonce=42");
}

// Signing is deterministic: the same secret, path, fields and nonce give
// byte-identical output on every computation.
#[test]
fn repeated_signing_is_byte_identical() {
    let s = new_signer();
    let fields: Vec<(String, String)> = Vec::new();
    let a = s.sign_with_nonce("/0/private/GetToken", &fields, 1_234_567);
    let b = s.sign_with_nonce("/0/private/GetToken", &fields, 1_234_567);
    assert_eq!(a, b);
}

#[test]
fn signature_depends_on_path_fields_and_secret() {
    let s = new_signer();
    let fields: Vec<(String, String)> = Vec::new();
    let base = s.sign_with_nonce("/0/private/GetToken", &fields, 7);

    let other_path = s.sign_with_nonce("/0/private/Balance", &fields, 7);
    assert_ne!(base.1, other_path.1);

    let other_fields = vec![("otp".to_string(), "1".to_string())];
    let with_fields = s.sign_with_nonce("/0/private/GetToken", &other_fields, 7);
    assert_ne!(base.1, with_fields.1);

    let other_secret = base64::engine::general_purpose::STANDARD.encode([9u8; 64]);
    let s2 = Signer::new("key".to_string(), &other_secret).unwrap();
    let different = s2.sign_with_nonce("/0/private/GetToken", &fields, 7);
    assert_eq!(base.0, different.0);
    assert_ne!(base.1, different.1);
}

// The signature matches an independent computation of the documented
// scheme: base64(HMAC-SHA512(secret, path || SHA256(nonce || body))).
#[test]
fn signature_matches_direct_computation() {
    let s = new_signer();
    let fields: Vec<(String, String)> = Vec::new();
    let path = "/0/private/GetToken";
    let nonce = 1_700_000_000_123u64;
    let (body, sig) = s.sign_with_nonce(path, &fields, nonce);
    assert_eq!(body, format!("nonce={}", nonce));

    let mut hasher = Sha256::new();
    hasher.update(nonce.to_string().as_bytes());
    hasher.update(body.as_bytes());
    let digest = hasher.finalize();

    let mut mac = Hmac::<Sha512>::new_from_slice(&test_secret_bytes()).unwrap();
    mac.update(path.as_bytes());
    mac.update(&digest);
    let tag = mac.finalize().into_bytes();

    let expected = base64::engine::general_purpose::STANDARD.encode(tag);
    assert_eq!(sig, expected);
}

#[test]
fn nonces_increase_even_when_the_clock_stalls() {
    let mut s = new_signer();
    let a = s.next_nonce(1000);
    let b = s.next_nonce(1000);
    let c = s.next_nonce(999);
    let d = s.next_nonce(5000);
    assert_eq!(a, 1000);
    assert_eq!(b, 1001);
    assert_eq!(c, 1002);
    assert_eq!(d, 5000);
    assert!(a < b && b < c && c < d);
}

#[test]
fn sign_advances_the_nonce_mark() {
    let mut s = new_signer();
    let fields: Vec<(String, String)> = Vec::new();
    let (body1, _) = s.sign("/0/private/GetToken", &fields, 500);
    let (body2, _) = s.sign("/0/private/GetToken", &fields, 500);
    assert_eq!(body1, "nonce=500");
    assert_eq!(body2, "nonce=501");
}
