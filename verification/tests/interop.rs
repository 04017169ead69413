use jsonwebtoken::{Algorithm, DecodingKey, Validation};
use scan_automate::base64::{b64_decode, b64_encode};
use scan_automate::codec::encode_token;
use scan_automate::model::{JWTClaims, RustscanConfig, ScanID, ScanRequest, ScanRequestWithID};

fn sample_claims(exp: u64) -> JWTClaims {
    JWTClaims {
        data: ScanRequestWithID {
            id: ScanID(b"abc123xyz0".to_vec()),
            req: ScanRequest {
                email: b"a@b.com".to_vec(),
                rustscan: Some(RustscanConfig { uri: b"http://x".to_vec() }),
                zap: None,
            },
        },
        exp,
    }
}

#[test]
fn base64url_known_vectors() {
    assert_eq!(b64_encode(&b"Man".to_vec()), b"TWFu".to_vec());
    assert_eq!(b64_encode(&b"Ma".to_vec()), b"TWE".to_vec());
    assert_eq!(b64_encode(&b"M".to_vec()), b"TQ".to_vec());
    assert_eq!(b64_encode(&b"".to_vec()), b"".to_vec());
    assert_eq!(b64_encode(&vec![251u8, 255, 190]), b"-_--".to_vec());
    assert_eq!(b64_decode(&b"TWFu".to_vec()), Some(b"Man".to_vec()));
    assert_eq!(b64_decode(&b"TQ".to_vec()), Some(b"M".to_vec()));
    assert_eq!(b64_decode(&b"T".to_vec()), None);
    assert_eq!(b64_decode(&b"T(".to_vec()), None);
}

#[test]
fn token_is_accepted_by_the_reference_jwt_library() {
    let exp = chrono::Utc::now().timestamp() as u64 + 86_400;
    let token = encode_token(&sample_claims(exp), &b"secret".to_vec());
    let token_str = String::from_utf8(token).unwrap();

    let mut validation = Validation::new(Algorithm::HS256);
    validation.leeway = 0;
    let decoded = jsonwebtoken::decode::<serde_json::Value>(
        &token_str,
        &DecodingKey::from_secret(b"secret"),
        &validation,
    )
    .expect("the reference decoder must accept the token");

    assert_eq!(decoded.claims["exp"], serde_json::Value::from(exp));
    assert_eq!(decoded.claims["data"]["id"], serde_json::Value::from("abc123xyz0"));
    assert_eq!(decoded.claims["data"]["req"]["email"], serde_json::Value::from("a@b.com"));
    assert_eq!(
        decoded.claims["data"]["req"]["rustscan"]["uri"],
        serde_json::Value::from("http://x")
    );
    assert!(decoded.claims["data"]["req"]["zap"].is_null());
}

#[test]
fn reference_jwt_library_rejects_it_under_another_key() {
    let exp = chrono::Utc::now().timestamp() as u64 + 86_400;
    let token = encode_token(&sample_claims(exp), &b"secret".to_vec());
    let token_str = String::from_utf8(token).unwrap();

    let mut validation = Validation::new(Algorithm::HS256);
    validation.leeway = 0;
    let res = jsonwebtoken::decode::<serde_json::Value>(
        &token_str,
        &DecodingKey::from_secret(b"another"),
        &validation,
    );
    assert!(res.is_err());
}

#[test]
fn signature_segment_verifies_against_the_signing_input() {
    let token = encode_token(&sample_claims(10_000), &b"secret".to_vec());
    let text = String::from_utf8(token).unwrap();
    let second_dot = text.rfind('.').unwrap();
    let (message, sig) = (&text[..second_dot], &text[second_dot + 1..]);
    assert!(jsonwebtoken::crypto::verify(
        sig,
        message.as_bytes(),
        &DecodingKey::from_secret(b"secret"),
        Algorithm::HS256,
    )
    .unwrap());
}
