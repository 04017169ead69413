use scan_automate::codec::{decode_token, encode_token};
use scan_automate::identity::generate;
use scan_automate::model::{JWTClaims, RustscanConfig, ScanID, ScanRequest, ScanRequestWithID, ZapConfig};

fn sample_claims(exp: u64) -> JWTClaims {
    JWTClaims {
        data: ScanRequestWithID {
            id: ScanID(b"abc123xyz0".to_vec()),
            req: ScanRequest {
                email: b"a@b.com".to_vec(),
                rustscan: Some(RustscanConfig { uri: b"http://x".to_vec() }),
                zap: None,
            },
        },
        exp,
    }
}

fn key() -> Vec<u8> {
    b"secret".to_vec()
}

#[test]
fn round_trip_before_expiry() {
    let claims = sample_claims(10_000);
    let token = encode_token(&claims, &key());
    let decoded = decode_token(&token, &key(), 9_999).expect("fresh token must decode");
    assert_eq!(decoded.exp, 10_000);
    assert_eq!(decoded.data.id.0, b"abc123xyz0".to_vec());
    assert_eq!(decoded.data.req.email, b"a@b.com".to_vec());
    assert_eq!(decoded.data.req.rustscan.unwrap().uri, b"http://x".to_vec());
    assert!(decoded.data.req.zap.is_none());
}

#[test]
fn round_trip_at_exact_expiry_instant() {
    let claims = sample_claims(10_000);
    let token = encode_token(&claims, &key());
    assert!(decode_token(&token, &key(), 10_000).is_ok());
}

#[test]
fn round_trip_with_escaped_characters() {
    let mut email = b"weird\"name\\x@b.com".to_vec();
    email.push(9); // a tab, forcing a \u0009 escape
    let claims = JWTClaims {
        data: ScanRequestWithID {
            id: ScanID(b"0000000000".to_vec()),
            req: ScanRequest {
                email: email.clone(),
                rustscan: None,
                zap: Some(ZapConfig { uri: b"http://z/?q=\"\\".to_vec() }),
            },
        },
        exp: 77,
    };
    let token = encode_token(&claims, &key());
    let decoded = decode_token(&token, &key(), 0).expect("escapes must round-trip");
    assert_eq!(decoded.data.req.email, email);
    assert_eq!(decoded.data.req.zap.unwrap().uri, b"http://z/?q=\"\\".to_vec());
    assert!(decoded.data.req.rustscan.is_none());
}

#[test]
fn expired_token_rejected() {
    let claims = sample_claims(10_000);
    let token = encode_token(&claims, &key());
    assert!(decode_token(&token, &key(), 10_001).is_err());
    assert!(decode_token(&token, &key(), u64::MAX).is_err());
}

#[test]
fn signature_bit_flips_rejected() {
    let claims = sample_claims(10_000);
    let token = encode_token(&claims, &key());
    let sig_start = {
        let first = token.iter().position(|&b| b == b'.').unwrap();
        let second = first + 1 + token[first + 1..].iter().position(|&b| b == b'.').unwrap();
        second + 1
    };
    for pos in sig_start..token.len() {
        for bit in 0..8 {
            let mut tampered = token.clone();
            tampered[pos] ^= 1 << bit;
            assert!(
                decode_token(&tampered, &key(), 0).is_err(),
                "flip of bit {} at {} accepted",
                bit,
                pos
            );
        }
    }
}

#[test]
fn payload_bit_flips_rejected() {
    let claims = sample_claims(10_000);
    let token = encode_token(&claims, &key());
    let first = token.iter().position(|&b| b == b'.').unwrap();
    let second = first + 1 + token[first + 1..].iter().position(|&b| b == b'.').unwrap();
    for pos in first + 1..second {
        for bit in 0..8 {
            let mut tampered = token.clone();
            tampered[pos] ^= 1 << bit;
            assert!(
                decode_token(&tampered, &key(), 0).is_err(),
                "flip of bit {} at {} accepted",
                bit,
                pos
            );
        }
    }
}

#[test]
fn wrong_key_rejected() {
    let claims = sample_claims(10_000);
    let token = encode_token(&claims, &key());
    assert!(decode_token(&token, &b"other-secret".to_vec(), 0).is_err());
}

#[test]
fn malformed_tokens_rejected() {
    for junk in [&b""[..], b".", b"..", b"a.b.c", b"onlyonesegment", b"a.b", b"...."] {
        assert!(decode_token(&junk.to_vec(), &key(), 0).is_err());
    }
}

#[test]
fn token_has_three_base64url_segments() {
    let claims = sample_claims(10_000);
    let token = encode_token(&claims, &key());
    let dots = token.iter().filter(|&&b| b == b'.').count();
    assert_eq!(dots, 2);
    for &b in &token {
        assert!(
            b == b'.' || b.is_ascii_alphanumeric() || b == b'-' || b == b'_',
            "byte {} outside the URL-safe alphabet",
            b
        );
    }
}

#[test]
fn identity_is_ten_lowercase_alphanumerics() {
    for _ in 0..50 {
        let id = generate();
        assert_eq!(id.len(), 10);
        for &b in &id {
            assert!(b.is_ascii_lowercase() || b.is_ascii_digit());
        }
    }
}

#[test]
fn identities_are_distinct_in_practice() {
    let a = generate();
    let b = generate();
    let c = generate();
    assert!(a != b || b != c || a != c);
}
