use scan_automate::codec::{create_scan_request_token, validate_scan_request_token};
use scan_automate::config::Config;
use scan_automate::confirm::confirm;
use scan_automate::errors::{AppError, ErrorKind};
use scan_automate::model::{RustscanConfig, ScanID, ScanRequest, ScanRequestWithID};
use scan_automate::progress::{progress_request, progress_result};
use scan_automate::submit::submit;

fn test_config() -> Config {
    Config {
        port: 4000,
        smtp_host: b"smtp.example.org".to_vec(),
        smtp_username: b"user".to_vec(),
        smtp_password: b"smtp-password".to_vec(),
        email_from: b"noreply@example.org".to_vec(),
        jwt_secret: b"secret".to_vec(),
        scan_webhook_url: b"http://webhook.example.org:8082/".to_vec(),
        argo_workflow_host: b"argo.example.org:2746".to_vec(),
        argo_workflow_token: b"Bearer workflow-token".to_vec(),
    }
}

fn sample_request() -> ScanRequest {
    ScanRequest {
        email: b"a@b.com".to_vec(),
        rustscan: Some(RustscanConfig { uri: b"http://x".to_vec() }),
        zap: None,
    }
}

#[test]
fn submission_yields_id_and_confirmation_mail() {
    let config = test_config();
    let now: u64 = 1_700_000_000;
    let s = submit(sample_request(), now, &config).expect("valid request must succeed");

    assert_eq!(s.id.len(), 10);
    for &b in &s.id {
        assert!(b.is_ascii_lowercase() || b.is_ascii_digit());
    }
    assert_eq!(s.email.to, b"a@b.com".to_vec());
    assert_eq!(s.email.subject, b"Confirm Scan Request".to_vec());

    let body = String::from_utf8(s.email.body.clone()).unwrap();
    let token = String::from_utf8(s.token.clone()).unwrap();
    assert!(body.contains("/scans/confirm/"));
    assert!(body.contains(&token));
}

#[test]
fn confirmation_within_a_day_triggers_webhook_with_original_payload() {
    let config = test_config();
    let now: u64 = 1_700_000_000;
    let s = submit(sample_request(), now, &config).unwrap();

    let w = confirm(&s.token, now + 86_000, &config).expect("fresh link must confirm");
    assert_eq!(w.url, config.scan_webhook_url);

    let id = String::from_utf8(s.id.clone()).unwrap();
    let expected = format!(
        "{{\"id\":\"{}\",\"req\":{{\"email\":\"a@b.com\",\"rustscan\":{{\"uri\":\"http://x\"}},\"zap\":null}}}}",
        id
    );
    assert_eq!(String::from_utf8(w.body).unwrap(), expected);
}

#[test]
fn confirmation_after_expiry_is_rejected() {
    let config = test_config();
    let now: u64 = 1_700_000_000;
    let s = submit(sample_request(), now, &config).unwrap();

    let res = confirm(&s.token, now + 86_401, &config);
    assert_eq!(res.err().map(|e| e.kind()), Some(ErrorKind::InvalidToken));
}

#[test]
fn confirmation_with_altered_token_is_rejected() {
    let config = test_config();
    let now: u64 = 1_700_000_000;
    let s = submit(sample_request(), now, &config).unwrap();

    let mut tampered = s.token.clone();
    let last = tampered.len() - 1;
    tampered[last] = if tampered[last] == b'A' { b'B' } else { b'A' };
    let res = confirm(&tampered, now + 1, &config);
    assert_eq!(res.err().map(|e| e.kind()), Some(ErrorKind::InvalidToken));
}

#[test]
fn confirmation_carries_both_target_configs_when_present() {
    let config = test_config();
    let now: u64 = 1_700_000_000;
    let req = ScanRequest {
        email: b"a@b.com".to_vec(),
        rustscan: Some(RustscanConfig { uri: b"http://r".to_vec() }),
        zap: Some(scan_automate::model::ZapConfig { uri: b"http://z".to_vec() }),
    };
    let s = submit(req, now, &config).unwrap();
    let w = confirm(&s.token, now, &config).unwrap();
    let id = String::from_utf8(s.id).unwrap();
    let expected = format!(
        "{{\"id\":\"{}\",\"req\":{{\"email\":\"a@b.com\",\"rustscan\":{{\"uri\":\"http://r\"}},\"zap\":{{\"uri\":\"http://z\"}}}}}}",
        id
    );
    assert_eq!(String::from_utf8(w.body).unwrap(), expected);
}

#[test]
fn invalid_recipient_is_rejected_without_identity() {
    let config = test_config();
    let req = ScanRequest { email: b"not an address".to_vec(), rustscan: None, zap: None };
    let res = submit(req, 1_700_000_000, &config);
    assert_eq!(res.err().map(|e| e.kind()), Some(ErrorKind::Validation));
}

#[test]
fn progress_query_targets_the_job_workflow() {
    let config = test_config();
    let r = progress_request(&b"abc123xyz0".to_vec(), &config);
    assert_eq!(
        String::from_utf8(r.url).unwrap(),
        "https://argo.example.org:2746/api/v1/workflows/argo/scan-abc123xyz0"
    );
    assert_eq!(r.bearer, config.argo_workflow_token);
}

#[test]
fn progress_passes_success_body_through_verbatim() {
    let body = b"{\"status\":{\"phase\":\"Running\"}}".to_vec();
    let res = progress_result(200, body.clone());
    assert_eq!(res.unwrap(), body);
    assert!(progress_result(299, b"x".to_vec()).is_ok());
}

#[test]
fn progress_surfaces_downstream_failure_as_error() {
    let res = progress_result(404, b"workflow not found".to_vec());
    assert_eq!(res.err().map(|e| e.kind()), Some(ErrorKind::Downstream));
    assert!(progress_result(500, b"".to_vec()).is_err());
    assert!(progress_result(199, b"".to_vec()).is_err());
}

#[test]
fn error_response_is_opaque_with_correlation_id() {
    let err = AppError(ErrorKind::InternalServerError);
    let r1 = err.response();
    let r2 = err.response();
    assert_eq!(r1.message, "Internal Server Error");
    assert_eq!(r1.error_id.len(), 36);
    assert_ne!(r1.error_id, r2.error_id);
}

#[test]
fn clock_based_token_helpers_round_trip() {
    let key = b"secret".to_vec();
    let data = ScanRequestWithID {
        id: ScanID(b"abc123xyz0".to_vec()),
        req: sample_request(),
    };
    let token = create_scan_request_token(data, &key);
    let claims = validate_scan_request_token(&token, &key).expect("fresh token must validate");
    assert_eq!(claims.data.id.0, b"abc123xyz0".to_vec());
    assert_eq!(claims.data.req.email, b"a@b.com".to_vec());
}
