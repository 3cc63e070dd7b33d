use base64::Engine as _;
use cipher::{BlockModeEncrypt, KeyInit};
use jmcore::mirror::MirrorPool;
use jmcore::router::{
    api_error, cookie_header, should_retry_body, should_retry_status, token_param,
    AttemptOutcome, FailoverSession, StepVerdict,
};
use jmcore::CoreError;

fn make_success_body(plain_json: &str, ts: i64, secret: &str) -> Vec<u8> {
    let key = format!("{:x}", md5::compute(format!("{ts}{secret}").as_bytes())).into_bytes();
    let padded_len = (plain_json.len() / 16 + 1) * 16;
    let mut buf = vec![0u8; padded_len];
    ecb::Encryptor::<aes::Aes256>::new_from_slice(&key)
        .unwrap()
        .encrypt_padded_b2b::<cipher::block_padding::Pkcs7>(plain_json.as_bytes(), &mut buf)
        .unwrap();
    let data = base64::engine::general_purpose::STANDARD.encode(buf);
    format!("{{\"code\":200,\"errorMsg\":\"\",\"message\":\"\",\"data\":\"{data}\"}}").into_bytes()
}

#[test]
fn retry_classification() {
    assert!(should_retry_status(403));
    assert!(should_retry_status(502));
    assert!(should_retry_status(520));
    assert!(should_retry_status(524));
    assert!(!should_retry_status(404));
    assert!(!should_retry_status(200));
    assert!(should_retry_body("<html>404 Not Found</html>"));
    assert!(should_retry_body("Default APACHE Server page"));
    assert!(should_retry_body("checking your browser - Cloudflare"));
    assert!(!should_retry_body("{\"code\":200}"));
    assert!(CoreError::Transport { message: "t".to_string() }.is_retryable());
    assert!(CoreError::TransientServer { message: "t".to_string() }.is_retryable());
    assert!(!CoreError::Cancelled.is_retryable());
    assert!(!CoreError::Decode { message: "d".to_string() }.is_retryable());
}

#[test]
fn api_error_layout() {
    assert_eq!(api_error(521, -7, "oops"), "HTTP_STATUS=521;API_CODE=-7;oops");
}

#[test]
fn cookie_header_joins_pairs() {
    let cookies = vec![
        ("AVS".to_string(), "abc".to_string()),
        ("uid".to_string(), "42".to_string()),
    ];
    assert_eq!(cookie_header(&cookies), "AVS=abc; uid=42");
    assert_eq!(cookie_header(&Vec::new()), "");
}

#[test]
fn token_param_layout() {
    assert_eq!(token_param(1700000000, "1.7.5"), "1700000000,1.7.5");
}

#[test]
fn failover_pins_the_mirror_that_answered() {
    let ts = 1700000001i64;
    let secret = "185Hcomic3PAPP7R";
    let mut pool = MirrorPool::new(vec![
        "https://m1.example".to_string(),
        "https://m2.example".to_string(),
        "https://m3.example".to_string(),
    ]);
    let mut session = FailoverSession::new(pool.api_base_candidates());

    // Mirror 1 answers HTTP 502: transient, move on.
    let c1 = session.current().unwrap();
    assert_eq!(c1.0, 0);
    let v1 = session.step(
        &mut pool,
        AttemptOutcome::GotResponse { status: 502, body: b"bad gateway".to_vec() },
        ts,
        secret,
    );
    assert!(matches!(v1, StepVerdict::Continue));

    // Mirror 2 answers a wrong-domain fingerprint: transient, move on.
    let c2 = session.current().unwrap();
    assert_eq!(c2.0, 1);
    let v2 = session.step(
        &mut pool,
        AttemptOutcome::GotResponse {
            status: 200,
            body: b"<html><h1>404 Not Found</h1></html>".to_vec(),
        },
        ts,
        secret,
    );
    assert!(matches!(v2, StepVerdict::Continue));

    // Mirror 3 answers a valid envelope: the payload comes back and the
    // cursor is pinned to mirror 3 for the next request.
    let c3 = session.current().unwrap();
    assert_eq!(c3.0, 2);
    let v3 = session.step(
        &mut pool,
        AttemptOutcome::GotResponse {
            status: 200,
            body: make_success_body("{\"list\":[]}", ts, secret),
        },
        ts,
        secret,
    );
    match v3 {
        StepVerdict::Done { result } => assert_eq!(result.unwrap(), "{\"list\":[]}"),
        StepVerdict::Continue => panic!("expected a final payload"),
    }
    assert_eq!(pool.current_api_base(), Some("https://m3.example".to_string()));
    let next = pool.api_base_candidates();
    assert_eq!(next[0].0, 2);
}

#[test]
fn application_rejection_is_terminal() {
    let ts = 7i64;
    let secret = "185Hcomic3PAPP7R";
    let mut pool = MirrorPool::new(vec![
        "https://m1.example".to_string(),
        "https://m2.example".to_string(),
    ]);
    let mut session = FailoverSession::new(pool.api_base_candidates());
    let body = b"{\"code\":401,\"errorMsg\":\"login required\",\"message\":\"\",\"data\":\"x\"}"
        .to_vec();
    let v = session.step(
        &mut pool,
        AttemptOutcome::GotResponse { status: 200, body },
        ts,
        secret,
    );
    match v {
        StepVerdict::Done { result } => match result {
            Err(CoreError::Application { http_status, api_code, message }) => {
                assert_eq!(http_status, 200);
                assert_eq!(api_code, 401);
                assert_eq!(message, "login required");
            },
            other => panic!("expected an application rejection, got {other:?}"),
        },
        StepVerdict::Continue => panic!("an application rejection must not retry"),
    }
    // The cursor stayed where it was.
    assert_eq!(pool.current_api_base(), Some("https://m1.example".to_string()));
}

#[test]
fn transport_failure_without_candidates_left_surfaces() {
    let mut pool = MirrorPool::new(vec!["https://m1.example".to_string()]);
    let mut session = FailoverSession::new(pool.api_base_candidates());
    let v = session.step(
        &mut pool,
        AttemptOutcome::TransportFailure {
            retryable: true,
            message: "connection refused".to_string(),
        },
        0,
        "s",
    );
    match v {
        StepVerdict::Done { result } => match result {
            Err(CoreError::Transport { message }) => assert_eq!(message, "connection refused"),
            other => panic!("expected a transport error, got {other:?}"),
        },
        StepVerdict::Continue => panic!("no candidate remains to continue with"),
    }
}
