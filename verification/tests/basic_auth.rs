use uhttp::middleware::basic_auth::{authenticate, decode_credentials, AuthOutcome, BasicAuthOptions};
use uhttp::response::Response;

#[test]
fn decodes_credentials() {
    // base64("admin:hunter2")
    let header = "Basic YWRtaW46aHVudGVyMg==";
    assert_eq!(
        decode_credentials(header),
        Some(("admin".to_string(), "hunter2".to_string()))
    );
}

#[test]
fn allows_colons_in_password() {
    // base64("admin:pass:word")
    let header = "Basic YWRtaW46cGFzczp3b3Jk";
    assert_eq!(
        decode_credentials(header),
        Some(("admin".to_string(), "pass:word".to_string()))
    );
}

#[test]
fn rejects_non_basic_scheme() {
    assert_eq!(decode_credentials("Bearer abc123"), None);
}

#[test]
fn rejects_invalid_base64() {
    assert_eq!(decode_credentials("Basic not-base64!"), None);
}

#[test]
fn rejects_payload_without_separator() {
    // base64("nocolon")
    assert_eq!(decode_credentials("Basic bm9jb2xvbg=="), None);
}

#[test]
fn lower_case_scheme_and_surrounding_space_are_accepted() {
    assert_eq!(
        decode_credentials("basic   YWRtaW46aHVudGVyMg== "),
        Some(("admin".to_string(), "hunter2".to_string()))
    );
}

#[test]
fn empty_user_and_password_decode() {
    // base64(":")
    assert_eq!(decode_credentials("Basic Og=="), Some((String::new(), String::new())));
}

#[test]
fn invalid_utf8_payload_is_rejected() {
    // base64 of the bytes ff 3a ff
    assert_eq!(decode_credentials("Basic /zr/"), None);
}

#[test]
fn missing_padding_is_rejected() {
    assert_eq!(decode_credentials("Basic YWRtaW46aHVudGVyMg"), None);
}

fn options() -> BasicAuthOptions {
    BasicAuthOptions::new().user("admin", "hunter2").user("guest", "guest")
}

fn rejected_status(outcome: AuthOutcome) -> Option<(u16, Vec<(String, Vec<u8>)>, Vec<u8>)> {
    match outcome {
        AuthOutcome::Pass(_) => None,
        AuthOutcome::Reject(r) => {
            let hr = r.expect("a valid challenge");
            let body = match hr.body {
                uhttp::response::ResponseBody::Bytes(b) => b,
                _ => panic!("expected bytes"),
            };
            Some((hr.status, hr.headers.into_iter().map(|h| (h.name, h.value)).collect(), body))
        }
    }
}

#[test]
fn valid_credentials_pass() {
    let o = options();
    let outcome = authenticate(&o, Some(b"Basic YWRtaW46aHVudGVyMg=="), Response::new());
    assert!(matches!(outcome, AuthOutcome::Pass(_)));
}

#[test]
fn missing_header_gets_a_challenge() {
    let o = options();
    let (status, headers, body) = rejected_status(authenticate(&o, None, Response::new())).unwrap();
    assert_eq!(status, 401);
    assert_eq!(
        headers,
        vec![(
            "www-authenticate".to_string(),
            b"Basic realm=\"Restricted\", charset=\"UTF-8\"".to_vec()
        )]
    );
    assert_eq!(body, b"Unauthorized".to_vec());
}

#[test]
fn wrong_password_is_rejected() {
    let o = options();
    // base64("admin:wrong")
    let outcome = authenticate(&o, Some(b"Basic YWRtaW46d3Jvbmc="), Response::new());
    assert_eq!(rejected_status(outcome).unwrap().0, 401);
}

#[test]
fn unknown_user_is_rejected() {
    let o = options();
    // base64("root:hunter2")
    let outcome = authenticate(&o, Some(b"Basic cm9vdDpodW50ZXIy"), Response::new());
    assert_eq!(rejected_status(outcome).unwrap().0, 401);
}

#[test]
fn header_with_control_bytes_is_rejected() {
    let o = options();
    let outcome = authenticate(&o, Some(b"Basic YWRtaW46aHVudGVyMg==\x01"), Response::new());
    assert_eq!(rejected_status(outcome).unwrap().0, 401);
}

#[test]
fn adding_a_user_again_replaces_the_password() {
    let o = BasicAuthOptions::new().user("admin", "old").user("admin", "hunter2");
    let outcome = authenticate(&o, Some(b"Basic YWRtaW46aHVudGVyMg=="), Response::new());
    assert!(matches!(outcome, AuthOutcome::Pass(_)));
    // base64("admin:old")
    let outcome = authenticate(&o, Some(b"Basic YWRtaW46b2xk"), Response::new());
    assert!(matches!(outcome, AuthOutcome::Reject(_)));
}

#[test]
fn realm_is_named_in_the_challenge() {
    let o = BasicAuthOptions::new().realm("Staff");
    let (_, headers, _) = rejected_status(authenticate(&o, None, Response::new())).unwrap();
    assert_eq!(headers[0].1, b"Basic realm=\"Staff\", charset=\"UTF-8\"".to_vec());
}

#[test]
fn challenge_text() {
    assert_eq!(BasicAuthOptions::new().challenge(), "Basic realm=\"Restricted\", charset=\"UTF-8\"");
    assert_eq!(BasicAuthOptions::default().challenge(), "Basic realm=\"\", charset=\"UTF-8\"");
}

#[test]
fn accepts_checks_user_and_password() {
    let o = options();
    assert!(o.accepts(&"guest".to_string(), &"guest".to_string()));
    assert!(!o.accepts(&"guest".to_string(), &"hunter2".to_string()));
    assert!(!o.accepts(&"nobody".to_string(), &"guest".to_string()));
}

#[test]
fn realm_with_a_line_break_makes_the_answer_fail() {
    let o = BasicAuthOptions::new().realm("a\nb");
    match authenticate(&o, None, Response::new()) {
        AuthOutcome::Reject(r) => {
            assert_eq!(r.err(), Some(uhttp::response::ResponseError::InvalidHeaderValue))
        }
        AuthOutcome::Pass(_) => panic!("expected a rejection"),
    }
}
