use uhttp::middleware::cors::{cors, CorsOutcome};
use uhttp::middleware::logger::logged_status;
use uhttp::response::{HandlerResponse, Response, ResponseBody};
use uhttp::router::Method;

fn headers(r: &HandlerResponse) -> Vec<(String, Vec<u8>)> {
    r.headers.iter().map(|h| (h.name.clone(), h.value.clone())).collect()
}

fn cors_headers() -> Vec<(String, Vec<u8>)> {
    vec![
        ("access-control-allow-origin".to_string(), b"*".to_vec()),
        ("access-control-allow-methods".to_string(), b"*".to_vec()),
        ("access-control-allow-headers".to_string(), b"*".to_vec()),
        ("access-control-expose-headers".to_string(), b"*".to_vec()),
    ]
}

#[test]
fn cors_preflight_is_answered_with_204() {
    match cors(&Method::Options, Response::new()) {
        CorsOutcome::Preflight(r) => {
            let r = r.unwrap();
            assert_eq!(r.status, 204);
            let mut expected = cors_headers();
            expected.push(("access-control-max-age".to_string(), b"86400".to_vec()));
            assert_eq!(headers(&r), expected);
            assert!(matches!(r.body, ResponseBody::Bytes(ref b) if b.is_empty()));
        }
        CorsOutcome::Continue(_) => panic!("preflight must not reach the handler"),
    }
}

#[test]
fn cors_adds_headers_to_other_requests() {
    match cors(&Method::Get, Response::new().header("x-first", "1")) {
        CorsOutcome::Continue(res) => {
            let r = res.body(ResponseBody::empty()).unwrap();
            let mut expected = vec![("x-first".to_string(), b"1".to_vec())];
            expected.extend(cors_headers());
            assert_eq!(headers(&r), expected);
            assert_eq!(r.status, 200);
        }
        CorsOutcome::Preflight(_) => panic!("GET is not a preflight"),
    }
}

#[test]
fn logged_status_is_500_for_errors() {
    let ok: Result<HandlerResponse, ()> = Ok(Response::new().status(418).body(ResponseBody::empty()).unwrap());
    assert_eq!(logged_status(&ok), 418);
    let err: Result<HandlerResponse, ()> = Err(());
    assert_eq!(logged_status(&err), 500);
}
