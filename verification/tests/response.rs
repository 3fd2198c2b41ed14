use uhttp::response::{header_text, HandlerResponse, Response, ResponseBody, ResponseError, Version};
use uhttp::server::handle_error;

fn body(r: &HandlerResponse) -> Vec<u8> {
    match &r.body {
        ResponseBody::Bytes(b) => b.clone(),
        ResponseBody::BoxedBody(_) => panic!("expected bytes"),
    }
}

#[test]
fn a_fresh_response_is_200_http11_without_headers() {
    let r = Response::new().body(ResponseBody::empty()).unwrap();
    assert_eq!(r.status, 200);
    assert_eq!(r.version, Version::Http11);
    assert!(r.headers.is_empty());
}

#[test]
fn headers_are_normalized_and_kept_in_order() {
    let r = Response::new()
        .header("Content-Type", "text/html")
        .header("X-Custom", "a")
        .header("x-custom", "b")
        .status(201)
        .version(Version::Http2)
        .body(ResponseBody::text("<body>hello world</body>"))
        .unwrap();
    let hs: Vec<(String, Vec<u8>)> = r.headers.iter().map(|h| (h.name.clone(), h.value.clone())).collect();
    assert_eq!(
        hs,
        vec![
            ("content-type".to_string(), b"text/html".to_vec()),
            ("x-custom".to_string(), b"a".to_vec()),
            ("x-custom".to_string(), b"b".to_vec()),
        ]
    );
    assert_eq!(r.status, 201);
    assert_eq!(r.version, Version::Http2);
    assert_eq!(body(&r), b"<body>hello world</body>".to_vec());
}

#[test]
fn invalid_status_codes_are_errors() {
    assert_eq!(Response::new().status(99).body(ResponseBody::empty()).err(), Some(ResponseError::InvalidStatusCode));
    assert_eq!(Response::new().status(1000).body(ResponseBody::empty()).err(), Some(ResponseError::InvalidStatusCode));
    assert!(Response::new().status(100).body(ResponseBody::empty()).is_ok());
    assert!(Response::new().status(999).body(ResponseBody::empty()).is_ok());
}

#[test]
fn invalid_header_names_and_values_are_errors() {
    assert_eq!(Response::new().header("", "x").body(ResponseBody::empty()).err(), Some(ResponseError::InvalidHeaderName));
    assert_eq!(Response::new().header("a b", "x").body(ResponseBody::empty()).err(), Some(ResponseError::InvalidHeaderName));
    assert_eq!(Response::new().header("a:b", "x").body(ResponseBody::empty()).err(), Some(ResponseError::InvalidHeaderName));
    assert_eq!(Response::new().header("a", "x\ny").body(ResponseBody::empty()).err(), Some(ResponseError::InvalidHeaderValue));
    assert_eq!(Response::new().header("a", "x\u{7f}").body(ResponseBody::empty()).err(), Some(ResponseError::InvalidHeaderValue));
    assert!(Response::new().header("a", "tab\tand ünïcode").body(ResponseBody::empty()).is_ok());
    let long = "a".repeat(65535);
    assert!(Response::new().header(&long, "x").body(ResponseBody::empty()).is_ok());
    let too_long = "a".repeat(65536);
    assert_eq!(Response::new().header(&too_long, "x").body(ResponseBody::empty()).err(), Some(ResponseError::InvalidHeaderName));
}

#[test]
fn the_first_error_sticks() {
    let r = Response::new().status(42).header("bad name", "x").status(200).header("ok", "ok");
    assert!(r.headers_ref().is_none());
    assert!(r.extensions_ref().is_none());
    assert_eq!(r.body(ResponseBody::empty()).err(), Some(ResponseError::InvalidStatusCode));
    let r = Response::new().header("bad name", "x").status(42);
    assert_eq!(r.body(ResponseBody::empty()).err(), Some(ResponseError::InvalidHeaderName));
}

#[test]
fn extensions_travel_with_the_response() {
    #[derive(Clone, Debug, PartialEq)]
    struct Tag(u32);
    let r = Response::new().extension(Tag(7)).header("a", "b");
    assert_eq!(r.extensions_ref().unwrap().get::<Tag>(), Some(&Tag(7)));
    assert_eq!(r.headers_ref().unwrap().len(), 1);
    let hr = r.body(ResponseBody::from(vec![1u8, 2])).unwrap();
    assert_eq!(hr.extensions.get::<Tag>(), Some(&Tag(7)));
    assert_eq!(body(&hr), vec![1, 2]);
}

#[test]
fn one_extension_is_kept_per_type() {
    #[derive(Clone, Debug, PartialEq)]
    struct Tag(u32);
    assert_eq!(Response::new().extensions_ref().unwrap().len(), 0);
    let r = Response::new().extension(Tag(1));
    assert_eq!(r.extensions_ref().unwrap().len(), 1);
    let r = r.extension(Tag(2));
    assert_eq!(r.extensions_ref().unwrap().len(), 1);
    assert_eq!(r.extensions_ref().unwrap().get::<Tag>(), Some(&Tag(2)));
    let mut r = r.extension(5u8);
    assert_eq!(r.extensions_ref().unwrap().len(), 2);
    r.extensions_mut().unwrap().insert(String::from("x"));
    let hr = r.body(ResponseBody::empty()).unwrap();
    assert_eq!(hr.extensions.len(), 3);
    assert_eq!(hr.extensions.get::<u8>(), Some(&5));
    assert!(handle_error("x").extensions.is_empty());
}

#[test]
fn handler_errors_become_500() {
    let r = handle_error("boom");
    assert_eq!(r.status, 500);
    assert_eq!(body(&r), b"boom".to_vec());
}

#[test]
fn header_values_read_as_text_only_when_visible_ascii() {
    assert_eq!(header_text(b"gzip, br"), Some("gzip, br".to_string()));
    assert_eq!(header_text(b"a\tb"), Some("a\tb".to_string()));
    assert_eq!(header_text(b"\xc3\xa9"), None);
    assert_eq!(header_text(b"a\x7f"), None);
}

#[test]
fn headers_can_be_changed_in_place() {
    let mut r = Response::new().header("a", "1");
    r.headers_mut().unwrap().push(uhttp::response::Header { name: "b".to_string(), value: b"2".to_vec() });
    r.headers_mut().unwrap().remove(0);
    let hr = r.body(ResponseBody::empty()).unwrap();
    assert_eq!(hr.headers.len(), 1);
    assert_eq!(hr.headers[0].name, "b");
    let mut bad = Response::new().status(7);
    assert!(bad.headers_mut().is_none());
}

#[test]
fn bodies_from_text_and_bytes() {
    let from_str = ResponseBody::from("héllo");
    let from_string = ResponseBody::from(String::from("héllo"));
    let from_slice = ResponseBody::from(&b"h\xc3\xa9llo"[..]);
    for b in [from_str, from_string, from_slice] {
        match b {
            ResponseBody::Bytes(v) => assert_eq!(v, "héllo".as_bytes().to_vec()),
            ResponseBody::BoxedBody(_) => panic!("expected bytes"),
        }
    }
}
