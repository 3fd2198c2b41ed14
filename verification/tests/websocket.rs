use uhttp::response::{Response, ResponseBody};
use uhttp::websocket::{upgrade, UpgradeError};

#[test]
fn a_valid_handshake_switches_protocols() {
    // The example key and accept value of RFC 6455, section 1.3.
    let r = upgrade(Some(b"13"), Some(b"dGhlIHNhbXBsZSBub25jZQ=="), true, Response::new())
        .unwrap()
        .unwrap();
    assert_eq!(r.status, 101);
    let hs: Vec<(String, Vec<u8>)> = r.headers.iter().map(|h| (h.name.clone(), h.value.clone())).collect();
    assert_eq!(
        hs,
        vec![
            ("connection".to_string(), b"Upgrade".to_vec()),
            ("upgrade".to_string(), b"websocket".to_vec()),
            ("sec-websocket-accept".to_string(), b"s3pPLMBiTxaQ9kYGzzhZRbK+xOo=".to_vec()),
        ]
    );
    assert!(matches!(r.body, ResponseBody::Bytes(ref b) if b.is_empty()));
}

#[test]
fn the_version_is_checked_first() {
    assert_eq!(upgrade(None, None, false, Response::new()).err(), Some(UpgradeError::UnsupportedVersion));
    assert_eq!(upgrade(Some(b"8"), Some(b"k"), true, Response::new()).err(), Some(UpgradeError::UnsupportedVersion));
    assert_eq!(upgrade(Some(b"13 "), Some(b"k"), true, Response::new()).err(), Some(UpgradeError::UnsupportedVersion));
}

#[test]
fn the_key_is_checked_before_the_connection() {
    assert_eq!(upgrade(Some(b"13"), None, false, Response::new()).err(), Some(UpgradeError::MissingKey));
    assert_eq!(upgrade(Some(b"13"), Some(b"k"), false, Response::new()).err(), Some(UpgradeError::CannotUpgrade));
}
