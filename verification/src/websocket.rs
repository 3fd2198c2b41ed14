//! The server side of the websocket opening handshake (RFC 6455).

use vstd::prelude::*;
use vstd::string::StringSliceAdditionalSpecFns;
use vstd::utf8::encode_utf8;

use crate::response::{
    body_bytes, finished, headers_view, lemma_plain_header_name, valid_header_value, with_header, with_status, HandlerResponse,
    Response, ResponseBody, ResponseError, ResponseState,
};

verus! {

/// The `Sec-WebSocket-Accept` value `tungstenite` derives from a client key
/// (the Base64 SHA-1 digest of the key followed by the RFC 6455 GUID).
pub uninterp spec fn websocket_accept_key(key: Seq<u8>) -> Seq<char>;

/// The characters of Base64 text.
pub open spec fn is_base64_char(c: char) -> bool {
    ('A' <= c <= 'Z') || ('a' <= c <= 'z') || ('0' <= c <= '9') || c == '+' || c == '/' || c == '='
}

/// `tungstenite::handshake::derive_accept_key`: SHA-1 of the key and the
/// RFC 6455 GUID, Base64-encoded, so the text is made of Base64 characters.
#[verifier::external_body]
fn derive_accept_key(key: &[u8]) -> (r: String)
    ensures
        r@ == websocket_accept_key(key@),
        forall|i: int| 0 <= i < r@.len() ==> is_base64_char(#[trigger] r@[i]),
{
    tokio_tungstenite::tungstenite::handshake::derive_accept_key(key)
}

/// Why a request cannot be upgraded to a websocket.
#[derive(Clone, Copy, Debug, PartialEq, Eq, Structural)]
pub enum UpgradeError {
    /// `Sec-WebSocket-Version` is missing or is not `13`.
    UnsupportedVersion,
    /// `Sec-WebSocket-Key` is missing.
    MissingKey,
    /// The connection offers no way to take it over.
    CannotUpgrade,
}

/// The state of the `101 Switching Protocols` answer for a client key.
pub open spec fn switching_protocols(st: Result<ResponseState, ResponseError>, key: Seq<u8>) -> Result<
    ResponseState,
    ResponseError,
> {
    with_header(
        with_header(
            with_header(with_status(st, 101), "connection".spec_bytes(), "Upgrade".spec_bytes()),
            "upgrade".spec_bytes(),
            "websocket".spec_bytes(),
        ),
        "sec-websocket-accept".spec_bytes(),
        vstd::utf8::encode_utf8(websocket_accept_key(key)),
    )
}

/// Checks the handshake request: `Sec-WebSocket-Version` (`version`) must
/// be `13`, `Sec-WebSocket-Key` (`key`) must be present, and the connection
/// must be upgradable, checked in that order. When all hold, the caller
/// takes the connection over, and the answer is `101 Switching Protocols`
/// with `Connection: Upgrade`, `Upgrade: websocket` and the accept key.
pub fn upgrade(version: Option<&[u8]>, key: Option<&[u8]>, can_upgrade: bool, res: Response) -> (r: Result<
    Result<HandlerResponse, ResponseError>,
    UpgradeError,
>)
    ensures
        !(version matches Some(v) && v@ == seq![49u8, 51u8]) ==> r == Err::<Result<HandlerResponse, ResponseError>, UpgradeError>(UpgradeError::UnsupportedVersion),
        (version matches Some(v) && v@ == seq![49u8, 51u8]) && key is None ==> r == Err::<Result<HandlerResponse, ResponseError>, UpgradeError>(UpgradeError::MissingKey),
        (version matches Some(v) && v@ == seq![49u8, 51u8]) && key is Some && !can_upgrade ==> r == Err::<Result<HandlerResponse, ResponseError>, UpgradeError>(UpgradeError::CannotUpgrade),
        (version matches Some(v) && v@ == seq![49u8, 51u8]) && can_upgrade ==> match key {
            None => true,
            Some(k) => r matches Ok(x) && finished(x, switching_protocols(res@, k@))
                && (x matches Ok(hr) ==> body_bytes(hr.body) == Some(Seq::<u8>::empty())),
        },
        // The accept key is Base64 text, so a response without error is
        // always answered with `101` and the three handshake headers.
        (version matches Some(v) && v@ == seq![49u8, 51u8]) && can_upgrade ==> match (key, res@) {
            (Some(k), Ok(s)) => r matches Ok(Ok(hr)) && hr.status == 101 && hr.version == s.version
                && headers_view(hr.headers@) == s.headers + seq![
                    ("connection"@, "Upgrade".spec_bytes()),
                    ("upgrade"@, "websocket".spec_bytes()),
                    ("sec-websocket-accept"@, encode_utf8(websocket_accept_key(k@))),
                ],
            _ => true,
        },
{
    let version_ok = match version {
        Some(v) => v.len() == 2 && v[0] == 49 && v[1] == 51,
        None => false,
    };
    proof {
        if let Some(v) = version {
            if v@.len() == 2 && v@[0] == 49 && v@[1] == 51 {
                assert(v@ =~= seq![49u8, 51u8]);
            }
        }
    }
    if !version_ok {
        return Err(UpgradeError::UnsupportedVersion);
    }
    let key = match key {
        Some(k) => k,
        None => return Err(UpgradeError::MissingKey),
    };
    let accept = derive_accept_key(key);
    proof {
        if let Ok(s) = res@ {
            law_switching_protocols(s, key@);
        }
    }
    if !can_upgrade {
        return Err(UpgradeError::CannotUpgrade);
    }
    Ok(
        res.status(101).header("connection", "Upgrade").header("upgrade", "websocket").header(
            "sec-websocket-accept",
            accept.as_str(),
        ).body(ResponseBody::empty()),
    )
}

/// For a response without error, an accepted handshake is answered with
/// `101 Switching Protocols` and exactly the three handshake headers
/// appended, the last carrying the accept key of the client's key.
pub proof fn law_switching_protocols(s: ResponseState, key: Seq<u8>)
    requires
        forall|i: int| 0 <= i < websocket_accept_key(key).len() ==> is_base64_char(#[trigger] websocket_accept_key(key)[i]),
    ensures
        switching_protocols(Ok(s), key) == Ok::<ResponseState, ResponseError>(
            ResponseState {
                status: 101,
                headers: s.headers + seq![
                    ("connection"@, "Upgrade".spec_bytes()),
                    ("upgrade"@, "websocket".spec_bytes()),
                    ("sec-websocket-accept"@, encode_utf8(websocket_accept_key(key))),
                ],
                ..s
            },
        ),
{
    reveal_strlit("connection");
    reveal_strlit("upgrade");
    reveal_strlit("sec-websocket-accept");
    reveal_strlit("Upgrade");
    reveal_strlit("websocket");
    lemma_plain_header_name("connection"@);
    lemma_plain_header_name("upgrade"@);
    lemma_plain_header_name("sec-websocket-accept"@);
    crate::response::lemma_visible_header_value("Upgrade"@);
    crate::response::lemma_visible_header_value("websocket"@);
    crate::response::lemma_visible_header_value(websocket_accept_key(key));
    let got = switching_protocols(Ok(s), key)->Ok_0.headers;
    assert(got =~= s.headers + seq![
        ("connection"@, "Upgrade".spec_bytes()),
        ("upgrade"@, "websocket".spec_bytes()),
        ("sec-websocket-accept"@, encode_utf8(websocket_accept_key(key))),
    ]);
}

} // verus!
