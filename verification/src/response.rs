//! Building responses: a status, a protocol version and an ordered list of
//! headers, recorded until the body is attached.
//!
//! As with `http`'s response builder, the first invalid status, header name
//! or header value puts the builder into an error state; every later call
//! leaves it there, and attaching the body reports that first error.

use vstd::prelude::*;
use vstd::string::StringSliceAdditionalSpecFns;
use vstd::utf8::encode_utf8;

verus! {

/// The bytes of a response body (`bytes::Bytes`, re-exported by hyper).
#[verifier::external_type_specification]
#[verifier::external_body]
pub struct ExHyperBytes(hyper::body::Bytes);

/// A type-erased streaming body.
#[verifier::external_type_specification]
#[verifier::external_body]
#[verifier::reject_recursive_types(D)]
#[verifier::reject_recursive_types(E)]
pub struct ExBoxBody<D, E>(http_body_util::combinators::BoxBody<D, E>);

/// A response's extensions: values kept alongside it, one per type.
#[verifier::external_type_specification]
#[verifier::external_body]
pub struct ExExtensions(http::Extensions);

/// How many values `e` holds, one per type (`http::Extensions::len`).
pub uninterp spec fn extensions_len(e: http::Extensions) -> nat;

/// `http::Extensions::new`: no values.
#[verifier::external_body]
pub(crate) fn extensions_new() -> (r: http::Extensions)
    ensures
        extensions_len(r) == 0,
{
    http::Extensions::new()
}

/// `http::Extensions::insert`: keeps `value` under its type and hands back
/// the value of that type held before, if any; the count of values grows by
/// one exactly when there was none, and is at least one afterwards. Which
/// types are held, and the values themselves, are not stated.
#[verifier::external_body]
fn extensions_insert<T: Clone + Send + Sync + 'static>(e: &mut http::Extensions, value: T) -> (r: Option<T>)
    ensures
        extensions_len(*final(e)) == extensions_len(*old(e)) + if r is None { 1nat } else { 0nat },
        extensions_len(*final(e)) >= 1,
{
    e.insert(value)
}

/// The HTTP protocol versions a response can be sent with.
#[derive(Clone, Copy, Debug, PartialEq, Eq, Structural)]
pub enum Version {
    Http09,
    Http10,
    Http11,
    Http2,
    Http3,
}

/// Why a response could not be built.
#[derive(Clone, Copy, Debug, PartialEq, Eq, Structural)]
pub enum ResponseError {
    /// A status outside `100..=999`.
    InvalidStatusCode,
    /// A header name that is empty, too long or holds a non-token byte.
    InvalidHeaderName,
    /// A header value holding a control byte other than tab.
    InvalidHeaderValue,
}

/// One header line; the name is stored in its normalized (lower-case) form.
#[derive(Debug)]
pub struct Header {
    pub name: String,
    pub value: Vec<u8>,
}

/// The body of a response: either all of its bytes, or a stream.
pub enum ResponseBody {
    Bytes(Vec<u8>),
    BoxedBody(http_body_util::combinators::BoxBody<hyper::body::Bytes, std::convert::Infallible>),
}

/// A finished response, ready to be handed to the connection.
pub struct HandlerResponse {
    pub status: u16,
    pub version: Version,
    pub headers: Vec<Header>,
    pub extensions: http::Extensions,
    pub body: ResponseBody,
}

/// The parts recorded so far by a [`Response`] that has seen no error.
struct Head {
    status: u16,
    version: Version,
    headers: Vec<Header>,
    extensions: http::Extensions,
}

/// A response under construction.
pub struct Response {
    parts: Result<Head, ResponseError>,
}

/// A header as a pair of its name's characters and its value's bytes.
pub open spec fn header_view(h: Header) -> (Seq<char>, Seq<u8>) {
    (h.name@, h.value@)
}

pub open spec fn headers_view(hs: Seq<Header>) -> Seq<(Seq<char>, Seq<u8>)> {
    hs.map_values(|h: Header| header_view(h))
}

/// The abstract state of a response under construction: the first error,
/// or the status, version, headers in the order they were added, and how
/// many extension values (one per type) are kept.
pub ghost struct ResponseState {
    pub status: u16,
    pub version: Version,
    pub headers: Seq<(Seq<char>, Seq<u8>)>,
    pub extensions: nat,
}

impl View for Response {
    type V = Result<ResponseState, ResponseError>;

    closed spec fn view(&self) -> Result<ResponseState, ResponseError> {
        match self.parts {
            Ok(head) => Ok(
                ResponseState {
                    status: head.status,
                    version: head.version,
                    headers: headers_view(head.headers@),
                    extensions: extensions_len(head.extensions),
                },
            ),
            Err(e) => Err(e),
        }
    }
}

/// The status codes `http` accepts.
pub open spec fn valid_status(code: u16) -> bool {
    100 <= code <= 999
}

/// The token characters of RFC 9110 that may appear in a header name.
pub open spec fn is_token_byte(b: u8) -> bool {
    ||| (48 <= b <= 57)  // '0'..='9'
    ||| (97 <= b <= 122)  // 'a'..='z'
    ||| (65 <= b <= 90)  // 'A'..='Z'
    // ! # $ % & '
    ||| b == 33 || b == 35 || b == 36 || b == 37 || b == 38 || b == 39
    // * + - . ^ _
    ||| b == 42 || b == 43 || b == 45 || b == 46 || b == 94 || b == 95
    // ` | ~
    ||| b == 96 || b == 124 || b == 126
}

/// ASCII lower-casing of one byte.
pub open spec fn lower_byte(b: u8) -> u8 {
    if 65 <= b <= 90 {
        (b + 32) as u8
    } else {
        b
    }
}

/// A header name `http` accepts: between 1 and 65535 token bytes.
pub open spec fn valid_header_name(bytes: Seq<u8>) -> bool {
    &&& 0 < bytes.len() <= 65535
    &&& forall|i: int| 0 <= i < bytes.len() ==> is_token_byte(#[trigger] bytes[i])
}

/// The normalized form of a valid header name: its bytes lower-cased.
pub open spec fn normalized_header_name(bytes: Seq<u8>) -> Seq<char> {
    Seq::new(bytes.len(), |i: int| lower_byte(bytes[i]) as char)
}

/// A byte `http` accepts in a header value.
pub open spec fn is_header_value_byte(b: u8) -> bool {
    (b >= 32 && b != 127) || b == 9
}

pub open spec fn valid_header_value(bytes: Seq<u8>) -> bool {
    forall|i: int| 0 <= i < bytes.len() ==> is_header_value_byte(#[trigger] bytes[i])
}


/// The state after setting the status to `code`.
pub open spec fn with_status(st: Result<ResponseState, ResponseError>, code: u16) -> Result<ResponseState, ResponseError> {
    match st {
        Err(e) => Err(e),
        Ok(s) => if valid_status(code) {
            Ok(ResponseState { status: code, ..s })
        } else {
            Err(ResponseError::InvalidStatusCode)
        },
    }
}

/// The state after setting the protocol version.
pub open spec fn with_version(st: Result<ResponseState, ResponseError>, version: Version) -> Result<ResponseState, ResponseError> {
    match st {
        Err(e) => Err(e),
        Ok(s) => Ok(ResponseState { version: version, ..s }),
    }
}

/// The state after adding the header whose name and value have the bytes
/// `name` and `value`: the name is checked first, then the value.
pub open spec fn with_header(st: Result<ResponseState, ResponseError>, name: Seq<u8>, value: Seq<u8>) -> Result<ResponseState, ResponseError> {
    match st {
        Err(e) => Err(e),
        Ok(s) => if !valid_header_name(name) {
            Err(ResponseError::InvalidHeaderName)
        } else if !valid_header_value(value) {
            Err(ResponseError::InvalidHeaderValue)
        } else {
            Ok(ResponseState { headers: s.headers.push((normalized_header_name(name), value)), ..s })
        },
    }
}

/// `r` is what attaching a body to a response in state `st` gives: the
/// state's error, or a response with the state's status, version and headers.
pub open spec fn finished(r: Result<HandlerResponse, ResponseError>, st: Result<ResponseState, ResponseError>) -> bool {
    match st {
        Err(e) => r == Err::<HandlerResponse, ResponseError>(e),
        Ok(s) => {
            &&& r is Ok
            &&& r->Ok_0.status == s.status
            &&& r->Ok_0.version == s.version
            &&& headers_view(r->Ok_0.headers@) == s.headers
            &&& extensions_len(r->Ok_0.extensions) == s.extensions
        },
    }
}

/// The bytes of a body given in full.
pub open spec fn body_bytes(b: ResponseBody) -> Option<Seq<u8>> {
    match b {
        ResponseBody::Bytes(v) => Some(v@),
        ResponseBody::BoxedBody(_) => None,
    }
}

/// `http::StatusCode::from_u16`: accepts exactly the codes `100..=999`.
#[verifier::external_body]
fn status_code_ok(code: u16) -> (r: bool)
    ensures
        r == valid_status(code),
{
    http::StatusCode::from_u16(code).is_ok()
}

/// `http::HeaderName::from_bytes`: accepts a name of 1 to 65535 token bytes
/// and normalizes it to lower case; `as_str` gives that normalized form.
#[verifier::external_body]
fn parse_header_name(name: &str) -> (r: Option<String>)
    ensures
        r is Some <==> valid_header_name(name.spec_bytes()),
        r matches Some(n) ==> n@ == normalized_header_name(name.spec_bytes()),
{
    http::HeaderName::from_bytes(name.as_bytes()).ok().map(|n| n.as_str().to_string())
}

/// `http::HeaderValue::from_str`: accepts a value whose bytes are all
/// visible or tab (bytes of 128 and above included) and keeps those bytes.
#[verifier::external_body]
fn parse_header_value(value: &str) -> (r: Option<Vec<u8>>)
    ensures
        r is Some <==> valid_header_value(value.spec_bytes()),
        r matches Some(v) ==> v@ == value.spec_bytes(),
{
    http::HeaderValue::from_str(value).ok().map(|v| v.as_bytes().to_vec())
}

impl Response {
    /// The state of a fresh response.
    pub open spec fn initial() -> Result<ResponseState, ResponseError> {
        Ok(ResponseState { status: 200, version: Version::Http11, headers: Seq::empty(), extensions: 0 })
    }

    /// A response with status 200, version HTTP/1.1 and no headers.
    pub fn new() -> (r: Response)
        ensures
            r@ == Self::initial(),
    {
        let r = Response {
            parts: Ok(Head { status: 200, version: Version::Http11, headers: Vec::new(), extensions: extensions_new() }),
        };
        proof {
            assert(headers_view(Seq::<Header>::empty()) =~= Seq::empty());
        }
        r
    }

    /// Sets the status; a code outside `100..=999` is an error.
    pub fn status(self, status: u16) -> (r: Response)
        ensures
            r@ == with_status(self@, status),
    {
        match self.parts {
            Err(e) => Response { parts: Err(e) },
            Ok(head) => {
                if status_code_ok(status) {
                    Response { parts: Ok(Head { status, version: head.version, headers: head.headers, extensions: head.extensions }) }
                } else {
                    Response { parts: Err(ResponseError::InvalidStatusCode) }
                }
            },
        }
    }

    /// Sets the protocol version.
    pub fn version(self, version: Version) -> (r: Response)
        ensures
            r@ == with_version(self@, version),
    {
        match self.parts {
            Err(e) => Response { parts: Err(e) },
            Ok(head) => Response {
                parts: Ok(Head { status: head.status, version, headers: head.headers, extensions: head.extensions }),
            },
        }
    }

    /// Appends a header. The name is checked first, then the value; a
    /// header of the same name already present is kept.
    pub fn header(self, key: &str, value: &str) -> (r: Response)
        ensures
            r@ == with_header(self@, key.spec_bytes(), value.spec_bytes()),
    {
        match self.parts {
            Err(e) => Response { parts: Err(e) },
            Ok(head) => {
                match parse_header_name(key) {
                    None => Response { parts: Err(ResponseError::InvalidHeaderName) },
                    Some(name) => match parse_header_value(value) {
                        None => Response { parts: Err(ResponseError::InvalidHeaderValue) },
                        Some(bytes) => {
                            let mut headers = head.headers;
                            let ghost before = headers@;
                            headers.push(Header { name, value: bytes });
                            proof {
                                assert(headers_view(headers@) =~= headers_view(before).push(
                                    (normalized_header_name(key.spec_bytes()), value.spec_bytes()),
                                ));
                            }
                            Response {
                                parts: Ok(Head { status: head.status, version: head.version, headers, extensions: head.extensions }),
                            }
                        },
                    },
                }
            },
        }
    }

    /// Keeps `extension` with the response (replacing one of the same type),
    /// unless the response is in its error state. Status, version and
    /// headers are unchanged; the response then holds at least one extension,
    /// and one more than before unless a value of that type was replaced.
    pub fn extension<T: Clone + Send + Sync + 'static>(self, extension: T) -> (r: Response)
        ensures
            self@ is Err ==> r@ == self@,
            self@ matches Ok(s) ==> r@ matches Ok(t) && t.status == s.status && t.version == s.version
                && t.headers == s.headers && t.extensions >= 1
                && s.extensions <= t.extensions <= s.extensions + 1,
    {
        match self.parts {
            Err(e) => Response { parts: Err(e) },
            Ok(head) => {
                let mut extensions = head.extensions;
                let _ = extensions_insert(&mut extensions, extension);
                Response { parts: Ok(Head { status: head.status, version: head.version, headers: head.headers, extensions }) }
            },
        }
    }

    /// The extensions kept so far, unless the response is in its error state.
    pub fn extensions_ref(&self) -> (r: Option<&http::Extensions>)
        ensures
            r is Some <==> self@ is Ok,
            r matches Some(x) ==> self@ matches Ok(s) && extensions_len(*x) == s.extensions,
    {
        match &self.parts {
            Ok(head) => Some(&head.extensions),
            Err(_) => None,
        }
    }

    /// The extensions kept so far, to change in place, unless the response
    /// is in its error state; status, version and headers stay as they are.
    pub fn extensions_mut(&mut self) -> (r: Option<&mut http::Extensions>)
        ensures
            r is Some <==> old(self)@ is Ok,
            r is None ==> final(self)@ == old(self)@,
            r matches Some(x) ==> old(self)@ matches Ok(s) && extensions_len(*x) == s.extensions
                && final(self)@ == Ok::<ResponseState, ResponseError>(ResponseState { extensions: extensions_len(*final(x)), ..s }),
    {
        match &mut self.parts {
            Ok(head) => Some(&mut head.extensions),
            Err(_) => None,
        }
    }

    /// The headers added so far, unless the response is in its error state.
    pub fn headers_ref(&self) -> (r: Option<&Vec<Header>>)
        ensures
            r is Some <==> self@ is Ok,
            r matches Some(hs) ==> self@ matches Ok(s) && headers_view(hs@) == s.headers,
    {
        match &self.parts {
            Ok(head) => Some(&head.headers),
            Err(_) => None,
        }
    }

    /// The headers added so far, to change in place, unless the response is
    /// in its error state; status and version stay as they are.
    pub fn headers_mut(&mut self) -> (r: Option<&mut Vec<Header>>)
        ensures
            r is Some <==> old(self)@ is Ok,
            r is None ==> final(self)@ == old(self)@,
            r matches Some(hs) ==> old(self)@ matches Ok(s) && headers_view(hs@) == s.headers
                && final(self)@ == Ok::<ResponseState, ResponseError>(ResponseState { headers: headers_view(final(hs)@), ..s }),
    {
        match &mut self.parts {
            Ok(head) => Some(&mut head.headers),
            Err(_) => None,
        }
    }

    /// Attaches the body, or reports the first error met while building.
    pub fn body(self, body: ResponseBody) -> (r: Result<HandlerResponse, ResponseError>)
        ensures
            finished(r, self@),
            r matches Ok(hr) ==> hr.body == body,
    {
        match self.parts {
            Err(e) => Err(e),
            Ok(head) => Ok(
                HandlerResponse {
                    status: head.status,
                    version: head.version,
                    headers: head.headers,
                    extensions: head.extensions,
                    body,
                },
            ),
        }
    }
}

impl From<Vec<u8>> for ResponseBody {
    fn from(bytes: Vec<u8>) -> (r: ResponseBody) {
        ResponseBody::Bytes(bytes)
    }
}

impl vstd::std_specs::convert::FromSpecImpl<Vec<u8>> for ResponseBody {
    open spec fn obeys_from_spec() -> bool {
        true
    }

    open spec fn from_spec(v: Vec<u8>) -> ResponseBody {
        ResponseBody::Bytes(v)
    }
}

impl From<http_body_util::combinators::BoxBody<hyper::body::Bytes, std::convert::Infallible>> for ResponseBody {
    fn from(body: http_body_util::combinators::BoxBody<hyper::body::Bytes, std::convert::Infallible>) -> (r: ResponseBody) {
        ResponseBody::BoxedBody(body)
    }
}

impl vstd::std_specs::convert::FromSpecImpl<http_body_util::combinators::BoxBody<hyper::body::Bytes, std::convert::Infallible>> for ResponseBody {
    open spec fn obeys_from_spec() -> bool {
        true
    }

    open spec fn from_spec(
        v: http_body_util::combinators::BoxBody<hyper::body::Bytes, std::convert::Infallible>,
    ) -> ResponseBody {
        ResponseBody::BoxedBody(v)
    }
}

// The bodies made from text and byte slices are stated on `from` itself:
// a body holds a `Vec`, which no spec function can build from a sequence, so
// the generic `from_spec` of these conversions is left unused.

impl From<&str> for ResponseBody {
    /// A body holding the UTF-8 bytes of the text.
    fn from(text: &str) -> (r: ResponseBody)
        ensures
            body_bytes(r) == Some(text.spec_bytes()),
    {
        ResponseBody::text(text)
    }
}

impl vstd::std_specs::convert::FromSpecImpl<&str> for ResponseBody {
    open spec fn obeys_from_spec() -> bool {
        false
    }

    open spec fn from_spec(v: &str) -> ResponseBody {
        arbitrary()
    }
}

impl From<String> for ResponseBody {
    /// A body holding the UTF-8 bytes of the text.
    fn from(text: String) -> (r: ResponseBody)
        ensures
            body_bytes(r) == Some(encode_utf8(text@)),
    {
        ResponseBody::text(text.as_str())
    }
}

impl vstd::std_specs::convert::FromSpecImpl<String> for ResponseBody {
    open spec fn obeys_from_spec() -> bool {
        false
    }

    open spec fn from_spec(v: String) -> ResponseBody {
        arbitrary()
    }
}

impl From<&[u8]> for ResponseBody {
    /// A body holding a copy of the bytes.
    fn from(bytes: &[u8]) -> (r: ResponseBody)
        ensures
            body_bytes(r) == Some(bytes@),
    {
        ResponseBody::Bytes(vstd::slice::slice_to_vec(bytes))
    }
}

impl vstd::std_specs::convert::FromSpecImpl<&[u8]> for ResponseBody {
    open spec fn obeys_from_spec() -> bool {
        false
    }

    open spec fn from_spec(v: &[u8]) -> ResponseBody {
        arbitrary()
    }
}

impl ResponseBody {
    /// A body holding the UTF-8 bytes of `text`.
    pub fn text(text: &str) -> (r: ResponseBody)
        ensures
            body_bytes(r) == Some(text.spec_bytes()),
    {
        ResponseBody::Bytes(vstd::slice::slice_to_vec(text.as_bytes()))
    }

    /// An empty body.
    pub fn empty() -> (r: ResponseBody)
        ensures
            body_bytes(r) == Some(Seq::<u8>::empty()),
    {
        ResponseBody::Bytes(Vec::new())
    }
}

/// Whether a header value's bytes can be read as text (`HeaderValue::to_str`):
/// visible ASCII or tab.
pub open spec fn is_visible_ascii(b: u8) -> bool {
    (32 <= b < 127) || b == 9
}

/// A header value read as text, as `HeaderValue::to_str` reads it: every
/// byte must be visible ASCII or tab, and each becomes one character.
pub open spec fn header_text_of(bytes: Seq<u8>) -> Option<Seq<char>> {
    if forall|i: int| 0 <= i < bytes.len() ==> is_visible_ascii(#[trigger] bytes[i]) {
        Some(Seq::new(bytes.len(), |i: int| bytes[i] as char))
    } else {
        None
    }
}

/// Reads a header value as text, or `None` if it holds other bytes.
pub fn header_text(bytes: &[u8]) -> (r: Option<String>)
    ensures
        match r {
            None => header_text_of(bytes@) is None,
            Some(t) => header_text_of(bytes@) == Some(t@),
        },
{
    let mut t = String::new();
    let mut i: usize = 0;
    while i < bytes.len()
        invariant
            i <= bytes@.len(),
            forall|j: int| 0 <= j < i ==> is_visible_ascii(#[trigger] bytes@[j]),
            t@ == Seq::new(i as nat, |j: int| bytes@[j] as char),
        decreases bytes@.len() - i,
    {
        let b = bytes[i];
        if !((32 <= b && b < 127) || b == 9) {
            return None;
        }
        crate::text::push_char(&mut t, b as char);
        assert(t@ =~= Seq::new((i + 1) as nat, |j: int| bytes@[j] as char));
        i += 1;
    }
    assert(t@ =~= Seq::new(bytes@.len(), |j: int| bytes@[j] as char));
    Some(t)
}

/// Once a response is in its error state, no later step leaves it and
/// attaching the body reports that first error.
pub proof fn law_first_error_sticks(e: ResponseError, code: u16, version: Version, name: Seq<u8>, value: Seq<u8>)
    ensures
        with_status(Err(e), code) == Err::<ResponseState, ResponseError>(e),
        with_version(Err(e), version) == Err::<ResponseState, ResponseError>(e),
        with_header(Err(e), name, value) == Err::<ResponseState, ResponseError>(e),
        forall|r: Result<HandlerResponse, ResponseError>| finished(r, Err(e)) ==> r == Err::<HandlerResponse, ResponseError>(e),
{
}

/// A valid header added to a response without error is appended after the
/// headers already there, none of which is replaced.
pub proof fn law_headers_accumulate(s: ResponseState, name: Seq<u8>, value: Seq<u8>)
    requires
        valid_header_name(name),
        valid_header_value(value),
    ensures
        with_header(Ok(s), name, value) matches Ok(t) && t.headers.len() == s.headers.len() + 1
            && t.headers.take(s.headers.len() as int) == s.headers
            && t.headers.last() == (normalized_header_name(name), value)
            && t.status == s.status && t.version == s.version,
{
    let t = with_header(Ok(s), name, value)->Ok_0;
    assert(t.headers.take(s.headers.len() as int) =~= s.headers);
}

/// Text made of visible ASCII characters and spaces.
pub open spec fn visible_text(v: Seq<char>) -> bool {
    forall|i: int| 0 <= i < v.len() ==> ' ' <= #[trigger] v[i] <= '~'
}

/// Text of visible ASCII characters is a valid header value.
pub proof fn lemma_visible_header_value(v: Seq<char>)
    requires
        visible_text(v),
    ensures
        valid_header_value(encode_utf8(v)),
{
    assert(vstd::utf8::is_ascii_chars(v));
    vstd::utf8::is_ascii_chars_encode_utf8(v);
    let b = encode_utf8(v);
    assert forall|i: int| 0 <= i < b.len() implies is_header_value_byte(#[trigger] b[i]) by {
        assert(v[i] as u8 == b[i]);
    }
}

/// A name made of lower-case letters, digits and `-` is a valid header
/// name and is its own normalized form; its bytes are its characters.
pub proof fn lemma_plain_header_name(name: Seq<char>)
    requires
        0 < name.len() <= 65535,
        forall|i: int| 0 <= i < name.len() ==> {
            let c = #[trigger] name[i];
            ('a' <= c <= 'z') || ('0' <= c <= '9') || c == '-'
        },
    ensures
        valid_header_name(encode_utf8(name)),
        normalized_header_name(encode_utf8(name)) == name,
{
    assert(vstd::utf8::is_ascii_chars(name));
    vstd::utf8::is_ascii_chars_encode_utf8(name);
    let b = encode_utf8(name);
    assert forall|i: int| 0 <= i < b.len() implies is_token_byte(#[trigger] b[i]) && lower_byte(b[i]) as char == name[i] by {
        assert(name[i] as u8 == b[i]);
        let c = name[i];
        assert(('a' <= c <= 'z') || ('0' <= c <= '9') || c == '-');
        let u = c as u32;
        vstd::utf8::char_u32_cast(c, u);
        assert((u as u8) as char == u as char);
    }
    assert(normalized_header_name(b) =~= name);
}

} // verus!
