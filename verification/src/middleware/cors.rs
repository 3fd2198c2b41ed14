//! Permissive CORS.
//!
//! Every response that passes through gets `Access-Control-Allow-*: *`
//! headers; a preflight (`OPTIONS`) request is answered at once with
//! `204 No Content`, without running the inner handler.

use vstd::prelude::*;
use vstd::string::StringSliceAdditionalSpecFns;
use vstd::utf8::encode_utf8;

use crate::response::{
    body_bytes, lemma_plain_header_name, valid_header_value, finished, with_header, with_status, HandlerResponse, Response, ResponseBody, ResponseError,
    ResponseState,
};
use crate::router::Method;

verus! {

/// The state after the four CORS headers have been added.
pub open spec fn with_cors_headers(st: Result<ResponseState, ResponseError>) -> Result<ResponseState, ResponseError> {
    with_header(
        with_header(
            with_header(
                with_header(st, "access-control-allow-origin".spec_bytes(), "*".spec_bytes()),
                "access-control-allow-methods".spec_bytes(),
                "*".spec_bytes(),
            ),
            "access-control-allow-headers".spec_bytes(),
            "*".spec_bytes(),
        ),
        "access-control-expose-headers".spec_bytes(),
        "*".spec_bytes(),
    )
}

/// What the CORS middleware does with a request.
pub enum CorsOutcome {
    /// A preflight request, answered here.
    Preflight(Result<HandlerResponse, ResponseError>),
    /// Any other request: hand it on with the CORS headers added.
    Continue(Response),
}

/// Adds the CORS headers; answers `OPTIONS` with `204 No Content`, an
/// empty body and `Access-Control-Max-Age: 86400`.
pub fn cors(method: &Method, res: Response) -> (r: CorsOutcome)
    ensures
        (*method matches Method::Options) ==> (r matches CorsOutcome::Preflight(x) && finished(
            x,
            with_status(
                with_header(with_cors_headers(res@), "access-control-max-age".spec_bytes(), "86400".spec_bytes()),
                204,
            ),
        ) && (x matches Ok(hr) ==> body_bytes(hr.body) == Some(Seq::<u8>::empty()))),
        !(*method matches Method::Options) ==> (r matches CorsOutcome::Continue(c) && c@ == with_cors_headers(res@)),
{
    let res = res
        .header("access-control-allow-origin", "*")
        .header("access-control-allow-methods", "*")
        .header("access-control-allow-headers", "*")
        .header("access-control-expose-headers", "*");
    match method {
        Method::Options => CorsOutcome::Preflight(
            res.header("access-control-max-age", "86400").status(204).body(ResponseBody::empty()),
        ),
        _ => CorsOutcome::Continue(res),
    }
}

proof fn lemma_cors_name(name: &str)
    requires
        0 < name@.len() <= 65535,
        forall|i: int| 0 <= i < name@.len() ==> {
            let c = #[trigger] name@[i];
            ('a' <= c <= 'z') || c == '-'
        },
    ensures
        crate::response::valid_header_name(name.spec_bytes()),
        crate::response::normalized_header_name(name.spec_bytes()) == name@,
{
    lemma_plain_header_name(name@);
}

/// A response without error comes out of the CORS middleware with the four
/// `Access-Control-*: *` headers appended, in this order, and nothing else
/// changed.
pub proof fn law_cors_headers(s: ResponseState)
    ensures
        with_cors_headers(Ok(s)) == Ok::<ResponseState, ResponseError>(
            ResponseState {
                headers: s.headers + seq![
                    ("access-control-allow-origin"@, "*".spec_bytes()),
                    ("access-control-allow-methods"@, "*".spec_bytes()),
                    ("access-control-allow-headers"@, "*".spec_bytes()),
                    ("access-control-expose-headers"@, "*".spec_bytes()),
                ],
                ..s
            },
        ),
{
    reveal_strlit("access-control-allow-origin");
    reveal_strlit("access-control-allow-methods");
    reveal_strlit("access-control-allow-headers");
    reveal_strlit("access-control-expose-headers");
    reveal_strlit("*");
    lemma_cors_name("access-control-allow-origin");
    lemma_cors_name("access-control-allow-methods");
    lemma_cors_name("access-control-allow-headers");
    lemma_cors_name("access-control-expose-headers");
    vstd::utf8::is_ascii_chars_encode_utf8("*"@);
    assert("*".spec_bytes() =~= seq![42u8]);
    assert(valid_header_value("*".spec_bytes()));
    let expected = s.headers + seq![
        ("access-control-allow-origin"@, "*".spec_bytes()),
        ("access-control-allow-methods"@, "*".spec_bytes()),
        ("access-control-allow-headers"@, "*".spec_bytes()),
        ("access-control-expose-headers"@, "*".spec_bytes()),
    ];
    let got = with_cors_headers(Ok(s))->Ok_0.headers;
    assert(got =~= expected);
}

} // verus!
