//! What the server needs from the library beyond responses.

use vstd::prelude::*;
use vstd::string::StringSliceAdditionalSpecFns;

use crate::response::{body_bytes, extensions_len, extensions_new, HandlerResponse, ResponseBody, Version};

verus! {

/// Marks a server builder that has no handler yet.
pub struct NoHandler;

/// The answer for a request whose handler failed: `500` with the error's
/// message as the body.
pub fn handle_error(message: &str) -> (r: HandlerResponse)
    ensures
        r.status == 500,
        r.version == Version::Http11,
        r.headers@.len() == 0,
        extensions_len(r.extensions) == 0,
        body_bytes(r.body) == Some(message.spec_bytes()),
{
    HandlerResponse {
        status: 500,
        version: Version::Http11,
        headers: Vec::new(),
        extensions: extensions_new(),
        body: ResponseBody::text(message),
    }
}


} // verus!
