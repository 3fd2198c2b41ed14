//! Request logging: what is logged about a finished request.

use vstd::prelude::*;

use crate::response::HandlerResponse;

verus! {

/// Options of the logger middleware (there are none yet).
pub struct LoggerOptions {}

/// The status a log line reports: the response's, or 500 when the handler
/// failed.
pub fn logged_status<E>(result: &Result<HandlerResponse, E>) -> (r: u16)
    ensures
        r == match result {
            Ok(hr) => hr.status,
            Err(_) => 500u16,
        },
{
    match result {
        Ok(hr) => hr.status,
        Err(_) => 500,
    }
}

} // verus!
