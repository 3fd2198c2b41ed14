//! Middleware decisions: what each middleware does to a request before (or
//! instead of) handing it on.

pub mod basic_auth;
pub mod cors;
pub mod logger;
