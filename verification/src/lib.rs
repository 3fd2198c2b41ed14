//! A small HTTP server toolkit: response building, routing, middleware
//! decisions, static-file decisions, server-sent-event framing and the
//! websocket handshake, with their behaviour stated as contracts.

pub mod file_server;
pub mod middleware;
pub mod response;
mod route_tree;
pub mod router;
pub mod server;
pub mod sse;
pub mod text;
pub mod websocket;
