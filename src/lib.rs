//! A minimal HTTP/1.1 engine: connection framing, message parsing and
//! serialisation, and a router with single-wildcard patterns.
pub mod framer;
pub mod handlers;
pub mod message;
pub mod request;
pub mod response;
pub mod round_trip;
pub mod router;
pub mod text;
