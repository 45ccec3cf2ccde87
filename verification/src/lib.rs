//! A small, verified HTTP/1.1 protocol core: wire-format parsing of requests,
//! route matching with a single-segment wildcard, response building with
//! negotiated content encoding, and response serialization back to bytes.
//!
//! All socket handling lives outside this crate; the library works on plain
//! byte buffers and values.

pub mod assoc;
pub mod bytes;
pub mod connection;
pub mod context;
pub mod encoder;
pub mod endpoints;
pub mod http;
pub mod request;
pub mod response;
pub mod router;
pub mod utils;
