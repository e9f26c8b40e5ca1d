//! A verified core for a minimal HTTP/1.1 server: a byte-level request
//! parser, a router that maps (method, path) pairs onto a fixed set of
//! handlers, and a response serializer with optional gzip framing.
//!
//! Connection handling and filesystem access are left to the caller: the
//! parser reads a complete request buffer, the router turns a request
//! into a reply or into one filesystem action, and the serializer turns
//! the finished response back into wire bytes.

pub mod bytes;
pub mod gzip;
pub mod http;
pub mod parser;
pub mod router;
pub mod wire;
