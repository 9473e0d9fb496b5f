//! The request-handling core of a small static file server.
//!
//! A connection handler reads a bounded chunk of bytes from a client, hands it
//! to this library together with the server root, looks at the file system
//! where the library tells it to, and writes back the bytes of the response
//! that the library renders.  Nothing in here touches a socket or a file: every
//! function maps plain values to plain values, and its contract says which.

pub mod text;
pub mod http;
