//! A minimal HTTP/1.1 request/response engine over byte streams.
//!
//! The engine reads one request from the bytes of a connection, routes it to
//! one of a fixed set of handlers and serializes the response. It performs no
//! I/O itself: reading from the connection and touching the file system are
//! left to the caller, which hands the engine plain bytes and gets plain
//! bytes, or a description of the file operation to perform, back.
pub mod bytes;
pub mod headers;
pub mod request;
pub mod response;
pub mod parser;
pub mod reader;
pub mod router;
pub mod exchange;
