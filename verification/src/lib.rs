//! A small HTTP/1.1 server core with machine-checked contracts.
//!
//! - [`decoder`] turns the bytes of a connection into a [`Request`], all at
//!   once or read by read.
//! - [`response`] holds the [`Response`] value and its encoding on the wire.
//! - [`router`] is the ordered route table that picks the handler of a request.
//! - [`app`] runs a request through middleware stages, route tables and the
//!   not-found fallback.
//! - [`parser`] reads JSON bodies; [`text`] holds the character-level
//!   operations that the rest is specified with.
//!
//! Sockets and threads are not part of the library: a caller reads what the
//! decoder asks for and writes what the response encodes to.

pub mod app;
pub mod decoder;
pub mod parser;
pub mod request;
pub mod response;
pub mod router;
pub mod text;

pub use app::App;
pub use request::Request;
pub use response::Response;
pub use router::Router;
