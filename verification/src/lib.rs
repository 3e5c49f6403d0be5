//! A minimal HTTP/1.1 message layer: header-name classification, a header
//! collection with deterministic serialization, a request start-line parser,
//! a request assembler, and a response serializer.
//!
//! Parsing and serialization are pure: the transport (sockets, logging)
//! lives outside this crate and hands in plain lines of text.

pub mod error;
pub mod header;
pub mod request;
pub mod response;
pub mod status;
pub mod text;

pub use error::AppError;
pub use error::ErrorKind;
