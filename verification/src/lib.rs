//! An incremental parser for the head of an HTTP/1.1 request, following
//! [RFC 7230](https://tools.ietf.org/html/rfc7230).
//!
//! Bytes are pulled one at a time from a [`ByteSource`] through a buffering
//! [`StreamReader`]. The functions of [`Request`] read the request line and
//! the header block from such a reader and collect what they find in a
//! [`RequestBuilder`], which makes the [`Request`]. A failure is a
//! [`ParseError`], which says what to answer, if anything.
//!
//! What the parsers accept, and what they make of it, is laid down in
//! [`grammar`] by functions on byte sequences: each parser returns what the
//! grammar makes of the bytes that it took from its reader. [`laws`] states
//! what holds of the grammar.

pub mod error;
pub mod grammar;
pub mod header_block;
pub mod headers;
pub mod laws;
pub mod lemmas;
pub mod method;
pub mod parse;
pub mod reader;
pub mod request;
pub mod source;
pub mod text;
pub mod token;

pub use error::ParseError;
pub use headers::Headers;
pub use method::{Method, MethodView};
pub use reader::{Cursor, StreamReader};
pub use request::{Request, RequestBuilder, RequestBuilderView, RequestView};
pub use source::{ByteSource, BUFFER_SIZE};
pub use token::TokenType;
