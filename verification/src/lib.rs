//! A typed request-extraction and handler-dispatch layer.
//!
//! A handler is a function of zero or more typed parameters. Each parameter
//! is populated from the incoming request by an extractor (query string,
//! positional path segment, body bytes, body text, JSON body, form body, or
//! a shared contextual value), in declaration order, failing fast on the
//! first extraction error. The handler's return value is then converted into
//! a wire response. A small router model binds path patterns and HTTP
//! methods to handlers and maps failures to status codes.

pub mod error;
pub mod request;
pub mod text;
pub mod urlenc;
pub mod json;
pub mod extract;
pub mod response;
pub mod handler;
pub mod router;
pub mod sample;
