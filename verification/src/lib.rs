//! An asynchronous HTTP client's protocol core: status line and header
//! parsing, body framing, chunked transfer decoding, redirects and host
//! names.
pub mod error;
pub mod framing;
pub mod headers;
pub mod host;
pub mod line;
pub mod number;
pub mod parse;
pub mod redirect;
pub mod response;
pub mod text;
pub mod timeout;
