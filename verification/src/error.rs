//! The errors this library reports, and the outside types they carry.
use vstd::prelude::*;

verus! {

/// The error `core::str::from_utf8` reports; opaque here.
#[verifier::external_type_specification]
#[verifier::external_body]
pub struct ExUtf8Error(core::str::Utf8Error);

/// std's I/O error; opaque here.
#[verifier::external_type_specification]
#[verifier::external_body]
pub struct ExIoError(std::io::Error);

/// serde_json's error; opaque here.
#[verifier::external_type_specification]
#[verifier::external_body]
pub struct ExJsonError(serde_json::Error);

/// serde_json's dynamically typed JSON value; opaque here.
#[verifier::external_type_specification]
#[verifier::external_body]
pub struct ExJsonValue(serde_json::Value);

/// Represents an error while sending, receiving, or parsing an HTTP response.
#[derive(Debug)]
pub enum RequestError {
    /// The response body contains invalid UTF-8, so `as_str()` cannot view it as text.
    InvalidUtf8InBody(core::str::Utf8Error),
    /// The body could not be parsed as JSON.
    SerdeJsonError(serde_json::Error),
    /// An I/O error occurred while sending or receiving.
    IoError(std::io::Error),
    /// A line of the response (status line or header) was not UTF-8.
    InvalidUtf8InResponse,
    /// A chunk length line of a chunked body could not be read or parsed.
    MalformedChunkLength,
    /// The `content-length` header could not be parsed as a number.
    MalformedContentLength,
    /// The headers were longer than the configured limit.
    HeadersOverflow,
    /// The status line was longer than the configured limit.
    StatusLineOverflow,
    /// The host name could not be resolved to any address.
    AddressNotFound,
    /// A redirect status came without a `location` header.
    RedirectLocationMissing,
    /// The redirects went around in a circle.
    InfiniteRedirectionLoop,
    /// The redirect limit was reached.
    TooManyRedirections,
    /// A label of a non-ASCII host could not be encoded as punycode.
    PunycodeConversionFailed,
    /// An `https` URL was asked for, but no TLS support is available.
    HttpsFeatureNotEnabled,
    /// Some other problem, described in words.
    Other(String),
}

} // verus!
