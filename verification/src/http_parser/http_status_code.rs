use crate::helper::text::digit_char;
use vstd::prelude::*;

verus! {

/// The response status codes this server can produce.
#[derive(Clone, Copy, Debug, PartialEq, Eq, Structural)]
pub enum HttpStatusCode {
    OK200,
    BadRequest400,
    Forbidden403,
    NotFound404,
    RequestTimeout408,
    Conflict409,
    ContentTooLarge413,
    InternalServerError500,
    NotImplemented501,
    BadGateway502,
    GatewayTimeout504,
}

/// The local I/O failure kinds the server distinguishes when it translates a
/// filesystem or connection error into a response status. Values of this
/// enumeration stand for the failure kinds the platform reports; the layer
/// that performs the I/O converts into it.
#[derive(Clone, Copy, Debug, PartialEq, Eq, Structural)]
pub enum IoErrorKind {
    NotFound,
    PermissionDenied,
    ConnectionRefused,
    ConnectionReset,
    ConnectionAborted,
    NotConnected,
    AlreadyExists,
    TimedOut,
    InvalidInput,
    Unsupported,
    Other,
}

/// The numeric code of a status.
pub open spec fn spec_status_code(s: HttpStatusCode) -> u16 {
    match s {
        HttpStatusCode::OK200 => 200,
        HttpStatusCode::BadRequest400 => 400,
        HttpStatusCode::Forbidden403 => 403,
        HttpStatusCode::NotFound404 => 404,
        HttpStatusCode::RequestTimeout408 => 408,
        HttpStatusCode::Conflict409 => 409,
        HttpStatusCode::ContentTooLarge413 => 413,
        HttpStatusCode::InternalServerError500 => 500,
        HttpStatusCode::NotImplemented501 => 501,
        HttpStatusCode::BadGateway502 => 502,
        HttpStatusCode::GatewayTimeout504 => 504,
    }
}

/// The wire text of a status: its numeric code, a space, and its reason
/// phrase.
pub open spec fn spec_status_text(s: HttpStatusCode) -> Seq<char> {
    match s {
        HttpStatusCode::OK200 => "200 OK"@,
        HttpStatusCode::BadRequest400 => "400 Bad Request"@,
        HttpStatusCode::Forbidden403 => "403 Forbidden"@,
        HttpStatusCode::NotFound404 => "404 Not Found"@,
        HttpStatusCode::RequestTimeout408 => "408 Request Timeout"@,
        HttpStatusCode::Conflict409 => "409 Conflict"@,
        HttpStatusCode::ContentTooLarge413 => "413 Content Too Large"@,
        HttpStatusCode::InternalServerError500 => "500 Internal Server Error"@,
        HttpStatusCode::NotImplemented501 => "501 Not Implemented"@,
        HttpStatusCode::BadGateway502 => "502 Bad Gateway"@,
        HttpStatusCode::GatewayTimeout504 => "504 Gateway Timeout"@,
    }
}

/// The status a local I/O failure kind maps to.
pub open spec fn spec_status_from_io_error(kind: IoErrorKind) -> HttpStatusCode {
    match kind {
        IoErrorKind::NotFound => HttpStatusCode::NotFound404,
        IoErrorKind::PermissionDenied => HttpStatusCode::Forbidden403,
        IoErrorKind::ConnectionRefused => HttpStatusCode::BadGateway502,
        IoErrorKind::ConnectionReset => HttpStatusCode::BadGateway502,
        IoErrorKind::ConnectionAborted => HttpStatusCode::BadGateway502,
        IoErrorKind::NotConnected => HttpStatusCode::GatewayTimeout504,
        IoErrorKind::AlreadyExists => HttpStatusCode::Conflict409,
        _ => HttpStatusCode::InternalServerError500,
    }
}

/// Whether `c` is an ASCII uppercase letter.
pub open spec fn is_ascii_uppercase_char(c: char) -> bool {
    65 <= c as u32 <= 90
}

/// Every status renders to its three-digit numeric code, a space, and a
/// reason phrase opening with an uppercase letter.
pub proof fn lemma_status_text_shape(s: HttpStatusCode)
    ensures
        spec_status_text(s).len() > 4,
        spec_status_text(s)[0] == digit_char(spec_status_code(s) as int / 100),
        spec_status_text(s)[1] == digit_char((spec_status_code(s) as int / 10) % 10),
        spec_status_text(s)[2] == digit_char(spec_status_code(s) as int % 10),
        spec_status_text(s)[3] == ' ',
        is_ascii_uppercase_char(spec_status_text(s)[4]),
{
    reveal_strlit("200 OK");
    reveal_strlit("400 Bad Request");
    reveal_strlit("403 Forbidden");
    reveal_strlit("404 Not Found");
    reveal_strlit("408 Request Timeout");
    reveal_strlit("409 Conflict");
    reveal_strlit("413 Content Too Large");
    reveal_strlit("500 Internal Server Error");
    reveal_strlit("501 Not Implemented");
    reveal_strlit("502 Bad Gateway");
    reveal_strlit("504 Gateway Timeout");
}

/// No two statuses share a numeric code.
pub proof fn lemma_status_codes_distinct(s1: HttpStatusCode, s2: HttpStatusCode)
    requires
        spec_status_code(s1) == spec_status_code(s2),
    ensures
        s1 == s2,
{
}

impl HttpStatusCode {
    /// Returns the numeric code of the status.
    pub fn code(&self) -> (r: u16)
        ensures
            r == spec_status_code(*self),
    {
        match self {
            HttpStatusCode::OK200 => 200,
            HttpStatusCode::BadRequest400 => 400,
            HttpStatusCode::Forbidden403 => 403,
            HttpStatusCode::NotFound404 => 404,
            HttpStatusCode::RequestTimeout408 => 408,
            HttpStatusCode::Conflict409 => 409,
            HttpStatusCode::ContentTooLarge413 => 413,
            HttpStatusCode::InternalServerError500 => 500,
            HttpStatusCode::NotImplemented501 => 501,
            HttpStatusCode::BadGateway502 => 502,
            HttpStatusCode::GatewayTimeout504 => 504,
        }
    }

    /// Returns the wire text of the status.
    pub fn as_str(&self) -> (r: &'static str)
        ensures
            r@ == spec_status_text(*self),
    {
        match self {
            HttpStatusCode::OK200 => "200 OK",
            HttpStatusCode::BadRequest400 => "400 Bad Request",
            HttpStatusCode::Forbidden403 => "403 Forbidden",
            HttpStatusCode::NotFound404 => "404 Not Found",
            HttpStatusCode::RequestTimeout408 => "408 Request Timeout",
            HttpStatusCode::Conflict409 => "409 Conflict",
            HttpStatusCode::ContentTooLarge413 => "413 Content Too Large",
            HttpStatusCode::InternalServerError500 => "500 Internal Server Error",
            HttpStatusCode::NotImplemented501 => "501 Not Implemented",
            HttpStatusCode::BadGateway502 => "502 Bad Gateway",
            HttpStatusCode::GatewayTimeout504 => "504 Gateway Timeout",
        }
    }

    /// Returns the status a local I/O failure kind maps to: missing file to
    /// `404`, denied permission to `403`, a refused, reset or aborted
    /// connection to `502`, an unconnected peer to `504`, an existing file to
    /// `409`, and every other kind to the conservative `500`.
    pub fn from_io_error(kind: IoErrorKind) -> (r: Self)
        ensures
            r == spec_status_from_io_error(kind),
    {
        match kind {
            IoErrorKind::NotFound => HttpStatusCode::NotFound404,
            IoErrorKind::PermissionDenied => HttpStatusCode::Forbidden403,
            IoErrorKind::ConnectionRefused => HttpStatusCode::BadGateway502,
            IoErrorKind::ConnectionReset => HttpStatusCode::BadGateway502,
            IoErrorKind::ConnectionAborted => HttpStatusCode::BadGateway502,
            IoErrorKind::NotConnected => HttpStatusCode::GatewayTimeout504,
            IoErrorKind::AlreadyExists => HttpStatusCode::Conflict409,
            _ => HttpStatusCode::InternalServerError500,
        }
    }
}

} // verus!
