use crate::helper::text::{eq_str, spec_trim, trim};
use vstd::prelude::*;

verus! {

/// The HTTP protocol versions this server recognises.
#[derive(Clone, Copy, Debug, PartialEq, Eq, Structural)]
pub enum HttpVersion {
    Http1Dot1,
}

/// The version a request-line token names once trimmed of whitespace, if any.
pub open spec fn spec_version_from_str(s: Seq<char>) -> Option<HttpVersion> {
    if spec_trim(s) == "HTTP/1.1"@ {
        Some(HttpVersion::Http1Dot1)
    } else {
        None
    }
}

/// The wire text of a version.
pub open spec fn spec_version_text(v: HttpVersion) -> Seq<char> {
    match v {
        HttpVersion::Http1Dot1 => "HTTP/1.1"@,
    }
}

impl HttpVersion {
    /// Returns the version the (trimmed) token names, or `None` for any token
    /// outside the closed vocabulary.
    pub fn from_str(version: &str) -> (r: Option<Self>)
        ensures
            r == spec_version_from_str(version@),
    {
        let t = trim(version);
        if eq_str(t, "HTTP/1.1") {
            Some(HttpVersion::Http1Dot1)
        } else {
            None
        }
    }

    /// Returns the wire text of the version.
    pub fn as_str(&self) -> (r: &'static str)
        ensures
            r@ == spec_version_text(*self),
    {
        match self {
            HttpVersion::Http1Dot1 => "HTTP/1.1",
        }
    }
}

} // verus!
