use crate::helper::text::{eq_str, spec_trim, trim};
use vstd::prelude::*;

verus! {

/// The HTTP request methods this server recognises.
#[derive(Clone, Copy, Debug, PartialEq, Eq, Structural)]
pub enum HttpMethod {
    Get,
    Head,
    Post,
    Put,
    Delete,
    Connect,
    Options,
    Trace,
}

/// The method a bare wire token names, if any (matching is case-sensitive).
pub open spec fn spec_method_from_token(t: Seq<char>) -> Option<HttpMethod> {
    if t == "GET"@ {
        Some(HttpMethod::Get)
    } else if t == "HEAD"@ {
        Some(HttpMethod::Head)
    } else if t == "POST"@ {
        Some(HttpMethod::Post)
    } else if t == "PUT"@ {
        Some(HttpMethod::Put)
    } else if t == "DELETE"@ {
        Some(HttpMethod::Delete)
    } else if t == "CONNECT"@ {
        Some(HttpMethod::Connect)
    } else if t == "OPTIONS"@ {
        Some(HttpMethod::Options)
    } else if t == "TRACE"@ {
        Some(HttpMethod::Trace)
    } else {
        None
    }
}

/// The method a request-line token names once trimmed of whitespace, if any.
pub open spec fn spec_method_from_str(s: Seq<char>) -> Option<HttpMethod> {
    spec_method_from_token(spec_trim(s))
}

/// The wire text of a method.
pub open spec fn spec_method_text(m: HttpMethod) -> Seq<char> {
    match m {
        HttpMethod::Get => "GET"@,
        HttpMethod::Head => "HEAD"@,
        HttpMethod::Post => "POST"@,
        HttpMethod::Put => "PUT"@,
        HttpMethod::Delete => "DELETE"@,
        HttpMethod::Connect => "CONNECT"@,
        HttpMethod::Options => "OPTIONS"@,
        HttpMethod::Trace => "TRACE"@,
    }
}

impl HttpMethod {
    /// Returns the method the (trimmed) token names, or `None` for any token
    /// outside the closed vocabulary.
    pub fn from_str(method: &str) -> (r: Option<Self>)
        ensures
            r == spec_method_from_str(method@),
    {
        let t = trim(method);
        if eq_str(t, "GET") {
            Some(HttpMethod::Get)
        } else if eq_str(t, "HEAD") {
            Some(HttpMethod::Head)
        } else if eq_str(t, "POST") {
            Some(HttpMethod::Post)
        } else if eq_str(t, "PUT") {
            Some(HttpMethod::Put)
        } else if eq_str(t, "DELETE") {
            Some(HttpMethod::Delete)
        } else if eq_str(t, "CONNECT") {
            Some(HttpMethod::Connect)
        } else if eq_str(t, "OPTIONS") {
            Some(HttpMethod::Options)
        } else if eq_str(t, "TRACE") {
            Some(HttpMethod::Trace)
        } else {
            None
        }
    }

    /// Returns the wire text of the method.
    pub fn as_str(&self) -> (r: &'static str)
        ensures
            r@ == spec_method_text(*self),
    {
        match self {
            HttpMethod::Get => "GET",
            HttpMethod::Head => "HEAD",
            HttpMethod::Post => "POST",
            HttpMethod::Put => "PUT",
            HttpMethod::Delete => "DELETE",
            HttpMethod::Connect => "CONNECT",
            HttpMethod::Options => "OPTIONS",
            HttpMethod::Trace => "TRACE",
        }
    }
}

} // verus!
