use crate::helper::text::{eq_ignore_ascii_case, spec_lower, spec_trim, trim};
use vstd::prelude::*;

verus! {

/// The header field names this server reads. Recognition is case-insensitive;
/// unrecognised names are not an error, merely unknown to this enumeration.
#[derive(Clone, Copy, Debug, PartialEq, Eq, Structural, Hash)]
pub enum HttpFieldName {
    ContentLength,
    Host,
}

/// The field this server knows a (trimmed, lowered) header name to mean.
pub open spec fn spec_fieldname_from_str(s: Seq<char>) -> Option<HttpFieldName> {
    if spec_lower(spec_trim(s)) == "host"@ {
        Some(HttpFieldName::Host)
    } else if spec_lower(spec_trim(s)) == "content-length"@ {
        Some(HttpFieldName::ContentLength)
    } else {
        None
    }
}

/// The canonical wire text of a field name.
pub open spec fn spec_fieldname_text(f: HttpFieldName) -> Seq<char> {
    match f {
        HttpFieldName::Host => "Host"@,
        HttpFieldName::ContentLength => "Content-Length"@,
    }
}

/// The lowering of the canonical text is the recognised lookup key.
pub proof fn lemma_fieldname_text_recognised(f: HttpFieldName)
    ensures
        spec_fieldname_from_str(spec_fieldname_text(f)) == Some(f),
{
    reveal_strlit("Host");
    reveal_strlit("host");
    reveal_strlit("Content-Length");
    reveal_strlit("content-length");
    match f {
        HttpFieldName::Host => {
            assert(spec_trim("Host"@) =~= "Host"@);
            assert(spec_lower("Host"@) =~= "host"@);
        },
        HttpFieldName::ContentLength => {
            assert(spec_trim("Content-Length"@) =~= "Content-Length"@);
            assert(spec_lower("Content-Length"@) =~= "content-length"@);
            assert(spec_lower("Content-Length"@) != "host"@);
        },
    }
}

impl HttpFieldName {
    /// Returns the field the name denotes, compared case-insensitively after
    /// trimming, or `None` for a name this server does not read.
    pub fn from_str(field_name: &str) -> (r: Option<Self>)
        ensures
            r == spec_fieldname_from_str(field_name@),
    {
        let t = trim(field_name);
        proof {
            reveal_strlit("host");
            reveal_strlit("content-length");
            assert(spec_lower("host"@) =~= "host"@);
            assert(spec_lower("content-length"@) =~= "content-length"@);
        }
        if eq_ignore_ascii_case(t, "host") {
            Some(HttpFieldName::Host)
        } else if eq_ignore_ascii_case(t, "content-length") {
            Some(HttpFieldName::ContentLength)
        } else {
            None
        }
    }

    /// Returns the canonical wire text of the field name.
    pub fn as_str(&self) -> (r: &'static str)
        ensures
            r@ == spec_fieldname_text(*self),
    {
        match self {
            HttpFieldName::Host => "Host",
            HttpFieldName::ContentLength => "Content-Length",
        }
    }
}

} // verus!
