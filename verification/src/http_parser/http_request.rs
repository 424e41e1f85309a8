use super::http_fieldname::{spec_fieldname_text, HttpFieldName};
use super::http_header::{spec_header_from_bytes, spec_header_get, HeaderModel, HttpHeader};
use super::http_method::{spec_method_from_str, HttpMethod};
use super::http_status_code::HttpStatusCode;
use super::http_target::{spec_target_from_str, HttpTarget, TargetModel};
use super::http_version::{spec_version_from_str, HttpVersion};
use super::http_partial_request::PartialHttpRequest;
use crate::helper::bytes::{find, spec_find};
use crate::helper::enums::Processing;
use crate::helper::text::{
    bytes_to_str, ends_with_char, ends_with_str, eq_str, parse_usize, spec_parse_usize,
};
use vstd::prelude::*;
use vstd::slice::{slice_subrange, slice_to_vec};
use vstd::string::StrSliceExecFns;
use vstd::utf8::{decode_utf8, valid_utf8};

verus! {

/// One HTTP request: each field optional until its bytes have arrived and
/// parsed. The body is an owned copy of the declared span of the stream.
pub struct HttpRequest {
    pub method: Option<HttpMethod>,
    pub target: Option<HttpTarget>,
    pub version: Option<HttpVersion>,
    pub header: Option<HttpHeader>,
    pub body: Option<Vec<u8>>,
}

/// The mathematical content of a request.
pub struct RequestModel {
    pub method: Option<HttpMethod>,
    pub target: Option<TargetModel>,
    pub version: Option<HttpVersion>,
    pub header: Option<HeaderModel>,
    pub body: Option<Seq<u8>>,
}

/// The mathematical content of a parse in progress: the request fields filled
/// so far and the resumption cursor.
pub struct PartialRequestModel {
    pub request: RequestModel,
    pub next_byte: int,
}

/// What one `try_parse` step decides: more bytes are needed (with the saved
/// progress), a complete request was accepted, or the request was rejected
/// with the status the response should carry.
pub enum ParseOutcome {
    InProgress(PartialRequestModel),
    Accepted(RequestModel),
    Rejected(HttpStatusCode),
}

/// What a parse failure reports beside the recommended status.
#[derive(Clone, Copy, Debug, PartialEq, Eq, Structural)]
pub enum ParseError {
    InvalidInput,
}

impl View for HttpRequest {
    type V = RequestModel;

    open spec fn view(&self) -> RequestModel {
        RequestModel {
            method: self.method,
            target: match self.target {
                Some(ref t) => Some(t@),
                None => None,
            },
            version: self.version,
            header: match self.header {
                Some(ref h) => Some(h@),
                None => None,
            },
            body: self.body.deep_view(),
        }
    }
}

impl Default for HttpRequest {
    /// The default request has no field filled.
    fn default() -> (r: Self)
        ensures
            r@ == (RequestModel {
                method: None,
                target: None,
                version: None,
                header: None,
                body: None,
            }),
    {
        HttpRequest { method: None, target: None, version: None, header: None, body: None }
    }
}

impl Clone for HttpRequest {
    /// The clone holds the same fields.
    fn clone(&self) -> (r: Self)
        ensures
            r@ == self@,
    {
        HttpRequest {
            method: self.method,
            target: match &self.target {
                None => None,
                Some(t) => Some(t.clone()),
            },
            version: self.version,
            header: match &self.header {
                None => None,
                Some(h) => Some(h.clone()),
            },
            body: match &self.body {
                None => None,
                Some(b) => {
                    let copy = b.clone();
                    proof {
                        assert forall|k: int| 0 <= k < copy@.len() implies copy@[k] == b@[k] by {
                            assert(vstd::pervasive::cloned::<u8>(b@[k], copy@[k]));
                        }
                        assert(copy@ =~= b@);
                    }
                    Some(copy)
                },
            },
        }
    }
}

/// The next field's raw token: the bytes from the cursor to the first
/// occurrence of the delimiter, and the cursor moved past that delimiter —
/// or nothing while the delimiter has not arrived.
pub open spec fn spec_next_token(bytes: Seq<u8>, next_byte: int, delimiter: Seq<u8>) -> Option<
    (Seq<u8>, int),
> {
    match spec_find(bytes.skip(next_byte), delimiter) {
        None => None,
        Some(i) => Some(
            (bytes.skip(next_byte).take(i), next_byte + i + delimiter.len()),
        ),
    }
}

/// The parser's body stage: nothing to read without a `Content-Length`
/// field; a non-numeric length (or one beyond the machine's reach) rejects
/// the request with `400`; a numeric length of which fewer bytes have arrived
/// asks for more; otherwise the body is exactly that many bytes past the
/// header terminator.
pub open spec fn spec_parse_body(p: PartialRequestModel, bytes: Seq<u8>) -> ParseOutcome {
    if p.request.body is Some {
        ParseOutcome::Accepted(p.request)
    } else {
        match p.request.header {
            None => ParseOutcome::Accepted(p.request),
            Some(h) => match spec_header_get(
                h,
                spec_fieldname_text(HttpFieldName::ContentLength),
            ) {
                None => ParseOutcome::Accepted(p.request),
                Some(v) => match spec_parse_usize(v) {
                    None => ParseOutcome::Rejected(HttpStatusCode::BadRequest400),
                    Some(n) => if n > usize::MAX {
                        ParseOutcome::Rejected(HttpStatusCode::BadRequest400)
                    } else if p.next_byte + n > bytes.len() {
                        ParseOutcome::InProgress(p)
                    } else {
                        ParseOutcome::Accepted(
                            RequestModel {
                                method: p.request.method,
                                target: p.request.target,
                                version: p.request.version,
                                header: p.request.header,
                                body: Some(bytes.skip(p.next_byte).take(n)),
                            },
                        )
                    },
                },
            },
        }
    }
}

/// The parser's header stage: the header block runs to the first `\r\n\r\n`;
/// while that terminator has not arrived, more bytes are needed; a block that
/// yields no usable field leaves the header absent, which is not an error.
pub open spec fn spec_parse_header(p: PartialRequestModel, bytes: Seq<u8>) -> ParseOutcome {
    if p.request.header is Some {
        spec_parse_body(p, bytes)
    } else {
        match spec_next_token(bytes, p.next_byte, seq![13u8, 10u8, 13u8, 10u8]) {
            None => ParseOutcome::InProgress(p),
            Some(t) => spec_parse_body(
                PartialRequestModel {
                    request: RequestModel {
                        method: p.request.method,
                        target: p.request.target,
                        version: p.request.version,
                        header: spec_header_from_bytes(t.0),
                        body: p.request.body,
                    },
                    next_byte: t.1,
                },
                bytes,
            ),
        }
    }
}

/// The parser's version stage: the token runs to the first `\r\n`; a token
/// that is not valid text or names no known version rejects the request with
/// `501`.
pub open spec fn spec_parse_version(p: PartialRequestModel, bytes: Seq<u8>) -> ParseOutcome {
    if p.request.version is Some {
        spec_parse_header(p, bytes)
    } else {
        match spec_next_token(bytes, p.next_byte, seq![13u8, 10u8]) {
            None => ParseOutcome::InProgress(p),
            Some(t) => if !valid_utf8(t.0) {
                ParseOutcome::Rejected(HttpStatusCode::NotImplemented501)
            } else {
                match spec_version_from_str(decode_utf8(t.0)) {
                    None => ParseOutcome::Rejected(HttpStatusCode::NotImplemented501),
                    Some(v) => spec_parse_header(
                        PartialRequestModel {
                            request: RequestModel {
                                method: p.request.method,
                                target: p.request.target,
                                version: Some(v),
                                header: p.request.header,
                                body: p.request.body,
                            },
                            next_byte: t.1,
                        },
                        bytes,
                    ),
                }
            },
        }
    }
}

/// The parser's target stage: the token runs to the first space; a token that
/// is not valid text rejects the request with `501`.
pub open spec fn spec_parse_target(p: PartialRequestModel, bytes: Seq<u8>) -> ParseOutcome {
    if p.request.target is Some {
        spec_parse_version(p, bytes)
    } else {
        match spec_next_token(bytes, p.next_byte, seq![32u8]) {
            None => ParseOutcome::InProgress(p),
            Some(t) => if !valid_utf8(t.0) {
                ParseOutcome::Rejected(HttpStatusCode::NotImplemented501)
            } else {
                spec_parse_version(
                    PartialRequestModel {
                        request: RequestModel {
                            method: p.request.method,
                            target: Some(spec_target_from_str(decode_utf8(t.0))),
                            version: p.request.version,
                            header: p.request.header,
                            body: p.request.body,
                        },
                        next_byte: t.1,
                    },
                    bytes,
                )
            },
        }
    }
}

/// The parser's method stage: the token runs to the first space; a token that
/// is not valid text or names no known method rejects the request with `501`,
/// and nothing after the token is ever examined.
pub open spec fn spec_parse_method(p: PartialRequestModel, bytes: Seq<u8>) -> ParseOutcome {
    if p.request.method is Some {
        spec_parse_target(p, bytes)
    } else {
        match spec_next_token(bytes, p.next_byte, seq![32u8]) {
            None => ParseOutcome::InProgress(p),
            Some(t) => if !valid_utf8(t.0) {
                ParseOutcome::Rejected(HttpStatusCode::NotImplemented501)
            } else {
                match spec_method_from_str(decode_utf8(t.0)) {
                    None => ParseOutcome::Rejected(HttpStatusCode::NotImplemented501),
                    Some(m) => spec_parse_target(
                        PartialRequestModel {
                            request: RequestModel {
                                method: Some(m),
                                target: p.request.target,
                                version: p.request.version,
                                header: p.request.header,
                                body: p.request.body,
                            },
                            next_byte: t.1,
                        },
                        bytes,
                    ),
                }
            },
        }
    }
}

/// What one `try_parse` step decides, resuming from the saved progress `p`
/// over everything received so far: the fields are filled in strict order —
/// method, target, version, header, body — each gated on whether it is
/// already filled.
pub open spec fn spec_try_parse(p: PartialRequestModel, bytes: Seq<u8>) -> ParseOutcome {
    spec_parse_method(p, bytes)
}

/// One label stripped from the end of the host: the subdomain text before a
/// matched domain, minus a trailing `.`.
pub open spec fn spec_strip_trailing_dot(s: Seq<char>) -> Seq<char> {
    if s.len() > 0 && s[s.len() - 1] == '.' {
        s.take(s.len() - 1)
    } else {
        s
    }
}

/// The subdomain of `host` against the configured domains, first match
/// deciding: a host equal to a domain has no subdomain; a host ending in a
/// domain with characters before it has those characters (minus a trailing
/// `.`) as its subdomain; a domain that does not match is passed over.
pub open spec fn spec_subdomain_for_host(host: Seq<char>, domains: Seq<Seq<char>>) -> Option<
    Seq<char>,
>
    decreases domains.len(),
{
    if domains.len() == 0 {
        None
    } else if host == domains[0] {
        None
    } else if domains[0].len() < host.len() && host.skip(host.len() - domains[0].len())
        == domains[0] {
        Some(spec_strip_trailing_dot(host.take(host.len() - domains[0].len())))
    } else {
        spec_subdomain_for_host(host, domains.skip(1))
    }
}

/// The subdomain of a request: derived from its `Host` header field, absent
/// where the request has no header or no `Host` field.
pub open spec fn spec_subdomain(req: RequestModel, domains: Seq<Seq<char>>) -> Option<Seq<char>> {
    match req.header {
        None => None,
        Some(h) => match spec_header_get(h, spec_fieldname_text(HttpFieldName::Host)) {
            None => None,
            Some(host) => spec_subdomain_for_host(host, domains),
        },
    }
}

/// A token found in a buffer is the same token, at the same place, in every
/// extension of that buffer.
proof fn lemma_next_token_prefix(b1: Seq<u8>, b2: Seq<u8>, next_byte: int, delimiter: Seq<u8>)
    requires
        0 <= next_byte <= b1.len(),
        b1.len() <= b2.len(),
        b1 == b2.subrange(0, b1.len() as int),
        spec_next_token(b1, next_byte, delimiter) is Some,
    ensures
        spec_next_token(b2, next_byte, delimiter) == spec_next_token(b1, next_byte, delimiter),
{
    let h1 = b1.skip(next_byte);
    let h2 = b2.skip(next_byte);
    assert(h1 =~= h2.subrange(0, h1.len() as int));
    crate::helper::bytes::lemma_spec_find_prefix(h1, h2, delimiter);
    crate::helper::bytes::lemma_spec_find_characterization(h1, delimiter);
    let i = crate::helper::bytes::spec_find(h1, delimiter)->Some_0;
    assert(h1.take(i) =~= h2.take(i));
}

/// A token's end cursor stays within the buffer it was found in.
proof fn lemma_next_token_bound(b1: Seq<u8>, next_byte: int, delimiter: Seq<u8>)
    requires
        0 <= next_byte <= b1.len(),
        spec_next_token(b1, next_byte, delimiter) is Some,
    ensures
        next_byte <= spec_next_token(b1, next_byte, delimiter)->Some_0.1 <= b1.len(),
{
    crate::helper::bytes::lemma_spec_find_characterization(b1.skip(next_byte), delimiter);
}

/// The body stage asks for more bytes only with its progress unchanged, a
/// header present, and no body yet.
proof fn lemma_parse_body_resume(p: PartialRequestModel, p1: PartialRequestModel, b1: Seq<u8>)
    requires
        spec_parse_body(p, b1) == ParseOutcome::InProgress(p1),
    ensures
        p1 == p,
        p.request.header is Some,
        p.request.body is None,
{
}

/// Resuming the header stage on an extended buffer decides exactly what the
/// header stage decides on that buffer from the original progress.
proof fn lemma_parse_header_resume(
    p: PartialRequestModel,
    p1: PartialRequestModel,
    b1: Seq<u8>,
    b2: Seq<u8>,
)
    requires
        0 <= p.next_byte <= b1.len(),
        b1.len() <= b2.len(),
        b1 == b2.subrange(0, b1.len() as int),
        spec_parse_header(p, b1) == ParseOutcome::InProgress(p1),
    ensures
        spec_parse_header(p1, b2) == spec_parse_header(p, b2),
        p1.request.method == p.request.method,
        p1.request.target == p.request.target,
        p1.request.version == p.request.version,
        0 <= p1.next_byte <= b1.len(),
{
    let delimiter = seq![13u8, 10u8, 13u8, 10u8];
    if p.request.header is Some {
        lemma_parse_body_resume(p, p1, b1);
    } else {
        match spec_next_token(b1, p.next_byte, delimiter) {
            None => {
            },
            Some(t) => {
                lemma_next_token_bound(b1, p.next_byte, delimiter);
                let p_next = PartialRequestModel {
                    request: RequestModel {
                        method: p.request.method,
                        target: p.request.target,
                        version: p.request.version,
                        header: spec_header_from_bytes(t.0),
                        body: p.request.body,
                    },
                    next_byte: t.1,
                };
                lemma_parse_body_resume(p_next, p1, b1);
                lemma_next_token_prefix(b1, b2, p.next_byte, delimiter);
                assert(spec_parse_header(p, b2) == spec_parse_body(p_next, b2));
                assert(spec_parse_header(p1, b2) == spec_parse_body(p1, b2));
            },
        }
    }
}

/// Resuming the version stage on an extended buffer decides exactly what the
/// version stage decides on that buffer from the original progress.
proof fn lemma_parse_version_resume(
    p: PartialRequestModel,
    p1: PartialRequestModel,
    b1: Seq<u8>,
    b2: Seq<u8>,
)
    requires
        0 <= p.next_byte <= b1.len(),
        b1.len() <= b2.len(),
        b1 == b2.subrange(0, b1.len() as int),
        spec_parse_version(p, b1) == ParseOutcome::InProgress(p1),
    ensures
        spec_parse_version(p1, b2) == spec_parse_version(p, b2),
        p1.request.method == p.request.method,
        p1.request.target == p.request.target,
        0 <= p1.next_byte <= b1.len(),
{
    let delimiter = seq![13u8, 10u8];
    if p.request.version is Some {
        lemma_parse_header_resume(p, p1, b1, b2);
    } else {
        match spec_next_token(b1, p.next_byte, delimiter) {
            None => {
            },
            Some(t) => {
                lemma_next_token_bound(b1, p.next_byte, delimiter);
                let v = spec_version_from_str(decode_utf8(t.0))->Some_0;
                let p_next = PartialRequestModel {
                    request: RequestModel {
                        method: p.request.method,
                        target: p.request.target,
                        version: Some(v),
                        header: p.request.header,
                        body: p.request.body,
                    },
                    next_byte: t.1,
                };
                lemma_parse_header_resume(p_next, p1, b1, b2);
                lemma_next_token_prefix(b1, b2, p.next_byte, delimiter);
                assert(spec_parse_version(p, b2) == spec_parse_header(p_next, b2));
                assert(spec_parse_version(p1, b2) == spec_parse_header(p1, b2));
            },
        }
    }
}

/// Resuming the target stage on an extended buffer decides exactly what the
/// target stage decides on that buffer from the original progress.
proof fn lemma_parse_target_resume(
    p: PartialRequestModel,
    p1: PartialRequestModel,
    b1: Seq<u8>,
    b2: Seq<u8>,
)
    requires
        0 <= p.next_byte <= b1.len(),
        b1.len() <= b2.len(),
        b1 == b2.subrange(0, b1.len() as int),
        spec_parse_target(p, b1) == ParseOutcome::InProgress(p1),
    ensures
        spec_parse_target(p1, b2) == spec_parse_target(p, b2),
        p1.request.method == p.request.method,
        0 <= p1.next_byte <= b1.len(),
{
    let delimiter = seq![32u8];
    if p.request.target is Some {
        lemma_parse_version_resume(p, p1, b1, b2);
    } else {
        match spec_next_token(b1, p.next_byte, delimiter) {
            None => {
            },
            Some(t) => {
                lemma_next_token_bound(b1, p.next_byte, delimiter);
                let p_next = PartialRequestModel {
                    request: RequestModel {
                        method: p.request.method,
                        target: Some(spec_target_from_str(decode_utf8(t.0))),
                        version: p.request.version,
                        header: p.request.header,
                        body: p.request.body,
                    },
                    next_byte: t.1,
                };
                lemma_parse_version_resume(p_next, p1, b1, b2);
                lemma_next_token_prefix(b1, b2, p.next_byte, delimiter);
                assert(spec_parse_target(p, b2) == spec_parse_version(p_next, b2));
                assert(spec_parse_target(p1, b2) == spec_parse_version(p1, b2));
            },
        }
    }
}

/// The body stage's finished outcomes do not change when more bytes arrive.
proof fn lemma_parse_body_stable(p: PartialRequestModel, b1: Seq<u8>, b2: Seq<u8>)
    requires
        0 <= p.next_byte <= b1.len(),
        b1.len() <= b2.len(),
        b1 == b2.subrange(0, b1.len() as int),
        !(spec_parse_body(p, b1) is InProgress),
    ensures
        spec_parse_body(p, b2) == spec_parse_body(p, b1),
{
    if p.request.body is None {
        if let Some(h) = p.request.header {
            if let Some(v) = spec_header_get(h, spec_fieldname_text(HttpFieldName::ContentLength)) {
                if let Some(n) = spec_parse_usize(v) {
                    crate::helper::text::lemma_spec_digits_nonneg(
                        crate::helper::text::spec_number_body(v),
                    );
                    if n <= usize::MAX && p.next_byte + n <= b1.len() {
                        assert(b1.skip(p.next_byte).take(n) =~= b2.skip(p.next_byte).take(n));
                    }
                }
            }
        }
    }
}

/// The header stage's finished outcomes do not change when more bytes arrive.
proof fn lemma_parse_header_stable(p: PartialRequestModel, b1: Seq<u8>, b2: Seq<u8>)
    requires
        0 <= p.next_byte <= b1.len(),
        b1.len() <= b2.len(),
        b1 == b2.subrange(0, b1.len() as int),
        !(spec_parse_header(p, b1) is InProgress),
    ensures
        spec_parse_header(p, b2) == spec_parse_header(p, b1),
{
    let delimiter = seq![13u8, 10u8, 13u8, 10u8];
    if p.request.header is Some {
        lemma_parse_body_stable(p, b1, b2);
    } else {
        let t = spec_next_token(b1, p.next_byte, delimiter)->Some_0;
        lemma_next_token_bound(b1, p.next_byte, delimiter);
        let p_next = PartialRequestModel {
            request: RequestModel {
                method: p.request.method,
                target: p.request.target,
                version: p.request.version,
                header: spec_header_from_bytes(t.0),
                body: p.request.body,
            },
            next_byte: t.1,
        };
        lemma_parse_body_stable(p_next, b1, b2);
        lemma_next_token_prefix(b1, b2, p.next_byte, delimiter);
    }
}

/// The version stage's finished outcomes do not change when more bytes
/// arrive.
proof fn lemma_parse_version_stable(p: PartialRequestModel, b1: Seq<u8>, b2: Seq<u8>)
    requires
        0 <= p.next_byte <= b1.len(),
        b1.len() <= b2.len(),
        b1 == b2.subrange(0, b1.len() as int),
        !(spec_parse_version(p, b1) is InProgress),
    ensures
        spec_parse_version(p, b2) == spec_parse_version(p, b1),
{
    let delimiter = seq![13u8, 10u8];
    if p.request.version is Some {
        lemma_parse_header_stable(p, b1, b2);
    } else {
        let t = spec_next_token(b1, p.next_byte, delimiter)->Some_0;
        lemma_next_token_bound(b1, p.next_byte, delimiter);
        lemma_next_token_prefix(b1, b2, p.next_byte, delimiter);
        if valid_utf8(t.0) {
            if let Some(v) = spec_version_from_str(decode_utf8(t.0)) {
                let p_next = PartialRequestModel {
                    request: RequestModel {
                        method: p.request.method,
                        target: p.request.target,
                        version: Some(v),
                        header: p.request.header,
                        body: p.request.body,
                    },
                    next_byte: t.1,
                };
                lemma_parse_header_stable(p_next, b1, b2);
            }
        }
    }
}

/// The target stage's finished outcomes do not change when more bytes arrive.
proof fn lemma_parse_target_stable(p: PartialRequestModel, b1: Seq<u8>, b2: Seq<u8>)
    requires
        0 <= p.next_byte <= b1.len(),
        b1.len() <= b2.len(),
        b1 == b2.subrange(0, b1.len() as int),
        !(spec_parse_target(p, b1) is InProgress),
    ensures
        spec_parse_target(p, b2) == spec_parse_target(p, b1),
{
    let delimiter = seq![32u8];
    if p.request.target is Some {
        lemma_parse_version_stable(p, b1, b2);
    } else {
        let t = spec_next_token(b1, p.next_byte, delimiter)->Some_0;
        lemma_next_token_bound(b1, p.next_byte, delimiter);
        lemma_next_token_prefix(b1, b2, p.next_byte, delimiter);
        if valid_utf8(t.0) {
            let p_next = PartialRequestModel {
                request: RequestModel {
                    method: p.request.method,
                    target: Some(spec_target_from_str(decode_utf8(t.0))),
                    version: p.request.version,
                    header: p.request.header,
                    body: p.request.body,
                },
                next_byte: t.1,
            };
            lemma_parse_version_stable(p_next, b1, b2);
        }
    }
}

/// **Finished outcomes are final.** A parse that accepted or rejected its
/// request decides the same on every extension of its buffer: bytes that
/// arrive after a request has finished cannot change its outcome.
pub proof fn lemma_try_parse_finished_stable(p: PartialRequestModel, b1: Seq<u8>, b2: Seq<u8>)
    requires
        0 <= p.next_byte <= b1.len(),
        b1.len() <= b2.len(),
        b1 == b2.subrange(0, b1.len() as int),
        !(spec_try_parse(p, b1) is InProgress),
    ensures
        spec_try_parse(p, b2) == spec_try_parse(p, b1),
{
    let delimiter = seq![32u8];
    if p.request.method is Some {
        lemma_parse_target_stable(p, b1, b2);
    } else {
        let t = spec_next_token(b1, p.next_byte, delimiter)->Some_0;
        lemma_next_token_bound(b1, p.next_byte, delimiter);
        lemma_next_token_prefix(b1, b2, p.next_byte, delimiter);
        if valid_utf8(t.0) {
            if let Some(m) = spec_method_from_str(decode_utf8(t.0)) {
                let p_next = PartialRequestModel {
                    request: RequestModel {
                        method: Some(m),
                        target: p.request.target,
                        version: p.request.version,
                        header: p.request.header,
                        body: p.request.body,
                    },
                    next_byte: t.1,
                };
                lemma_parse_target_stable(p_next, b1, b2);
            }
        }
    }
}

/// **Idempotent resumption.** A parse that asked for more bytes, resumed on
/// any extension of its buffer, decides exactly what a single parse from the
/// original progress decides on that extension: feeding a growing buffer
/// through `try_parse` chunk by chunk ends with the same outcome as one call
/// on the complete buffer, whatever the chunk boundaries.
pub proof fn lemma_try_parse_resumption(
    p: PartialRequestModel,
    p1: PartialRequestModel,
    b1: Seq<u8>,
    b2: Seq<u8>,
)
    requires
        0 <= p.next_byte <= b1.len(),
        b1.len() <= b2.len(),
        b1 == b2.subrange(0, b1.len() as int),
        spec_try_parse(p, b1) == ParseOutcome::InProgress(p1),
    ensures
        spec_try_parse(p1, b2) == spec_try_parse(p, b2),
        0 <= p1.next_byte <= b1.len(),
{
    let delimiter = seq![32u8];
    if p.request.method is Some {
        lemma_parse_target_resume(p, p1, b1, b2);
    } else {
        match spec_next_token(b1, p.next_byte, delimiter) {
            None => {
            },
            Some(t) => {
                lemma_next_token_bound(b1, p.next_byte, delimiter);
                let m = spec_method_from_str(decode_utf8(t.0))->Some_0;
                let p_next = PartialRequestModel {
                    request: RequestModel {
                        method: Some(m),
                        target: p.request.target,
                        version: p.request.version,
                        header: p.request.header,
                        body: p.request.body,
                    },
                    next_byte: t.1,
                };
                lemma_parse_target_resume(p_next, p1, b1, b2);
                lemma_next_token_prefix(b1, b2, p.next_byte, delimiter);
                assert(spec_parse_method(p, b2) == spec_parse_target(p_next, b2));
                assert(spec_parse_method(p1, b2) == spec_parse_target(p1, b2));
            },
        }
    }
}

impl HttpRequest {
    /// Tries to parse everything received so far into a request, resuming
    /// from the supplied progress.
    ///
    /// Returns `InProgress` with the saved progress while a field's delimiter
    /// has not arrived — the caller supplies a longer buffer and calls again;
    /// already-filled fields are then skipped, so re-invocation resumes
    /// exactly where it left off. A malformed or unknown request-line token
    /// finishes immediately with `501`, the header and body never examined; a
    /// header block that parses to nothing is kept absent and parsing goes
    /// on; a non-numeric `Content-Length` finishes with `400`; a numeric one
    /// asks for more bytes until the declared span has arrived.
    #[verifier::rlimit(60)]
    pub fn try_parse(partial_request: &PartialHttpRequest, request_bytes: &[u8]) -> (r: Processing<
        PartialHttpRequest,
        Result<HttpRequest, (ParseError, HttpStatusCode)>,
    >)
        requires
            partial_request@.next_byte <= request_bytes@.len(),
        ensures
            match r {
                Processing::InProgress(p) => spec_try_parse(partial_request@, request_bytes@)
                    == ParseOutcome::InProgress(p@) && p@.next_byte <= request_bytes@.len(),
                Processing::Finished(result) => match result {
                    Ok(request) => spec_try_parse(partial_request@, request_bytes@)
                        == ParseOutcome::Accepted(request@),
                    Err(e) => spec_try_parse(partial_request@, request_bytes@)
                        == ParseOutcome::Rejected(e.1) && e.0 == ParseError::InvalidInput,
                },
            },
    {
        let ghost p0 = partial_request@;
        let ghost b = request_bytes@;
        let mut partial_request = partial_request.clone();
        let mut space: Vec<u8> = Vec::new();
        space.push(32);
        let mut crlf: Vec<u8> = Vec::new();
        crlf.push(13);
        crlf.push(10);
        let mut crlf2: Vec<u8> = Vec::new();
        crlf2.push(13);
        crlf2.push(10);
        crlf2.push(13);
        crlf2.push(10);
        proof {
            assert(space@ =~= seq![32u8]);
            assert(crlf@ =~= seq![13u8, 10u8]);
            assert(crlf2@ =~= seq![13u8, 10u8, 13u8, 10u8]);
        }

        // Method
        if partial_request.request.method.is_none() {
            let token = match Self::find_until(&mut partial_request, request_bytes, space.as_slice()) {
                None => {
                    return Processing::InProgress(partial_request);
                },
                Some(t) => t,
            };
            let slice = match bytes_to_str(token) {
                None => {
                    return Processing::Finished(
                        Err((ParseError::InvalidInput, HttpStatusCode::NotImplemented501)),
                    );
                },
                Some(s) => s,
            };
            match HttpMethod::from_str(slice) {
                None => {
                    return Processing::Finished(
                        Err((ParseError::InvalidInput, HttpStatusCode::NotImplemented501)),
                    );
                },
                Some(method) => {
                    partial_request.request.method = Some(method);
                },
            }
        }
        proof {
            assert(spec_try_parse(p0, b) == spec_parse_target(partial_request@, b));
        }
        let ghost p_target = partial_request@;

        // Target
        if partial_request.request.target.is_none() {
            let token = match Self::find_until(&mut partial_request, request_bytes, space.as_slice()) {
                None => {
                    return Processing::InProgress(partial_request);
                },
                Some(t) => t,
            };
            let slice = match bytes_to_str(token) {
                None => {
                    return Processing::Finished(
                        Err((ParseError::InvalidInput, HttpStatusCode::NotImplemented501)),
                    );
                },
                Some(s) => s,
            };
            match HttpTarget::from_str(slice) {
                Err(()) => {
                    return Processing::Finished(
                        Err((ParseError::InvalidInput, HttpStatusCode::NotImplemented501)),
                    );
                },
                Ok(target) => {
                    partial_request.request.target = Some(target);
                },
            }
        }
        proof {
            assert(spec_parse_target(p_target, b) == spec_parse_version(partial_request@, b));
        }
        let ghost p_version = partial_request@;

        // Version
        if partial_request.request.version.is_none() {
            let token = match Self::find_until(&mut partial_request, request_bytes, crlf.as_slice()) {
                None => {
                    return Processing::InProgress(partial_request);
                },
                Some(t) => t,
            };
            let slice = match bytes_to_str(token) {
                None => {
                    return Processing::Finished(
                        Err((ParseError::InvalidInput, HttpStatusCode::NotImplemented501)),
                    );
                },
                Some(s) => s,
            };
            match HttpVersion::from_str(slice) {
                None => {
                    return Processing::Finished(
                        Err((ParseError::InvalidInput, HttpStatusCode::NotImplemented501)),
                    );
                },
                Some(version) => {
                    partial_request.request.version = Some(version);
                },
            }
        }
        proof {
            assert(spec_parse_version(p_version, b) == spec_parse_header(partial_request@, b));
        }
        let ghost p_header = partial_request@;

        // Header
        if partial_request.request.header.is_none() {
            let token = match Self::find_until(&mut partial_request, request_bytes, crlf2.as_slice()) {
                None => {
                    return Processing::InProgress(partial_request);
                },
                Some(t) => t,
            };
            partial_request.request.header = HttpHeader::from_bytes(token);
        }
        proof {
            assert(spec_parse_header(p_header, b) == spec_parse_body(partial_request@, b));
        }
        Self::parse_body_stage(partial_request, request_bytes)
    }

    fn parse_body_stage(partial_request: PartialHttpRequest, request_bytes: &[u8]) -> (r:
        Processing<PartialHttpRequest, Result<HttpRequest, (ParseError, HttpStatusCode)>>)
        requires
            partial_request@.next_byte <= request_bytes@.len(),
        ensures
            match r {
                Processing::InProgress(p) => spec_parse_body(partial_request@, request_bytes@)
                    == ParseOutcome::InProgress(p@) && p@.next_byte <= request_bytes@.len(),
                Processing::Finished(result) => match result {
                    Ok(request) => spec_parse_body(partial_request@, request_bytes@)
                        == ParseOutcome::Accepted(request@),
                    Err(e) => spec_parse_body(partial_request@, request_bytes@)
                        == ParseOutcome::Rejected(e.1) && e.0 == ParseError::InvalidInput,
                },
            },
    {
        let ghost p_body = partial_request@;
        let ghost b = request_bytes@;
        let mut partial_request = partial_request;
        if partial_request.request.body.is_none() {
            let declared_length: Option<usize> = match &partial_request.request.header {
                None => None,
                Some(header) => match header.get_value(HttpFieldName::ContentLength.as_str()) {
                    None => None,
                    Some(length_text) => match parse_usize(length_text.as_str()) {
                        None => {
                            proof {
                                assert(p_body.request.header == Some(header@));
                                assert(spec_header_get(
                                    header@,
                                    spec_fieldname_text(HttpFieldName::ContentLength),
                                ) == Some(length_text@));
                                assert(spec_parse_body(p_body, b) == ParseOutcome::Rejected(
                                    HttpStatusCode::BadRequest400,
                                ));
                            }
                            return Processing::Finished(
                                Err((ParseError::InvalidInput, HttpStatusCode::BadRequest400)),
                            );
                        },
                        Some(n) => {
                            proof {
                                assert(p_body.request.header == Some(header@));
                                assert(spec_header_get(
                                    header@,
                                    spec_fieldname_text(HttpFieldName::ContentLength),
                                ) == Some(length_text@));
                                assert(spec_parse_usize(length_text@) == Some(n as int));
                            }
                            Some(n)
                        },
                    },
                },
            };
            if let Some(length) = declared_length {
                let next_byte = partial_request.next_byte;
                if length > request_bytes.len() - next_byte {
                    proof {
                        assert(p_body == partial_request@);
                        assert(p_body.request.body is None);
                        assert(p_body.request.header is Some);
                        let h = p_body.request.header->Some_0;
                        let key = spec_fieldname_text(HttpFieldName::ContentLength);
                        assert(spec_header_get(h, key) is Some);
                        let v = spec_header_get(h, key)->Some_0;
                        assert(spec_parse_usize(v) == Some(length as int));
                        assert(length <= usize::MAX);
                        assert(p_body.next_byte + length > b.len());
                        assert(spec_parse_body(p_body, b) == ParseOutcome::InProgress(
                            partial_request@,
                        ));
                    }
                    return Processing::InProgress(partial_request);
                }
                let body_slice = slice_subrange(request_bytes, next_byte, next_byte + length);
                let body = slice_to_vec(body_slice);
                proof {
                    assert(body@ =~= b.skip(p_body.next_byte).take(length as int));
                    assert(body.deep_view() =~= b.skip(p_body.next_byte).take(length as int));
                }
                partial_request.request.body = Some(body);
            }
        }
        proof {
            assert(spec_parse_body(p_body, b) == ParseOutcome::Accepted(partial_request.request@));
        }
        Processing::Finished(Ok(partial_request.request))
    }

    /// Returns the subdomain the request's `Host` field names against the
    /// configured domains: the text before the first domain the host ends
    /// with (minus a trailing `.`), or nothing where the host equals a domain
    /// exactly or no domain matches.
    pub fn subdomain(&self, domain_names: &Vec<String>) -> (r: Option<&str>)
        ensures
            match r {
                Some(s) => spec_subdomain(self@, domain_names.deep_view()) == Some(s@),
                None => spec_subdomain(self@, domain_names.deep_view()) is None,
            },
    {
        let header = match &self.header {
            None => {
                return None;
            },
            Some(header) => header,
        };
        let host = match header.get_value(HttpFieldName::Host.as_str()) {
            None => {
                return None;
            },
            Some(host) => host,
        };
        let host_str = host.as_str();
        let host_len = host_str.unicode_len();
        let ghost domains = domain_names.deep_view();
        let n = domain_names.len();
        let mut k: usize = 0;
        proof {
            assert(domains.skip(0) =~= domains);
            assert(spec_subdomain(self@, domains) == spec_subdomain_for_host(host_str@, domains));
        }
        while k < n
            invariant
                n == domain_names@.len(),
                domains == domain_names.deep_view(),
                host_len == host_str@.len(),
                k <= n,
                spec_subdomain(self@, domains) == spec_subdomain_for_host(
                    host_str@,
                    domains.skip(k as int),
                ),
            decreases n - k,
        {
            proof {
                assert(domains.skip(k as int)[0] == domains[k as int]);
                assert(domains[k as int] == domain_names@[k as int]@);
            }
            let domain = domain_names[k].as_str();
            let domain_len = domain.unicode_len();
            if eq_str(host_str, domain) {
                return None;
            }
            if ends_with_str(host_str, domain) {
                proof {
                    if domain@.len() == host_str@.len() {
                        assert(host_str@.skip(0) =~= host_str@);
                    }
                }
                let subdomain = host_str.substring_char(0, host_len - domain_len);
                proof {
                    assert(subdomain@ =~= host_str@.take(host_len - domain_len));
                }
                if ends_with_char(subdomain, '.') {
                    let sub_len = host_len - domain_len;
                    let stripped = host_str.substring_char(0, sub_len - 1);
                    proof {
                        assert(stripped@ =~= host_str@.take(host_len - domain_len).take(
                            sub_len - 1,
                        ));
                    }
                    return Some(stripped);
                } else {
                    return Some(subdomain);
                }
            }
            proof {
                assert(domains.skip(k as int).skip(1) =~= domains.skip(k + 1));
            }
            k += 1;
        }
        proof {
            assert(domains.skip(k as int) =~= Seq::<Seq<char>>::empty());
        }
        None
    }

    fn find_until<'a>(
        partial_request: &mut PartialHttpRequest,
        request_bytes: &'a [u8],
        delimiter: &[u8],
    ) -> (r: Option<&'a [u8]>)
        requires
            old(partial_request)@.next_byte <= request_bytes@.len(),
        ensures
            match spec_next_token(
                request_bytes@,
                old(partial_request)@.next_byte,
                delimiter@,
            ) {
                None => r is None && final(partial_request)@ == old(partial_request)@,
                Some(t) => {
                    &&& r matches Some(token) && token@ == t.0
                    &&& final(partial_request)@.request == old(partial_request)@.request
                    &&& final(partial_request)@.next_byte == t.1
                    &&& final(partial_request)@.next_byte <= request_bytes@.len()
                },
            },
    {
        let start_index = partial_request.next_byte;
        let len = request_bytes.len();
        let unprocessed = slice_subrange(request_bytes, start_index, len);
        proof {
            assert(unprocessed@ =~= request_bytes@.skip(start_index as int));
        }
        match find(unprocessed, delimiter) {
            None => None,
            Some(index) => {
                proof {
                    crate::helper::bytes::lemma_spec_find_characterization(
                        unprocessed@,
                        delimiter@,
                    );
                }
                let end_index = start_index + index;
                partial_request.next_byte = end_index + delimiter.len();
                let token = slice_subrange(request_bytes, start_index, end_index);
                proof {
                    assert(token@ =~= request_bytes@.skip(start_index as int).take(index as int));
                }
                Some(token)
            },
        }
    }
}

} // verus!
