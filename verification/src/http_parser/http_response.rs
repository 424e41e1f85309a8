use super::http_header::{HeaderModel, HttpHeader};
use super::http_status_code::{spec_status_text, HttpStatusCode};
use super::http_version::{spec_version_text, HttpVersion};
use vstd::prelude::*;
use vstd::slice::slice_to_vec;
use vstd::string::StrSliceExecFns;
use vstd::utf8::encode_utf8;

verus! {

/// One HTTP response: version and status always present, header and body
/// optional — serializable whatever is set.
pub struct HttpResponse {
    pub version: HttpVersion,
    pub status_code: HttpStatusCode,
    pub header: Option<HttpHeader>,
    pub body: Option<Vec<u8>>,
}

/// The mathematical content of a response.
pub struct ResponseModel {
    pub version: HttpVersion,
    pub status_code: HttpStatusCode,
    pub header: Option<HeaderModel>,
    pub body: Option<Seq<u8>>,
}

impl View for HttpResponse {
    type V = ResponseModel;

    open spec fn view(&self) -> ResponseModel {
        ResponseModel {
            version: self.version,
            status_code: self.status_code,
            header: match self.header {
                Some(ref h) => Some(h@),
                None => None,
            },
            body: self.body.deep_view(),
        }
    }
}

/// The wire bytes of one header field: name, `": "`, value, `"\r\n"`.
pub open spec fn spec_field_line_bytes(f: (Seq<char>, Seq<char>)) -> Seq<u8> {
    encode_utf8(f.0) + seq![58u8, 32u8] + encode_utf8(f.1) + seq![13u8, 10u8]
}

/// The wire bytes of a header block: its field lines in storage order.
pub open spec fn spec_header_block_bytes(h: HeaderModel) -> Seq<u8>
    decreases h.len(),
{
    if h.len() == 0 {
        Seq::empty()
    } else {
        spec_header_block_bytes(h.take(h.len() - 1)) + spec_field_line_bytes(h[h.len() - 1])
    }
}

/// The wire bytes of a response: the status line `"<version> <status>\r\n"`,
/// each header line followed by `"\r\n"`, a blank line, then the raw body
/// verbatim.
pub open spec fn spec_response_bytes(m: ResponseModel) -> Seq<u8> {
    encode_utf8(spec_version_text(m.version)) + seq![32u8] + encode_utf8(
        spec_status_text(m.status_code),
    ) + seq![13u8, 10u8] + (match m.header {
        None => Seq::<u8>::empty(),
        Some(h) => spec_header_block_bytes(h),
    }) + seq![13u8, 10u8] + (match m.body {
        None => Seq::<u8>::empty(),
        Some(body) => body,
    })
}

impl HttpResponse {
    /// Returns a response assembled from copies of the given parts.
    pub fn new(
        version: &HttpVersion,
        status_code: &HttpStatusCode,
        header: &Option<&HttpHeader>,
        body: &Option<&[u8]>,
    ) -> (r: Self)
        ensures
            r@.version == *version,
            r@.status_code == *status_code,
            match *header {
                Some(h) => r@.header == Some(h@),
                None => r@.header is None,
            },
            match *body {
                Some(b) => r@.body == Some(b@),
                None => r@.body is None,
            },
    {
        HttpResponse {
            version: *version,
            status_code: *status_code,
            header: match header {
                None => None,
                Some(h) => Some((*h).clone()),
            },
            body: match body {
                None => None,
                Some(b) => {
                    let copy = slice_to_vec(b);
                    proof {
                        assert(copy.deep_view() =~= b@);
                    }
                    Some(copy)
                },
            },
        }
    }

    /// Serializes the response into the exact byte sequence to write to the
    /// wire.
    pub fn as_bytes(&self) -> (r: Vec<u8>)
        ensures
            r@ == spec_response_bytes(self@),
    {
        let mut bytes: Vec<u8> = Vec::new();
        let mut version_bytes = self.version.as_str().as_bytes_vec();
        bytes.append(&mut version_bytes);
        bytes.push(32);
        let mut status_bytes = self.status_code.as_str().as_bytes_vec();
        bytes.append(&mut status_bytes);
        bytes.push(13);
        bytes.push(10);
        let ghost head = encode_utf8(spec_version_text(self@.version)) + seq![32u8] + encode_utf8(
            spec_status_text(self@.status_code),
        ) + seq![13u8, 10u8];
        proof {
            assert(bytes@ =~= head);
        }
        match &self.header {
            None => {},
            Some(header) => {
                let n = header.len();
                let mut i: usize = 0;
                proof {
                    assert(spec_header_block_bytes(header@.take(0)) =~= Seq::<u8>::empty());
                    assert(bytes@ =~= head + spec_header_block_bytes(header@.take(0)));
                }
                while i < n
                    invariant
                        self@.header == Some(header@),
                        n == header@.len(),
                        i <= n,
                        bytes@ == head + spec_header_block_bytes(header@.take(i as int)),
                    decreases n - i,
                {
                    let (name, value) = header.field_at(i);
                    let mut name_bytes = name.as_str().as_bytes_vec();
                    bytes.append(&mut name_bytes);
                    bytes.push(58);
                    bytes.push(32);
                    let mut value_bytes = value.as_str().as_bytes_vec();
                    bytes.append(&mut value_bytes);
                    bytes.push(13);
                    bytes.push(10);
                    proof {
                        assert(header@.take(i + 1).take(i as int) =~= header@.take(i as int));
                        assert(header@.take(i + 1)[i as int] == header@[i as int]);
                        assert(bytes@ =~= head + spec_header_block_bytes(header@.take(i + 1)));
                    }
                    i += 1;
                }
                proof {
                    assert(header@.take(n as int) =~= header@);
                }
            },
        }
        bytes.push(13);
        bytes.push(10);
        match &self.body {
            None => {},
            Some(body) => {
                bytes.extend_from_slice(body.as_slice());
                proof {
                    assert forall|k: int| 0 <= k < body@.len() implies bytes@[bytes@.len()
                        - body@.len() + k] == body@[k] by {
                        assert(vstd::pervasive::cloned::<u8>(
                            body@[k],
                            bytes@[bytes@.len() - body@.len() + k],
                        ));
                    }
                }
            },
        }
        proof {
            assert(bytes@ =~= spec_response_bytes(self@));
        }
        bytes
    }
}

} // verus!
