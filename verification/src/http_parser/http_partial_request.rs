use super::http_request::{HttpRequest, PartialRequestModel, RequestModel};
use super::http_version::HttpVersion;
use vstd::prelude::*;

verus! {

/// The saved progress of one request's parse: the request fields filled so
/// far, and the cursor into the logical byte stream at which the next
/// unparsed field starts. The cursor only ever advances.
pub struct PartialHttpRequest {
    pub request: HttpRequest,
    pub next_byte: usize,
}

impl View for PartialHttpRequest {
    type V = PartialRequestModel;

    open spec fn view(&self) -> PartialRequestModel {
        PartialRequestModel { request: self.request@, next_byte: self.next_byte as int }
    }
}

impl Clone for PartialHttpRequest {
    /// The clone holds the same progress.
    fn clone(&self) -> (r: Self)
        ensures
            r@ == self@,
    {
        PartialHttpRequest { request: self.request.clone(), next_byte: self.next_byte }
    }
}

impl PartialHttpRequest {
    /// Returns the progress of a parse that has not yet begun: an empty
    /// request and the cursor at the start of the stream.
    pub fn new() -> (r: Self)
        ensures
            r@.request == (RequestModel {
                method: None,
                target: None,
                version: None,
                header: None,
                body: None,
            }),
            r@.next_byte == 0,
    {
        PartialHttpRequest { request: HttpRequest::default(), next_byte: 0 }
    }

    /// Returns the version field parsed so far.
    pub fn version(&self) -> (r: &Option<HttpVersion>)
        ensures
            *r == self.request.version,
    {
        &self.request.version
    }
}

} // verus!
