//! Virtual-host path resolution and the pure parts of request handling: given
//! a parsed request and the server configuration, which filesystem path to
//! open, and how to assemble the responses the handlers send. The socket loop
//! and the filesystem reads themselves live outside this crate.

use crate::config::{Config, ConfigModel};
use crate::helper::text::{
    ends_with_char, rfind_char, spec_rfind_char, spec_usize_chars, usize_to_string,
};
use crate::http_parser::http_fieldname::spec_fieldname_text;
use crate::http_parser::http_header::spec_header_insert;
use crate::http_parser::http_request::{
    spec_subdomain, RequestModel, HttpRequest,
};
use crate::http_parser::http_response::HttpResponse;
use crate::http_parser::http_status_code::HttpStatusCode;
use crate::http_parser::http_target::{
    spec_set_filename, spec_target_filename, spec_with_slash, TargetModel,
};
use crate::http_parser::http_version::HttpVersion;
use crate::http_parser::{HttpFieldName, HttpHeader, HttpTarget, HttpTargetParameters};
use vstd::prelude::*;
use vstd::string::StrSliceExecFns;
use vstd::string::StringExecFns;

verus! {

/// A subdomain rewritten as a directory path: its dot-separated labels become
/// nested directories read right to left, so the label nearest the domain is
/// the outermost directory.
pub open spec fn spec_subdomain_as_path(s: Seq<char>) -> Seq<char>
    decreases s.len(),
    via spec_subdomain_as_path_decreases
{
    match spec_rfind_char(s, '.') {
        None => s,
        Some(i) => s.skip(i + 1) + seq!['/'] + spec_subdomain_as_path(s.take(i)),
    }
}

#[via_fn]
proof fn spec_subdomain_as_path_decreases(s: Seq<char>) {
    if let Some(i) = spec_rfind_char(s, '.') {
        crate::helper::text::lemma_spec_rfind_char_characterization(s, '.');
    }
}

/// The directory prefix a request's virtual host maps to: the root site's
/// directory where the host names no subdomain, else the subdomain tree's
/// directory extended by the subdomain's labels as nested directories.
pub open spec fn spec_target_prefix(config: ConfigModel, req: RequestModel) -> Seq<char> {
    match spec_subdomain(req, config.domain_names) {
        None => config.top_directory + seq!['/'] + config.root_directory,
        Some(sub) => config.top_directory + seq!['/'] + config.subdomain_directory + seq!['/']
            + spec_subdomain_as_path(sub),
    }
}

/// The target of a request, or an empty one where it has none.
pub open spec fn spec_target_or_empty(req: RequestModel) -> TargetModel {
    match req.target {
        None => TargetModel { path: None, parameters: None },
        Some(t) => t,
    }
}

/// The request after the virtual-host prefix is prepended to its target path
/// (a missing target counts as an empty path).
pub open spec fn spec_add_target_prefix(config: ConfigModel, req: RequestModel) -> RequestModel {
    RequestModel {
        method: req.method,
        target: Some(
            TargetModel {
                path: Some(
                    spec_target_prefix(config, req) + (match spec_target_or_empty(req).path {
                        None => Seq::<char>::empty(),
                        Some(p) => p,
                    }),
                ),
                parameters: spec_target_or_empty(req).parameters,
            },
        ),
        version: req.version,
        header: req.header,
        body: req.body,
    }
}

/// The request after its target filename is replaced (a missing target is
/// created empty first).
pub open spec fn spec_set_request_filename(req: RequestModel, name: Seq<char>) -> RequestModel {
    RequestModel {
        method: req.method,
        target: Some(spec_set_filename(spec_target_or_empty(req), name)),
        version: req.version,
        header: req.header,
        body: req.body,
    }
}

/// The request after its target filename is set only where it has none.
pub open spec fn spec_set_request_filename_if_none(req: RequestModel, name: Seq<char>) -> RequestModel {
    if spec_target_filename(spec_target_or_empty(req)) is None {
        spec_set_request_filename(req, name)
    } else {
        req
    }
}

/// The request after path resolution: the virtual-host prefix prepended, and
/// the default filename supplied where the path names a directory.
pub open spec fn spec_resolve(config: ConfigModel, req: RequestModel) -> RequestModel {
    spec_set_request_filename_if_none(
        spec_add_target_prefix(config, req),
        config.request_default_filename,
    )
}

/// The per-virtual-host fallback path for a request whose file was not found:
/// the host's own directory prefix, one `/`, and the configured not-found
/// filename.
pub open spec fn spec_not_found_path(config: ConfigModel, req: RequestModel) -> Seq<char> {
    spec_with_slash(spec_target_prefix(config, req)) + config.not_found_filename
}

/// Rewrites a subdomain as a directory path, each label one directory deeper,
/// labels read right to left.
pub fn subdomain_as_path(subdomain: &str) -> (r: String)
    ensures
        r@ == spec_subdomain_as_path(subdomain@),
{
    let mut path = String::new();
    let mut hi = subdomain.unicode_len();
    proof {
        assert(subdomain@.take(hi as int) =~= subdomain@);
    }
    loop
        invariant
            hi <= subdomain@.len(),
            spec_subdomain_as_path(subdomain@) == path@ + spec_subdomain_as_path(
                subdomain@.take(hi as int),
            ),
        decreases hi,
    {
        let prefix = subdomain.substring_char(0, hi);
        proof {
            assert(prefix@ =~= subdomain@.take(hi as int));
        }
        match rfind_char(prefix, '.') {
            None => {
                path.append(prefix);
                proof {
                    assert(path@ =~= spec_subdomain_as_path(subdomain@));
                }
                return path;
            },
            Some(i) => {
                proof {
                    crate::helper::text::lemma_spec_rfind_char_characterization(prefix@, '.');
                }
                let label = subdomain.substring_char(i + 1, hi);
                path.append(label);
                path.append("/");
                proof {
                    reveal_strlit("/");
                    assert(label@ =~= prefix@.skip(i + 1));
                    assert(subdomain@.take(hi as int).take(i as int) =~= subdomain@.take(
                        i as int,
                    ));
                    assert(path@ + spec_subdomain_as_path(subdomain@.take(i as int))
                        =~= spec_subdomain_as_path(subdomain@));
                }
                hi = i;
            },
        }
    }
}

/// Returns the directory prefix for the request's virtual host, to stand
/// before the target path.
pub fn get_target_prefix(config: &Config, http_request: &HttpRequest) -> (r: String)
    ensures
        r@ == spec_target_prefix(config@, http_request@),
{
    let mut prefix = String::new();
    prefix.append(config.top_directory.as_str());
    prefix.append("/");
    proof {
        reveal_strlit("/");
    }
    match http_request.subdomain(&config.domain_names) {
        None => {
            prefix.append(config.root_directory.as_str());
            proof {
                assert(prefix@ =~= spec_target_prefix(config@, http_request@));
            }
        },
        Some(subdomain) => {
            prefix.append(config.subdomain_directory.as_str());
            prefix.append("/");
            let sub_path = subdomain_as_path(subdomain);
            prefix.append(sub_path.as_str());
            proof {
                assert(prefix@ =~= spec_target_prefix(config@, http_request@));
            }
        },
    }
    prefix
}

/// Prepends the virtual-host directory prefix to the request's target path,
/// making it the full target path.
pub fn add_target_prefix(config: &Config, http_request: &mut HttpRequest)
    ensures
        final(http_request)@ == spec_add_target_prefix(config@, old(http_request)@),
{
    let (old_path, parameters): (Option<String>, Option<HttpTargetParameters>) = match &http_request.target {
        None => (None, None),
        Some(t) => (
            match &t.path {
                None => None,
                Some(p) => Some(p.clone()),
            },
            match &t.parameters {
                None => None,
                Some(ps) => Some(ps.clone()),
            },
        ),
    };
    let mut new_path = get_target_prefix(config, http_request);
    match old_path {
        None => {},
        Some(p) => {
            new_path.append(p.as_str());
        },
    }
    http_request.target = Some(HttpTarget { path: Some(new_path), parameters });
    proof {
        assert(final(http_request)@.target->Some_0.path->Some_0 =~= spec_add_target_prefix(
            config@,
            old(http_request)@,
        ).target->Some_0.path->Some_0);
    }
}

/// Sets the target filename of a request, replacing any existing one (a
/// request without a target is given an empty one first).
pub fn set_filename(http_request: &mut HttpRequest, filename: &str)
    ensures
        final(http_request)@ == spec_set_request_filename(old(http_request)@, filename@),
{
    if http_request.target.is_none() {
        http_request.target = Some(HttpTarget::new());
    }
    match &mut http_request.target {
        None => {},
        Some(target) => {
            target.set_filename(filename);
        },
    }
}

/// Sets the target filename of a request only where it has none yet.
pub fn set_filename_if_none(http_request: &mut HttpRequest, filename: &str)
    ensures
        final(http_request)@ == spec_set_request_filename_if_none(
            old(http_request)@,
            filename@,
        ),
{
    let has_filename = match &http_request.target {
        None => false,
        Some(target) => target.filename().is_some(),
    };
    if !has_filename {
        set_filename(http_request, filename);
    }
}

/// Resolves the filesystem path a request asks for: the virtual-host prefix
/// is prepended to the target path, and the configured default filename is
/// supplied where the path names a directory. Returns the resolved path, left
/// in the request's target as well.
pub fn resolve_path(config: &Config, http_request: &mut HttpRequest) -> (r: String)
    ensures
        final(http_request)@ == spec_resolve(config@, old(http_request)@),
        Some(r@) == spec_resolve(config@, old(http_request)@).target->Some_0.path,
{
    add_target_prefix(config, http_request);
    set_filename_if_none(http_request, config.request_default_filename.as_str());
    match &http_request.target {
        None => {
            proof {
                assert(false);
            }
            String::new()
        },
        Some(target) => match &target.path {
            None => {
                proof {
                    assert(false);
                }
                String::new()
            },
            Some(path) => path.clone(),
        },
    }
}

/// Returns the path of the file to serve when the requested file cannot be
/// found: each virtual host has its own not-found file beside its content.
pub fn not_found_path(config: &Config, http_request: &HttpRequest) -> (r: String)
    ensures
        r@ == spec_not_found_path(config@, http_request@),
{
    let mut path = get_target_prefix(config, http_request);
    if !ends_with_char(path.as_str(), '/') {
        path.append("/");
        proof {
            reveal_strlit("/");
            assert(path@ =~= spec_with_slash(spec_target_prefix(config@, http_request@)));
        }
    }
    path.append(config.not_found_filename.as_str());
    path
}

/// Returns the response for a request whose method the server does not
/// implement.
pub fn not_implemented_response(http_request: &HttpRequest) -> (r: HttpResponse)
    requires
        http_request@.version is Some,
    ensures
        r@.version == http_request@.version->Some_0,
        r@.status_code == HttpStatusCode::NotImplemented501,
        r@.header is None,
        r@.body is None,
{
    let version = match &http_request.version {
        None => HttpVersion::Http1Dot1,
        Some(v) => *v,
    };
    HttpResponse::new(&version, &HttpStatusCode::NotImplemented501, &None, &None)
}

/// Returns the headers-only `200` response announcing a file of
/// `content_length` bytes.
pub fn ok_head_response(version: &HttpVersion, content_length: usize) -> (r: HttpResponse)
    ensures
        r@.version == *version,
        r@.status_code == HttpStatusCode::OK200,
        r@.header == Some(
            seq![(spec_fieldname_text(HttpFieldName::ContentLength), spec_usize_chars(
                content_length as int,
            ))],
        ),
        r@.body is None,
{
    let mut header = HttpHeader::new();
    let length_text = usize_to_string(content_length);
    header.insert(HttpFieldName::ContentLength.as_str(), length_text.as_str());
    proof {
        assert(header@ =~= seq![(spec_fieldname_text(HttpFieldName::ContentLength), spec_usize_chars(
            content_length as int,
        ))]);
    }
    HttpResponse {
        version: *version,
        status_code: HttpStatusCode::OK200,
        header: Some(header),
        body: None,
    }
}

/// Returns the full `200` response carrying a file's bytes, its
/// `Content-Length` announcing exactly their number.
pub fn ok_file_response(version: &HttpVersion, body: Vec<u8>) -> (r: HttpResponse)
    ensures
        r@.version == *version,
        r@.status_code == HttpStatusCode::OK200,
        r@.header == Some(
            seq![(spec_fieldname_text(HttpFieldName::ContentLength), spec_usize_chars(
                body@.len() as int,
            ))],
        ),
        r@.body == Some(body@),
{
    let mut response = ok_head_response(version, body.len());
    proof {
        assert(body.deep_view() =~= body@);
    }
    response.body = Some(body);
    response
}

/// Fills a response's body with the given bytes, announcing their number in
/// its `Content-Length` field (a response without a header is given one).
pub fn set_body(response: &mut HttpResponse, body: Vec<u8>)
    ensures
        final(response)@.version == old(response)@.version,
        final(response)@.status_code == old(response)@.status_code,
        final(response)@.header == Some(
            spec_header_insert(
                match old(response)@.header {
                    None => Seq::<(Seq<char>, Seq<char>)>::empty(),
                    Some(h) => h,
                },
                spec_fieldname_text(HttpFieldName::ContentLength),
                spec_usize_chars(body@.len() as int),
            ),
        ),
        final(response)@.body == Some(body@),
{
    if response.header.is_none() {
        response.header = Some(HttpHeader::new());
    }
    let length_text = usize_to_string(body.len());
    match &mut response.header {
        None => {},
        Some(header) => {
            header.insert(HttpFieldName::ContentLength.as_str(), length_text.as_str());
        },
    }
    proof {
        assert(body.deep_view() =~= body@);
    }
    response.body = Some(body);
}

} // verus!
