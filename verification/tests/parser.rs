use webserver::helper::enums::Processing;
use webserver::http_parser::{HttpMethod, HttpRequest, HttpStatusCode, HttpVersion, PartialHttpRequest};

fn finished_ok(
    r: Processing<
        PartialHttpRequest,
        Result<HttpRequest, (webserver::http_parser::ParseError, HttpStatusCode)>,
    >,
) -> HttpRequest {
    match r {
        Processing::Finished(Ok(request)) => request,
        Processing::Finished(Err(_)) => panic!("expected a parsed request, got an error"),
        Processing::InProgress(_) => panic!("expected a parsed request, got in-progress"),
    }
}

#[test]
fn parses_complete_get_request() {
    let bytes = b"GET /index.html HTTP/1.1\r\nHost: example.com\r\n\r\n";
    let partial = PartialHttpRequest::new();
    let request = finished_ok(HttpRequest::try_parse(&partial, bytes));
    assert!(matches!(request.method, Some(HttpMethod::Get)));
    assert!(matches!(request.version, Some(HttpVersion::Http1Dot1)));
    let target = request.target.as_ref().unwrap();
    assert_eq!(target.path.as_ref().unwrap().as_str(), "/index.html");
    let header = request.header.as_ref().unwrap();
    assert_eq!(header.get_value("Host").unwrap().as_str(), "example.com");
    assert!(request.body.is_none());
}

#[test]
fn unknown_method_finishes_with_501_before_reading_headers() {
    let bytes = b"PATCH / HTTP/1.1\r\n\r\n";
    let partial = PartialHttpRequest::new();
    match HttpRequest::try_parse(&partial, bytes) {
        Processing::Finished(Err((_, status))) => {
            assert_eq!(status.code(), 501);
        },
        _ => panic!("expected Finished(Err(_, 501))"),
    }
}

#[test]
fn unknown_method_rejected_even_with_malformed_header_bytes() {
    // The header block is never examined once the request line is malformed.
    let bytes = b"PATCH / HTTP/1.1\r\n\x80\x80: broken\r\n\r\n";
    let partial = PartialHttpRequest::new();
    match HttpRequest::try_parse(&partial, bytes) {
        Processing::Finished(Err((_, status))) => {
            assert_eq!(status.code(), 501);
        },
        _ => panic!("expected Finished(Err(_, 501))"),
    }
}

#[test]
fn non_utf8_method_finishes_with_501() {
    let bytes = b"\xff\xfe / HTTP/1.1\r\n\r\n";
    let partial = PartialHttpRequest::new();
    match HttpRequest::try_parse(&partial, bytes) {
        Processing::Finished(Err((_, status))) => {
            assert_eq!(status.code(), 501);
        },
        _ => panic!("expected Finished(Err(_, 501))"),
    }
}

#[test]
fn unknown_version_finishes_with_501() {
    let bytes = b"GET / HTTP/2.0\r\nHost: a\r\n\r\n";
    let partial = PartialHttpRequest::new();
    match HttpRequest::try_parse(&partial, bytes) {
        Processing::Finished(Err((_, status))) => {
            assert_eq!(status.code(), 501);
        },
        _ => panic!("expected Finished(Err(_, 501))"),
    }
}

#[test]
fn non_numeric_content_length_finishes_with_400() {
    let bytes = b"POST /a HTTP/1.1\r\nContent-Length: ten\r\n\r\n";
    let partial = PartialHttpRequest::new();
    match HttpRequest::try_parse(&partial, bytes) {
        Processing::Finished(Err((_, status))) => {
            assert_eq!(status.code(), 400);
        },
        _ => panic!("expected Finished(Err(_, 400))"),
    }
}

#[test]
fn oversized_body_declaration_stays_in_progress() {
    // Content-Length declares 1000 bytes, far more than have arrived: the
    // parser must ask for more bytes, never read out of bounds.
    let bytes = b"POST /a HTTP/1.1\r\nContent-Length: 1000\r\n\r\nshort";
    let partial = PartialHttpRequest::new();
    match HttpRequest::try_parse(&partial, bytes) {
        Processing::InProgress(_) => {},
        _ => panic!("expected InProgress while the declared body has not arrived"),
    }
}

#[test]
fn body_extracted_by_declared_length() {
    let bytes = b"POST /a HTTP/1.1\r\nContent-Length: 5\r\n\r\nhelloEXTRA";
    let partial = PartialHttpRequest::new();
    let request = finished_ok(HttpRequest::try_parse(&partial, bytes));
    assert_eq!(request.body.as_ref().unwrap().as_slice(), b"hello");
}

#[test]
fn incomplete_request_line_stays_in_progress() {
    let bytes = b"GET /inde";
    let partial = PartialHttpRequest::new();
    match HttpRequest::try_parse(&partial, bytes) {
        Processing::InProgress(_) => {},
        _ => panic!("expected InProgress on an incomplete request line"),
    }
}

#[test]
fn chunked_feeding_matches_single_parse() {
    // Idempotent resumption: growing the buffer across arbitrary chunk
    // boundaries ends with the same parsed request as one complete call.
    let full: &[u8] = b"GET /index.html HTTP/1.1\r\nHost: example.com\r\n\r\n";
    let whole = finished_ok(HttpRequest::try_parse(&PartialHttpRequest::new(), full));

    for cut1 in 1..full.len() {
        let mut partial = PartialHttpRequest::new();
        let mut done: Option<HttpRequest> = None;
        let cuts = [cut1, full.len()];
        for cut in cuts {
            match HttpRequest::try_parse(&partial, &full[..cut]) {
                Processing::InProgress(next) => {
                    partial = next;
                },
                Processing::Finished(Ok(request)) => {
                    done = Some(request);
                    break;
                },
                Processing::Finished(Err(_)) => panic!("unexpected parse error"),
            }
        }
        let request = done.expect("the complete buffer must finish the parse");
        assert_eq!(
            request.method.as_ref().unwrap().as_str(),
            whole.method.as_ref().unwrap().as_str()
        );
        assert_eq!(
            request.target.as_ref().unwrap().path.as_ref().unwrap(),
            whole.target.as_ref().unwrap().path.as_ref().unwrap()
        );
        assert_eq!(
            request.header.as_ref().unwrap().get_value("Host").unwrap(),
            whole.header.as_ref().unwrap().get_value("Host").unwrap()
        );
    }
}

#[test]
fn bytes_after_a_finished_request_do_not_change_it() {
    let exact: &[u8] = b"GET /a.html HTTP/1.1\r\nHost: example.com\r\n\r\n";
    let extended: &[u8] = b"GET /a.html HTTP/1.1\r\nHost: example.com\r\n\r\nGET /pipelined";
    let first = finished_ok(HttpRequest::try_parse(&PartialHttpRequest::new(), exact));
    let second = finished_ok(HttpRequest::try_parse(&PartialHttpRequest::new(), extended));
    assert_eq!(
        first.target.as_ref().unwrap().path.as_ref().unwrap(),
        second.target.as_ref().unwrap().path.as_ref().unwrap()
    );
    assert!(second.body.is_none());
}

#[test]
fn resumption_skips_filled_fields() {
    let part1: &[u8] = b"GET /x.html ";
    let full: &[u8] = b"GET /x.html HTTP/1.1\r\nHost: h.example.com\r\n\r\n";
    let partial = match HttpRequest::try_parse(&PartialHttpRequest::new(), part1) {
        Processing::InProgress(p) => p,
        _ => panic!("expected InProgress after the method and target"),
    };
    assert!(partial.request.method.is_some());
    assert!(partial.request.target.is_some());
    assert!(partial.version().is_none());
    let request = finished_ok(HttpRequest::try_parse(&partial, full));
    assert!(matches!(request.version, Some(HttpVersion::Http1Dot1)));
}

#[test]
fn subdomain_read_from_host_field() {
    let bytes = b"GET / HTTP/1.1\r\nHost: shop.uk.example.com\r\n\r\n";
    let request = finished_ok(HttpRequest::try_parse(&PartialHttpRequest::new(), bytes));
    let domains = vec![String::from("example.com")];
    assert_eq!(request.subdomain(&domains), Some("shop.uk"));

    let exact = b"GET / HTTP/1.1\r\nHost: example.com\r\n\r\n";
    let request = finished_ok(HttpRequest::try_parse(&PartialHttpRequest::new(), exact));
    assert_eq!(request.subdomain(&domains), None);

    let other = b"GET / HTTP/1.1\r\nHost: example.org\r\n\r\n";
    let request = finished_ok(HttpRequest::try_parse(&PartialHttpRequest::new(), other));
    assert_eq!(request.subdomain(&domains), None);
}

#[test]
fn multi_label_domains_split_at_the_domain_boundary() {
    // A configured domain may itself hold dots; the subdomain is whatever
    // stands before it, and the first configured domain that matches decides.
    let bytes = b"GET / HTTP/1.1\r\nHost: a.www.example.com\r\n\r\n";
    let request = finished_ok(HttpRequest::try_parse(&PartialHttpRequest::new(), bytes));

    let multi = vec![String::from("www.example.com")];
    assert_eq!(request.subdomain(&multi), Some("a"));

    let both = vec![String::from("example.com"), String::from("www.example.com")];
    assert_eq!(request.subdomain(&both), Some("a.www"));

    let exact = b"GET / HTTP/1.1\r\nHost: www.example.com\r\n\r\n";
    let request = finished_ok(HttpRequest::try_parse(&PartialHttpRequest::new(), exact));
    assert_eq!(request.subdomain(&multi), None);
}
