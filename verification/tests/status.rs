use webserver::http_parser::{
    HttpFieldName, HttpMethod, HttpProtocol, HttpStatusCode, HttpVersion, IoErrorKind,
};

fn all_statuses() -> Vec<HttpStatusCode> {
    vec![
        HttpStatusCode::OK200,
        HttpStatusCode::BadRequest400,
        HttpStatusCode::Forbidden403,
        HttpStatusCode::NotFound404,
        HttpStatusCode::RequestTimeout408,
        HttpStatusCode::Conflict409,
        HttpStatusCode::ContentTooLarge413,
        HttpStatusCode::InternalServerError500,
        HttpStatusCode::NotImplemented501,
        HttpStatusCode::BadGateway502,
        HttpStatusCode::GatewayTimeout504,
    ]
}

#[test]
fn status_text_starts_with_code_space_and_uppercase_phrase() {
    for status in all_statuses() {
        let text = status.as_str();
        let code = format!("{}", status.code());
        assert!(text.starts_with(&code), "{} does not start with {}", text, code);
        let rest = &text[code.len()..];
        assert!(rest.starts_with(' '), "{} lacks the space after its code", text);
        let phrase = &rest[1..];
        let first = phrase.chars().next().expect("the reason phrase is never empty");
        assert!(first.is_ascii_uppercase(), "{} has no uppercase phrase", text);
    }
}

#[test]
fn status_codes_are_pairwise_distinct() {
    let statuses = all_statuses();
    for i in 0..statuses.len() {
        for j in 0..statuses.len() {
            if i != j {
                assert_ne!(statuses[i].code(), statuses[j].code());
            }
        }
    }
}

#[test]
fn exact_status_texts() {
    assert_eq!(HttpStatusCode::OK200.as_str(), "200 OK");
    assert_eq!(HttpStatusCode::NotFound404.as_str(), "404 Not Found");
    assert_eq!(HttpStatusCode::NotImplemented501.as_str(), "501 Not Implemented");
}

#[test]
fn io_error_kinds_map_to_documented_statuses() {
    assert_eq!(HttpStatusCode::from_io_error(IoErrorKind::NotFound).code(), 404);
    assert_eq!(HttpStatusCode::from_io_error(IoErrorKind::PermissionDenied).code(), 403);
    assert_eq!(HttpStatusCode::from_io_error(IoErrorKind::ConnectionRefused).code(), 502);
    assert_eq!(HttpStatusCode::from_io_error(IoErrorKind::ConnectionReset).code(), 502);
    assert_eq!(HttpStatusCode::from_io_error(IoErrorKind::ConnectionAborted).code(), 502);
    assert_eq!(HttpStatusCode::from_io_error(IoErrorKind::NotConnected).code(), 504);
    assert_eq!(HttpStatusCode::from_io_error(IoErrorKind::AlreadyExists).code(), 409);
    assert_eq!(HttpStatusCode::from_io_error(IoErrorKind::TimedOut).code(), 500);
    assert_eq!(HttpStatusCode::from_io_error(IoErrorKind::InvalidInput).code(), 500);
    assert_eq!(HttpStatusCode::from_io_error(IoErrorKind::Unsupported).code(), 500);
    assert_eq!(HttpStatusCode::from_io_error(IoErrorKind::Other).code(), 500);
}

#[test]
fn methods_match_case_sensitively() {
    assert!(matches!(HttpMethod::from_str("GET"), Some(HttpMethod::Get)));
    assert!(matches!(HttpMethod::from_str(" GET "), Some(HttpMethod::Get)));
    assert!(matches!(HttpMethod::from_str("HEAD"), Some(HttpMethod::Head)));
    assert!(matches!(HttpMethod::from_str("POST"), Some(HttpMethod::Post)));
    assert!(matches!(HttpMethod::from_str("PUT"), Some(HttpMethod::Put)));
    assert!(matches!(HttpMethod::from_str("DELETE"), Some(HttpMethod::Delete)));
    assert!(matches!(HttpMethod::from_str("CONNECT"), Some(HttpMethod::Connect)));
    assert!(matches!(HttpMethod::from_str("OPTIONS"), Some(HttpMethod::Options)));
    assert!(matches!(HttpMethod::from_str("TRACE"), Some(HttpMethod::Trace)));
    assert!(HttpMethod::from_str("get").is_none());
    assert!(HttpMethod::from_str("PATCH").is_none());
    assert_eq!(HttpMethod::Get.as_str(), "GET");
}

#[test]
fn versions_round_trip() {
    assert!(matches!(HttpVersion::from_str("HTTP/1.1"), Some(HttpVersion::Http1Dot1)));
    assert!(matches!(HttpVersion::from_str(" HTTP/1.1 "), Some(HttpVersion::Http1Dot1)));
    assert!(HttpVersion::from_str("HTTP/1.0").is_none());
    assert_eq!(HttpVersion::Http1Dot1.as_str(), "HTTP/1.1");
}

#[test]
fn field_names_match_case_insensitively() {
    assert!(matches!(HttpFieldName::from_str("Host"), Some(HttpFieldName::Host)));
    assert!(matches!(HttpFieldName::from_str("hOsT"), Some(HttpFieldName::Host)));
    assert!(matches!(
        HttpFieldName::from_str(" content-length "),
        Some(HttpFieldName::ContentLength)
    ));
    assert!(HttpFieldName::from_str("Accept").is_none());
    assert_eq!(HttpFieldName::Host.as_str(), "Host");
    assert_eq!(HttpFieldName::ContentLength.as_str(), "Content-Length");
}

#[test]
fn protocols_name_well_known_ports() {
    assert_eq!(HttpProtocol::Http.port(), 80);
    assert_eq!(HttpProtocol::Https.port(), 443);
}
