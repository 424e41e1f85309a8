use webserver::config::Config;
use webserver::helper::bytes::find;
use webserver::helper::enums::Processing;
use webserver::helper::text::{parse_usize, trim, usize_to_string};
use webserver::http_parser::{
    HttpHeader, HttpRequest, HttpResponse, HttpStatusCode, HttpVersion, PartialHttpRequest,
};
use webserver::server::{
    not_found_path, not_implemented_response, ok_file_response, ok_head_response, resolve_path,
    set_body, set_filename, set_filename_if_none, subdomain_as_path,
};

fn test_config() -> Config {
    Config {
        domain_names: vec![String::from("example.com")],
        top_directory: String::from("content"),
        root_directory: String::from("root"),
        subdomain_directory: String::from("subdomains"),
        request_default_filename: String::from("index.html"),
        not_found_filename: String::from("404.html"),
    }
}

fn parse(bytes: &[u8]) -> HttpRequest {
    match HttpRequest::try_parse(&PartialHttpRequest::new(), bytes) {
        Processing::Finished(Ok(request)) => request,
        _ => panic!("expected a complete request"),
    }
}

#[test]
fn subdomain_labels_become_directories_right_to_left() {
    assert_eq!(subdomain_as_path("shop.uk").as_str(), "uk/shop");
    assert_eq!(subdomain_as_path("uk.shop").as_str(), "shop/uk");
    assert_eq!(subdomain_as_path("www").as_str(), "www");
}

#[test]
fn subdomain_host_resolves_into_subdomain_tree() {
    let config = test_config();
    let mut request = parse(b"GET / HTTP/1.1\r\nHost: shop.uk.example.com\r\n\r\n");
    let path = resolve_path(&config, &mut request);
    assert_eq!(path.as_str(), "content/subdomains/uk/shop/index.html");
}

#[test]
fn end_to_end_root_request_resolves_and_serializes() {
    let config = test_config();
    let mut request = parse(b"GET /index.html HTTP/1.1\r\nHost: example.com\r\n\r\n");
    let path = resolve_path(&config, &mut request);
    assert_eq!(path.as_str(), "content/root/index.html");

    let file_bytes: Vec<u8> = (0..42u8).collect();
    let version = request.version.unwrap();
    let response = ok_file_response(&version, file_bytes.clone());
    let bytes = response.as_bytes();
    let expected_head: &[u8] = b"HTTP/1.1 200 OK\r\nContent-Length: 42\r\n\r\n";
    assert_eq!(&bytes[..expected_head.len()], expected_head);
    assert_eq!(&bytes[expected_head.len()..], file_bytes.as_slice());
}

#[test]
fn directory_request_gets_default_filename() {
    let config = test_config();
    let mut request = parse(b"GET /docs HTTP/1.1\r\nHost: example.com\r\n\r\n");
    let path = resolve_path(&config, &mut request);
    assert_eq!(path.as_str(), "content/root/docs/index.html");
}

#[test]
fn not_found_path_is_per_virtual_host() {
    let config = test_config();
    let root_request = parse(b"GET /x.html HTTP/1.1\r\nHost: example.com\r\n\r\n");
    assert_eq!(not_found_path(&config, &root_request).as_str(), "content/root/404.html");

    let sub_request = parse(b"GET /x.html HTTP/1.1\r\nHost: shop.example.com\r\n\r\n");
    assert_eq!(
        not_found_path(&config, &sub_request).as_str(),
        "content/subdomains/shop/404.html"
    );
}

#[test]
fn set_filename_creates_a_target_when_missing() {
    let mut request = HttpRequest::default();
    set_filename(&mut request, "index.html");
    assert_eq!(
        request.target.as_ref().unwrap().path.as_ref().unwrap().as_str(),
        "/index.html"
    );

    set_filename_if_none(&mut request, "other.html");
    assert_eq!(
        request.target.as_ref().unwrap().path.as_ref().unwrap().as_str(),
        "/index.html"
    );
}

#[test]
fn not_implemented_response_carries_501() {
    let request = parse(b"GET / HTTP/1.1\r\nHost: example.com\r\n\r\n");
    let response = not_implemented_response(&request);
    assert_eq!(response.status_code.code(), 501);
    assert!(response.header.is_none());
    assert!(response.body.is_none());
}

#[test]
fn head_response_announces_the_length_without_a_body() {
    let response = ok_head_response(&HttpVersion::Http1Dot1, 1234);
    assert_eq!(response.status_code.code(), 200);
    assert_eq!(
        response.header.as_ref().unwrap().get_value("Content-Length").unwrap().as_str(),
        "1234"
    );
    assert!(response.body.is_none());
}

#[test]
fn set_body_updates_the_content_length() {
    let mut response = HttpResponse::new(
        &HttpVersion::Http1Dot1,
        &HttpStatusCode::NotFound404,
        &None,
        &None,
    );
    set_body(&mut response, b"missing page".to_vec());
    assert_eq!(
        response.header.as_ref().unwrap().get_value("Content-Length").unwrap().as_str(),
        "12"
    );
    assert_eq!(response.body.as_ref().unwrap().as_slice(), b"missing page");
}

#[test]
fn response_without_header_serializes_with_blank_line() {
    let response = HttpResponse::new(
        &HttpVersion::Http1Dot1,
        &HttpStatusCode::NotFound404,
        &None,
        &None,
    );
    assert_eq!(response.as_bytes().as_slice(), b"HTTP/1.1 404 Not Found\r\n\r\n");
}

#[test]
fn response_new_copies_header_and_body() {
    let mut header = HttpHeader::new();
    header.insert("Content-Length", "3");
    let body: &[u8] = b"abc";
    let response = HttpResponse::new(
        &HttpVersion::Http1Dot1,
        &HttpStatusCode::OK200,
        &Some(&header),
        &Some(body),
    );
    assert_eq!(
        response.as_bytes().as_slice(),
        b"HTTP/1.1 200 OK\r\nContent-Length: 3\r\n\r\nabc"
    );
}

#[test]
fn find_locates_the_first_occurrence() {
    assert_eq!(find(b"a b c", b" "), Some(1));
    assert_eq!(find(b"abcabc", b"bc"), Some(1));
    assert_eq!(find(b"abc", b"c"), Some(2));
    assert_eq!(find(b"abc", b"abcd"), None);
    assert_eq!(find(b"abc", b"x"), None);
    assert_eq!(find(b"", b""), Some(0));
}

#[test]
fn text_helpers_behave() {
    assert_eq!(trim("  spaced \t"), "spaced");
    assert_eq!(trim(""), "");
    assert_eq!(parse_usize("42"), Some(42));
    assert_eq!(parse_usize("+42"), Some(42));
    assert_eq!(parse_usize(""), None);
    assert_eq!(parse_usize("4x2"), None);
    assert_eq!(parse_usize("99999999999999999999999999999999"), None);
    assert_eq!(usize_to_string(0).as_str(), "0");
    assert_eq!(usize_to_string(42).as_str(), "42");
    assert_eq!(usize_to_string(90210).as_str(), "90210");
}
