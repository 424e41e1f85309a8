use webserver::http_parser::HttpHeader;

#[test]
fn repeated_field_folds_with_comma_space() {
    let header = HttpHeader::from_bytes(b"A: 1\r\nA: 2\r\n").unwrap();
    assert_eq!(header.get_value("A").unwrap().as_str(), "1, 2");
}

#[test]
fn fields_split_at_first_colon_and_trim() {
    let header = HttpHeader::from_bytes(b"Host:  example.com \r\nAccept: a:b\r\n").unwrap();
    assert_eq!(header.get_value("Host").unwrap().as_str(), "example.com");
    assert_eq!(header.get_value("Accept").unwrap().as_str(), "a:b");
}

#[test]
fn lookup_is_case_insensitive_storage_preserves_case() {
    let header = HttpHeader::from_bytes(b"Content-Length: 42\r\n").unwrap();
    assert_eq!(header.get_value("content-length").unwrap().as_str(), "42");
    assert_eq!(header.get_value("CONTENT-LENGTH").unwrap().as_str(), "42");
    let (name, _) = header.field_at(0);
    assert_eq!(name.as_str(), "Content-Length");
}

#[test]
fn empty_name_is_legal() {
    let header = HttpHeader::from_bytes(b": anonymous\r\n").unwrap();
    assert_eq!(header.get_value("").unwrap().as_str(), "anonymous");
}

#[test]
fn block_without_colon_yields_none() {
    assert!(HttpHeader::from_bytes(b"").is_none());
    assert!(HttpHeader::from_bytes(b"no colon here").is_none());
}

#[test]
fn line_without_colon_is_skipped() {
    let header = HttpHeader::from_bytes(b"no colon on this line\r\nA: 1\r\n").unwrap();
    assert_eq!(header.get_value("A").unwrap().as_str(), "1");
    assert_eq!(header.len(), 1);
}

#[test]
fn remainder_without_colon_is_abandoned() {
    let header = HttpHeader::from_bytes(b"A: 1\r\ntrailing garbage").unwrap();
    assert_eq!(header.get_value("A").unwrap().as_str(), "1");
    assert!(header.get_value("trailing garbage").is_none());
}

#[test]
fn invalid_text_line_is_dropped() {
    let header = HttpHeader::from_bytes(b"\xff\xfe: broken\r\nB: 2\r\n").unwrap();
    assert_eq!(header.get_value("B").unwrap().as_str(), "2");
    assert_eq!(header.len(), 1);
}

#[test]
fn insert_overwrites_unconditionally() {
    let mut header = HttpHeader::new();
    header.insert("Content-Length", "10");
    header.insert("content-length", "20");
    assert_eq!(header.len(), 1);
    assert_eq!(header.get_value("Content-Length").unwrap().as_str(), "20");
    let (name, _) = header.field_at(0);
    assert_eq!(name.as_str(), "content-length");
}

#[test]
fn header_text_joins_lines_with_crlf() {
    let header = HttpHeader::from_bytes(b"Host: example.com\r\nAccept: text/html\r\n").unwrap();
    assert_eq!(
        header.to_text().as_str(),
        "Host: example.com\r\nAccept: text/html\r\n"
    );
    assert_eq!(HttpHeader::new().to_text().as_str(), "");
}

#[test]
fn missing_key_yields_none() {
    let mut header = HttpHeader::new();
    header.insert("Host", "example.com");
    assert!(header.get_value("Content-Length").is_none());
}
