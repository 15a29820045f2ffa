use http_parse::cursor::Cursor;
use http_parse::http::parse_http_request_message;
use http_parse::text::bytes_as_str;

#[test]
fn no_crlf_yields_absent() {
    assert!(parse_http_request_message(b"GET / HTTP/1.1").is_none());
    assert!(parse_http_request_message(b"abc\rdef\nghi").is_none());
    assert!(parse_http_request_message(b"\n\r\n\r".as_ref()).is_some());
}

#[test]
fn empty_input_yields_absent() {
    assert!(parse_http_request_message(b"").is_none());
}

#[test]
fn well_formed_request_parses_exactly() {
    let input = b"GET /path HTTP/1.1\r\nHost: example.com\r\n\r\nhello";
    let m = parse_http_request_message(input).unwrap();
    assert_eq!(m.start_line.method, "GET");
    assert_eq!(m.start_line.request_target, "/path");
    assert_eq!(m.start_line.http_version, "HTTP/1.1");
    assert_eq!(m.header.field_lines.len(), 1);
    assert_eq!(m.header.field_lines[0], ("Host", "example.com"));
    assert_eq!(m.body, b"hello");
}

#[test]
fn body_keeps_exact_trailing_bytes() {
    let input = b"POST /submit HTTP/1.1\r\nA: 1\r\nB: 2\r\n\r\nline one\r\nline two";
    let m = parse_http_request_message(input).unwrap();
    assert_eq!(m.start_line.method, "POST");
    assert_eq!(m.header.field_lines.len(), 2);
    assert_eq!(m.header.field_lines[0], ("A", "1"));
    assert_eq!(m.header.field_lines[1], ("B", "2"));
    assert_eq!(m.body, b"line one\r\nline two");
}

#[test]
fn header_split_trims_whitespace() {
    let input = b"GET / HTTP/1.1\r\nName \t :   Value  \r\n\r\n";
    let m = parse_http_request_message(input).unwrap();
    assert_eq!(m.header.field_lines.len(), 1);
    assert_eq!(m.header.field_lines[0], ("Name", "Value"));
}

#[test]
fn get_is_idempotent() {
    let input = b"GET / HTTP/1.1\r\nA: 1\r\nB: 2\r\nA: 3\r\n\r\n";
    let m = parse_http_request_message(input).unwrap();
    let first = m.header.get("A").copied();
    let other = m.header.get("B").copied();
    let second = m.header.get("A").copied();
    let third = m.header.get("A").copied();
    assert_eq!(first, Some(("A", "1")));
    assert_eq!(other, Some(("B", "2")));
    assert_eq!(second, first);
    assert_eq!(third, first);
}

#[test]
fn duplicate_names_kept_in_order() {
    let input = b"GET / HTTP/1.1\r\nA: 1\r\nA: 2\r\n\r\n";
    let m = parse_http_request_message(input).unwrap();
    assert_eq!(m.header.field_lines.len(), 2);
    assert_eq!(m.header.field_lines[0], ("A", "1"));
    assert_eq!(m.header.field_lines[1], ("A", "2"));
    assert_eq!(m.header.get("A"), Some(&("A", "1")));
}

#[test]
fn get_is_case_sensitive_and_absent_is_none() {
    let input = b"GET / HTTP/1.1\r\nHost: example.com\r\n\r\n";
    let m = parse_http_request_message(input).unwrap();
    assert_eq!(m.header.get("host"), None);
    assert_eq!(m.header.get("Missing"), None);
    assert_eq!(m.header.get("Host"), Some(&("Host", "example.com")));
}

#[test]
fn line_without_colon_is_skipped() {
    let input = b"GET / HTTP/1.1\r\ngarbage\r\nHost: example.com\r\n\r\n";
    let m = parse_http_request_message(input).unwrap();
    assert_eq!(m.header.field_lines.len(), 1);
    assert_eq!(m.header.field_lines[0], ("Host", "example.com"));
}

#[test]
fn body_empty_at_exact_blank_line() {
    let input = b"GET / HTTP/1.1\r\nHost: example.com\r\n\r\n";
    let m = parse_http_request_message(input).unwrap();
    assert_eq!(m.body, b"");
}

#[test]
fn missing_blank_line_still_parses() {
    let input = b"GET / HTTP/1.1\r\n";
    let m = parse_http_request_message(input).unwrap();
    assert_eq!(m.start_line.method, "GET");
    assert_eq!(m.start_line.request_target, "/");
    assert_eq!(m.start_line.http_version, "HTTP/1.1");
    assert_eq!(m.header.field_lines.len(), 0);
    assert_eq!(m.body, b"");
}

#[test]
fn incomplete_headers_keep_collected_fields() {
    let input = b"GET / HTTP/1.1\r\nHost: example.com\r\nTrailing";
    let m = parse_http_request_message(input).unwrap();
    assert_eq!(m.header.field_lines.len(), 1);
    assert_eq!(m.header.field_lines[0], ("Host", "example.com"));
    assert_eq!(m.body, b"Trailing");
}

#[test]
fn missing_tokens_default_to_empty() {
    let m = parse_http_request_message(b"GET\r\n\r\n").unwrap();
    assert_eq!(m.start_line.method, "GET");
    assert_eq!(m.start_line.request_target, "");
    assert_eq!(m.start_line.http_version, "");

    let m = parse_http_request_message(b"\r\nbody").unwrap();
    assert_eq!(m.start_line.method, "");
    assert_eq!(m.start_line.request_target, "");
    assert_eq!(m.start_line.http_version, "");
    assert_eq!(m.header.field_lines.len(), 0);
    assert_eq!(m.body, b"body");
}

#[test]
fn extra_tokens_are_discarded() {
    let m = parse_http_request_message(b"GET /a b HTTP/1.1\r\n\r\n").unwrap();
    assert_eq!(m.start_line.method, "GET");
    assert_eq!(m.start_line.request_target, "/a");
    assert_eq!(m.start_line.http_version, "b");
}

#[test]
fn consecutive_spaces_make_empty_tokens() {
    let m = parse_http_request_message(b"GET  /path\r\n\r\n").unwrap();
    assert_eq!(m.start_line.method, "GET");
    assert_eq!(m.start_line.request_target, "");
    assert_eq!(m.start_line.http_version, "/path");
}

#[test]
fn invalid_utf8_token_degrades_to_empty() {
    let m = parse_http_request_message(b"G\xffT /ok HTTP/1.1\r\n\r\n").unwrap();
    assert_eq!(m.start_line.method, "");
    assert_eq!(m.start_line.request_target, "/ok");
    assert_eq!(m.start_line.http_version, "HTTP/1.1");
}

#[test]
fn invalid_utf8_header_value_degrades_to_empty() {
    let m = parse_http_request_message(b"GET / HTTP/1.1\r\nX: \xff\xfe\r\n\r\n").unwrap();
    assert_eq!(m.header.field_lines.len(), 1);
    assert_eq!(m.header.field_lines[0], ("X", ""));
}

#[test]
fn empty_name_or_value_is_kept() {
    let m = parse_http_request_message(b"GET / HTTP/1.1\r\n:v\r\nk:\r\n\r\n").unwrap();
    assert_eq!(m.header.field_lines.len(), 2);
    assert_eq!(m.header.field_lines[0], ("", "v"));
    assert_eq!(m.header.field_lines[1], ("k", ""));
    assert_eq!(m.header.get(""), Some(&("", "v")));
}

#[test]
fn value_keeps_colons_after_the_first() {
    let m = parse_http_request_message(b"GET / HTTP/1.1\r\nHost: a:8080\r\n\r\n").unwrap();
    assert_eq!(m.header.field_lines[0], ("Host", "a:8080"));
}

#[test]
fn cursor_scans_lines_in_order() {
    let mut c = Cursor::new(b"ab\r\ncd\r\nrest");
    assert_eq!(c.find_next_crlf(), Some(b"ab".as_ref()));
    assert_eq!(c.find_next_crlf(), Some(b"cd".as_ref()));
    assert_eq!(c.find_next_crlf(), None);
    assert_eq!(c.remain(), b"rest");
}

#[test]
fn cursor_requires_strict_crlf() {
    let mut c = Cursor::new(b"ab\nc\rd\r\ne");
    assert_eq!(c.find_next_crlf(), Some(b"ab\nc\rd".as_ref()));
    assert_eq!(c.find_next_crlf(), None);
    assert_eq!(c.remain(), b"e");
}

#[test]
fn cursor_remaining_after_none_is_everything_unconsumed() {
    let mut c = Cursor::new(b"no terminator");
    assert_eq!(c.find_next_crlf(), None);
    assert_eq!(c.remain(), b"no terminator");
}

#[test]
fn bytes_as_str_decodes_or_degrades() {
    assert_eq!(bytes_as_str(b"abc"), "abc");
    assert_eq!(bytes_as_str(b""), "");
    assert_eq!(bytes_as_str(b"\xff"), "");
    assert_eq!(bytes_as_str("caf\u{e9}".as_bytes()), "caf\u{e9}");
}
