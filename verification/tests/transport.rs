use ctx::lsp::mock::{lookup_definition, MockDefinition};
use ctx::lsp::transport::{
    auto_reply, body_length, frame_header, parse_u64, parse_usize, read_header_line, AutoReply,
    MAX_CONTENT_LENGTH,
};

fn chars(s: &str) -> Vec<char> {
    s.chars().collect()
}

/// The body length the headers of `framed` announce, as the reader sees
/// them line by line (`None` on EOF inside the headers or a framing error).
fn announced_length(framed: &str) -> Option<usize> {
    let mut length = None;
    for line in framed.split_inclusive('\n') {
        match read_header_line(length, line) {
            None => return body_length(length),
            Some(l) => length = l,
        }
    }
    None
}

#[test]
fn oversized_content_length_is_a_framing_error() {
    let len = MAX_CONTENT_LENGTH + 1;
    let framed = format!("Content-Length: {len}\r\n\r\nx");
    assert!(announced_length(&framed).is_none());

    // Sanity: a normal message still parses.
    let body = r#"{"jsonrpc":"2.0","id":1,"result":null}"#;
    let framed = format!("Content-Length: {}\r\n\r\n{body}", body.len());
    assert_eq!(announced_length(&framed), Some(body.len()));
}

#[test]
fn frame_headers_read_back() {
    for n in [0usize, 7, 4096, MAX_CONTENT_LENGTH] {
        let header = frame_header(n);
        assert_eq!(header, format!("Content-Length: {n}\r\n\r\n"));
        assert_eq!(announced_length(&header), Some(n));
    }
}

#[test]
fn header_lines_are_matched_ignoring_case() {
    assert_eq!(read_header_line(None, "content-LENGTH:  42 \r\n"), Some(Some(42)));
    assert_eq!(read_header_line(Some(3), "Content-Type: application/json\r\n"), Some(Some(3)));
    assert_eq!(read_header_line(Some(3), "Content-Length: x\r\n"), Some(None));
    assert_eq!(read_header_line(Some(3), "no colon here\r\n"), Some(Some(3)));
    assert_eq!(read_header_line(Some(3), "\r\n"), None);
    assert_eq!(read_header_line(Some(3), "  \n"), None);
    assert_eq!(body_length(None), None);
    assert_eq!(body_length(Some(MAX_CONTENT_LENGTH)), Some(MAX_CONTENT_LENGTH));
}

#[test]
fn unsigned_parsing_follows_str_parse() {
    assert_eq!(parse_usize(&chars("0")), Some(0));
    assert_eq!(parse_usize(&chars("+17")), Some(17));
    assert_eq!(parse_usize(&chars("-1")), None);
    assert_eq!(parse_usize(&chars("")), None);
    assert_eq!(parse_usize(&chars("+")), None);
    assert_eq!(parse_usize(&chars("12a")), None);
    assert_eq!(parse_usize(&chars(" 1")), None);
    assert_eq!(parse_u64(&chars("18446744073709551615")), Some(u64::MAX));
    assert_eq!(parse_u64(&chars("18446744073709551616")), None);
    assert_eq!(parse_u64(&chars("007")), Some(7));
}

#[test]
fn auto_replies_to_server_requests() {
    assert_eq!(auto_reply("workspace/configuration", Some(2)), AutoReply::Nulls(2));
    assert_eq!(auto_reply("workspace/configuration", None), AutoReply::Nulls(1));
    assert_eq!(auto_reply("client/registerCapability", Some(5)), AutoReply::Null);
    assert_eq!(auto_reply("window/workDoneProgress/create", None), AutoReply::Null);
}

fn def(path: &str, line: u32) -> MockDefinition {
    MockDefinition { path: path.to_string(), line, character: 0 }
}

#[test]
fn definition_lookup_prefers_exact_position() {
    let definitions = vec![
        ("app.py".to_string(), def("wild.py", 1)),
        ("app.py:3:8".to_string(), def("exact.py", 2)),
    ];

    let exact = lookup_definition(&definitions, "file:///w/app.py", 3, 8).unwrap();
    assert_eq!(exact.path, "exact.py");

    let wild = lookup_definition(&definitions, "file:///w/app.py", 9, 9).unwrap();
    assert_eq!(wild.path, "wild.py");

    assert!(lookup_definition(&definitions, "file:///w/other.py", 3, 8).is_none());
}

#[test]
fn non_numeric_position_keys_are_suffixes() {
    let definitions = vec![
        ("a:b:c".to_string(), def("colons.py", 1)),
        ("w/x.py".to_string(), def("first.py", 2)),
        ("x.py".to_string(), def("last.py", 3)),
    ];
    assert_eq!(lookup_definition(&definitions, "file:///a:b:c", 0, 0).unwrap().path, "colons.py");
    // The last matching bare suffix wins.
    assert_eq!(lookup_definition(&definitions, "file:///w/x.py", 0, 0).unwrap().path, "last.py");
    // A numeric key that does not match the position is no wildcard.
    let numeric = vec![("x.py:1:2".to_string(), def("exact.py", 1))];
    assert!(lookup_definition(&numeric, "file:///w/x.py", 0, 0).is_none());
}
