use pubky_hs_inspect::sse::parse_sse_batch;

#[test]
fn test_parse_sse_single_event_no_hash() {
    let input = "path: PUT /pub/my-file.txt\ncursor: 42\n";
    let events = parse_sse_batch(input);
    assert_eq!(events.len(), 1);
    assert_eq!(events[0].path, "PUT /pub/my-file.txt");
    assert_eq!(events[0].cursor, 42);
    assert!(events[0].content_hash.is_none());
}

#[test]
fn test_parse_sse_single_event_with_hash() {
    let input = "path: PUT /pub/my-file.txt\ncursor: 42\ncontent_hash: YWJjZGVm\n";
    let events = parse_sse_batch(input);
    assert_eq!(events.len(), 1);
    assert_eq!(events[0].path, "PUT /pub/my-file.txt");
    assert_eq!(events[0].cursor, 42);
    assert_eq!(events[0].content_hash, Some("YWJjZGVm".to_string()));
}

#[test]
fn test_parse_sse_multiple_events() {
    let input = "path: PUT /pub/file1.txt\ncursor: 42\n\npath: DEL /pub/file2.txt\ncursor: 43\ncontent_hash: c29tZWhhc2g=\n";
    let events = parse_sse_batch(input);
    assert_eq!(events.len(), 2);
    assert_eq!(events[0].path, "PUT /pub/file1.txt");
    assert_eq!(events[0].cursor, 42);
    assert!(events[0].content_hash.is_none());
    assert_eq!(events[1].path, "DEL /pub/file2.txt");
    assert_eq!(events[1].cursor, 43);
    assert_eq!(events[1].content_hash, Some("c29tZWhhc2g=".to_string()));
}

#[test]
fn test_parse_sse_trailing_newline() {
    let input = "path: PUT /pub/file.txt\ncursor: 10\n\n";
    let events = parse_sse_batch(input);
    assert_eq!(events.len(), 1);
    assert_eq!(events[0].path, "PUT /pub/file.txt");
    assert_eq!(events[0].cursor, 10);
}

#[test]
fn test_parse_sse_empty_input() {
    let input = "";
    let events = parse_sse_batch(input);
    assert!(events.is_empty());
}

#[test]
fn test_parse_sse_only_whitespace() {
    let input = "   \n  \n";
    let events = parse_sse_batch(input);
    assert!(events.is_empty());
}

#[test]
fn crlf_line_endings_and_trailing_space_are_ignored() {
    let events = parse_sse_batch("path: PUT /a \r\ncursor:  7 \r\ncontent_hash:  h1 \r\n\r\n");
    assert_eq!(events.len(), 1);
    assert_eq!(events[0].path, "PUT /a");
    assert_eq!(events[0].cursor, 7);
    assert_eq!(events[0].content_hash, Some("h1".to_string()));
}

#[test]
fn block_without_cursor_is_dropped_with_its_hash() {
    let events = parse_sse_batch("path: PUT /a\ncontent_hash: h\n\npath: PUT /b\ncursor: 2\n");
    assert_eq!(events.len(), 1);
    assert_eq!(events[0].path, "PUT /b");
    assert_eq!(events[0].cursor, 2);
    assert_eq!(events[0].content_hash, None);
}

#[test]
fn hash_of_a_lone_block_does_not_reach_the_next_event() {
    let events = parse_sse_batch("content_hash: X\n\npath: P\ncursor: 1\n");
    assert_eq!(events.len(), 1);
    assert_eq!(events[0].path, "P");
    assert_eq!(events[0].cursor, 1);
    assert!(events[0].content_hash.is_none());
}

#[test]
fn cursor_numbers_follow_u64_parsing() {
    let read = |c: &str| {
        let text = format!("path: PUT /a\ncursor: {c}\n");
        parse_sse_batch(&text).first().map(|e| e.cursor)
    };
    assert_eq!(read("+42"), Some(42));
    assert_eq!(read("007"), Some(7));
    assert_eq!(read("18446744073709551615"), Some(u64::MAX));
    assert_eq!(read("18446744073709551616"), None);
    assert_eq!(read("-1"), None);
    assert_eq!(read("+"), None);
    assert_eq!(read("4 2"), None);
    assert_eq!(read("x"), None);
}

#[test]
fn later_field_lines_overwrite_earlier_ones() {
    let events = parse_sse_batch("path: PUT /a\npath: DEL /b\ncursor: 1\ncursor: 2\nother: x\n");
    assert_eq!(events.len(), 1);
    assert_eq!(events[0].path, "DEL /b");
    assert_eq!(events[0].cursor, 2);
}

#[test]
fn written_events_read_back() {
    let text = "path: PUT /pub/a.txt\ncursor: 1\ncontent_hash: aGFzaA==\n\npath: DEL /pub/b.txt\ncursor: 18446744073709551615\n\n";
    let events = parse_sse_batch(text);
    assert_eq!(events.len(), 2);
    assert_eq!(events[0].path, "PUT /pub/a.txt");
    assert_eq!(events[0].cursor, 1);
    assert_eq!(events[0].content_hash, Some("aGFzaA==".to_string()));
    assert_eq!(events[1].path, "DEL /pub/b.txt");
    assert_eq!(events[1].cursor, u64::MAX);
    assert_eq!(events[1].content_hash, None);
}
