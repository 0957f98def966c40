use pubky_hs_inspect::listing::{
    after_listing, direct_body_found, events_stream_url, events_url, format_list, split_event_listing, storage_lines, ListOutcome,
    StorageAction,
};
use pubky_hs_inspect::sse::decimal_string;
use pubky_hs_inspect::shared::{can_cut_event_line, split_event_line};

const USER_KEY: &str = "8um71us3fyw6h8wbcxb5ar3rwusy1a6u49956ikzojg3gcwd1dty";

#[test]
fn storage_listing_lines_are_relative_and_marked() {
    let target = format!("pubky://{USER_KEY}/pub/");
    let entries = vec![
        format!("pubky://{USER_KEY}/pub/pubky.app/profile.json"),
        format!("pubky://{USER_KEY}/pub/my-app/"),
        "elsewhere/file.txt".to_string(),
    ];
    let lines = format_list(&target, &entries);
    assert_eq!(
        lines,
        vec![
            "   📄 pubky.app/profile.json".to_string(),
            "   📁 my-app/".to_string(),
            "   📄 elsewhere/file.txt".to_string(),
        ]
    );
    assert!(format_list(&target, &Vec::new()).is_empty());
}

#[test]
fn listed_directory_itself_shows_empty_name() {
    let lines = format_list("pubky://k/pub/", &vec!["pubky://k/pub/".to_string()]);
    assert_eq!(lines, vec!["   📄 ".to_string()]);
}

#[test]
fn event_listing_splits_lines_and_cursor() {
    let body = "PUT pubky://a/pub/x\nDEL pubky://a/pub/y\r\n\ncursor: 17\n";
    let listing = split_event_listing(body);
    assert_eq!(
        listing.lines,
        vec!["PUT pubky://a/pub/x".to_string(), "DEL pubky://a/pub/y".to_string()]
    );
    assert_eq!(listing.cursor, Some("17".to_string()));
}

#[test]
fn event_listing_keeps_the_last_cursor() {
    let listing = split_event_listing("cursor: 1\nPUT x\ncursor: 2");
    assert_eq!(listing.lines, vec!["PUT x".to_string()]);
    assert_eq!(listing.cursor, Some("2".to_string()));
    let empty = split_event_listing("");
    assert!(empty.lines.is_empty());
    assert_eq!(empty.cursor, None);
}

#[test]
fn event_lines_that_would_cut_a_character_are_refused() {
    assert!(can_cut_event_line("PUT /pub/x"));
    assert!(can_cut_event_line(""));
    assert!(can_cut_event_line("  PUT x"));
    // The first word has two bytes; the line's first two bytes are inside
    // the three-byte ideographic space.
    assert!(!can_cut_event_line("\u{3000}AB"));
    let wide = split_event_line("é x").unwrap();
    assert_eq!(wide.event_type, "é");
    assert_eq!(wide.rest, "x");
}

#[test]
fn storage_preview_shows_all_of_a_short_listing() {
    let entries = vec!["a".to_string(), "b".to_string()];
    assert_eq!(storage_lines(&entries), vec!["     a".to_string(), "     b".to_string()]);
    assert!(storage_lines(&Vec::new()).is_empty());
}

#[test]
fn storage_preview_cuts_at_ten_and_counts_the_rest() {
    let entries: Vec<String> = (0..12).map(|i| format!("e{i}")).collect();
    let lines = storage_lines(&entries);
    assert_eq!(lines.len(), 11);
    assert_eq!(lines[0], "     e0");
    assert_eq!(lines[9], "     e9");
    assert_eq!(lines[10], "     ... and 2 more");
}

#[test]
fn after_listing_decides_what_comes_next() {
    let listed = ListOutcome::Listed(vec!["x".to_string()]);
    assert_eq!(after_listing(&listed, Some("hs.example")), StorageAction::ShowEntries);
    let empty = ListOutcome::Listed(Vec::new());
    assert_eq!(after_listing(&empty, None), StorageAction::NoEntries);
    let failed = ListOutcome::Failed("boom".to_string());
    assert_eq!(
        after_listing(&failed, Some("hs.example")),
        StorageAction::TryDirect("https://hs.example/pub/?limit=5".to_string())
    );
    assert_eq!(after_listing(&failed, None), StorageAction::ReportError);
}

#[test]
fn direct_body_is_found_by_items_or_array() {
    assert!(direct_body_found("{\"items\": []}"));
    assert!(direct_body_found("[1, 2]"));
    assert!(!direct_body_found(" [1]"));
    assert!(!direct_body_found("<html></html>"));
}

#[test]
fn decimal_string_writes_numbers() {
    assert_eq!(decimal_string(0), "0");
    assert_eq!(decimal_string(2), "2");
    assert_eq!(decimal_string(1234567890), "1234567890");
    assert_eq!(decimal_string(u64::MAX), u64::MAX.to_string());
}

#[test]
fn events_url_carries_the_given_parameters() {
    assert_eq!(
        events_url("https://hs.example", None, Some(10), Some(USER_KEY), false),
        format!("https://hs.example/events/?user={USER_KEY}&limit=10")
    );
    assert_eq!(
        events_url("https://hs.example", Some("42"), None, None, true),
        "https://hs.example/events/?cursor=42&reverse=true"
    );
    assert_eq!(events_url("https://hs.example", None, None, None, false), "https://hs.example/events/?");
    assert_eq!(
        events_stream_url("https://hs.example", Some(USER_KEY), Some(5), true),
        format!("https://hs.example/events-stream/?user={USER_KEY}&limit=5&reverse=true")
    );
}
