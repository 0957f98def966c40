use pubky_hs_inspect::body::{body_lines, rendered_body};
use pubky_hs_inspect::client::key_display;
use pubky_hs_inspect::sse::text_lines;

#[test]
fn json_object_is_pretty_printed_line_by_line() {
    let lines = rendered_body("{\"age\":3,\"name\":\"bob\"}", "  ", None).unwrap();
    assert_eq!(
        lines,
        vec![
            "  {".to_string(),
            "    \"age\": 3,".to_string(),
            "    \"name\": \"bob\"".to_string(),
            "  }".to_string(),
        ]
    );
}

#[test]
fn json_lines_are_capped() {
    let lines = rendered_body("  {\"a\":1,\"b\":2}", "     ", Some(2)).unwrap();
    assert_eq!(lines, vec!["     {".to_string(), "       \"a\": 1,".to_string()]);
}

#[test]
fn text_that_is_not_a_json_object_is_not_rendered() {
    assert!(rendered_body("hello", "  ", None).is_none());
    assert!(rendered_body("[1, 2]", "  ", None).is_none());
    assert!(rendered_body("{not json", "  ", None).is_none());
}

#[test]
fn body_lines_use_the_given_pretty_form() {
    let lines = body_lines("{}", Some("a\nb\r\nc".to_string()), "> ", None).unwrap();
    assert_eq!(lines, vec!["> a".to_string(), "> b".to_string(), "> c".to_string()]);
    assert!(body_lines("{}", None, "> ", None).is_none());
    assert!(body_lines("x", Some("a".to_string()), "> ", None).is_none());
}

#[test]
fn text_lines_split_like_str_lines() {
    assert_eq!(text_lines("a\nb\r\n\nc"), vec!["a", "b", "", "c"]);
    assert!(text_lines("").is_empty());
    assert_eq!(text_lines("x\n"), vec!["x"]);
}

#[test]
fn key_display_prefixes_pubky() {
    assert_eq!(
        key_display("8um71us3fyw6h8wbcxb5ar3rwusy1a6u49956ikzojg3gcwd1dty"),
        "pubky8um71us3fyw6h8wbcxb5ar3rwusy1a6u49956ikzojg3gcwd1dty"
    );
}
