use pubky_hs_inspect::sse::{parse_sse_batch, ready_sse_events, SseEvent};
use pubky_hs_inspect::stream::{stream_step, StreamAction, StreamEvent, StreamState};

fn paths(events: &[SseEvent]) -> Vec<String> {
    events.iter().map(|e| e.path.clone()).collect()
}

fn printed(action: &StreamAction) -> Vec<String> {
    match action {
        StreamAction::Print(p) => paths(p),
        StreamAction::Stop { print, .. } => paths(print),
    }
}

#[test]
fn batches_joined_by_a_blank_line_give_both_batches_events() {
    let a = "path: PUT /a\ncursor: 1\ncontent_hash: X";
    let b = "path: DEL /b\ncursor: 2\n";
    let joined = format!("{a}\n\n{b}");
    let events = parse_sse_batch(&joined);
    let first = parse_sse_batch(a);
    let second = parse_sse_batch(b);
    assert_eq!(events.len(), first.len() + second.len());
    assert_eq!(paths(&events), vec!["PUT /a".to_string(), "DEL /b".to_string()]);
    assert_eq!(events[0].content_hash, Some("X".to_string()));
    assert_eq!(events[1].cursor, 2);
    assert!(events[1].content_hash.is_none());
}

#[test]
fn a_hash_left_open_in_the_first_batch_does_not_reach_the_second() {
    let a = "content_hash: X";
    let b = "path: P\ncursor: 1\n";
    let events = parse_sse_batch(&format!("{a}\n\n{b}"));
    assert_eq!(events.len(), 1);
    assert_eq!(events[0].path, "P");
    assert!(events[0].content_hash.is_none());
}

#[test]
fn ready_events_wait_for_the_blank_line_and_a_complete_line() {
    assert!(ready_sse_events("path: P\ncursor: 1\n").is_empty());
    assert!(ready_sse_events("path: P\ncursor: 1\n\r").is_empty());
    let ready = ready_sse_events("path: P\ncursor: 1\r\n\r\npath: Q\n");
    assert_eq!(paths(&ready), vec!["P".to_string()]);
    assert_eq!(ready[0].cursor, 1);
}

#[test]
fn stream_prints_events_once_closed_and_stops_at_the_limit() {
    let st = StreamState::new(false, Some(2));
    let (st, a) = stream_step(st, StreamEvent::Chunk("path: A\ncursor: 1\n".to_string()));
    assert!(matches!(a, StreamAction::Print(ref p) if p.is_empty()));
    assert_eq!(st.printed, 0);
    let (st, a) = stream_step(st, StreamEvent::Chunk("\npath: B\ncursor: 2\n\npath: C\ncursor: 3\n\n".to_string()));
    assert_eq!(printed(&a), vec!["A".to_string(), "B".to_string()]);
    assert!(matches!(a, StreamAction::Stop { report_count: false, .. }));
    assert_eq!(st.printed, 2);
}

#[test]
fn stream_end_prints_the_rest_and_reports_the_count() {
    let st = StreamState::new(false, None);
    let (st, a) = stream_step(st, StreamEvent::Chunk("path: A\ncursor: 1\n\npath: B\ncur".to_string()));
    assert_eq!(printed(&a), vec!["A".to_string()]);
    let (st, a) = stream_step(st, StreamEvent::Chunk("sor: 2".to_string()));
    assert!(printed(&a).is_empty());
    let (st, a) = stream_step(st, StreamEvent::End);
    assert_eq!(printed(&a), vec!["B".to_string()]);
    assert!(matches!(a, StreamAction::Stop { report_count: true, .. }));
    assert_eq!(st.printed, 2);
}

#[test]
fn live_stream_has_no_limit_and_reports_no_count() {
    let st = StreamState::new(true, Some(1));
    let (st, a) = stream_step(st, StreamEvent::Chunk("path: A\ncursor: 1\n\npath: B\ncursor: 2\n\n".to_string()));
    assert_eq!(printed(&a), vec!["A".to_string(), "B".to_string()]);
    assert!(matches!(a, StreamAction::Print(_)));
    let (_st, a) = stream_step(st, StreamEvent::End);
    assert!(matches!(a, StreamAction::Stop { report_count: false, .. }));
    assert!(printed(&a).is_empty());
}

#[test]
fn limit_zero_prints_nothing() {
    let st = StreamState::new(false, Some(0));
    let (st, a) = stream_step(st, StreamEvent::Chunk("path: A\ncursor: 1\n\n".to_string()));
    assert!(printed(&a).is_empty());
    assert!(matches!(a, StreamAction::Stop { report_count: false, .. }));
    assert_eq!(st.printed, 0);
}

#[test]
fn default_limit_is_twenty() {
    let mut text = String::new();
    for i in 0..25 {
        text.push_str(&format!("path: PUT /f{i}\ncursor: {i}\n\n"));
    }
    let st = StreamState::new(false, None);
    let (st, a) = stream_step(st, StreamEvent::Chunk(text));
    assert_eq!(printed(&a).len(), 20);
    assert!(matches!(a, StreamAction::Stop { report_count: false, .. }));
    assert_eq!(st.printed, 20);
}
