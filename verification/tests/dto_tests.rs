use c2_tracker::dto::{
    active_cutoff, cap_u32, clock_label, compute_status, event_from_row, event_limit, events_from_rows,
    extract_tool_io, fmt_duration, fmt_time, issue_from_row, issue_limit, map_kind, session_dto, stats_dto,
    EventRow, IssueRow, SessionRow,
};

#[test]
fn test_compute_status_logic() {
    let now = 1_000_000_000_000i64;
    assert_eq!(compute_status(1, now - 1000, now), "ended");
    assert_eq!(compute_status(0, now - 31 * 60_000, now), "ended");
    assert_eq!(compute_status(0, now - 60_000, now), "live");
    assert_eq!(compute_status(0, now - 5 * 60_000, now), "idle");
}

#[test]
fn test_fmt_duration() {
    assert_eq!(fmt_duration(0, 45 * 60_000), "45m");
    assert_eq!(fmt_duration(0, 72 * 60_000), "1h 12m");
    assert_eq!(fmt_duration(0, 0), "0m");
}

#[test]
fn test_map_kind() {
    assert_eq!(map_kind("assistant", Some("thinking")), "thinking");
    assert_eq!(map_kind("assistant", Some("tool_use")), "tool_use");
    assert_eq!(map_kind("user", Some("tool_result")), "tool_result");
    assert_eq!(map_kind("user", None), "user");
    assert_eq!(map_kind("assistant", Some("text")), "assistant");
}

#[test]
fn status_boundaries() {
    let now = 10_000_000i64;
    // exactly 2 minutes old is no longer live
    assert_eq!(compute_status(0, now - 2 * 60_000, now), "idle");
    assert_eq!(compute_status(0, now - 2 * 60_000 + 1, now), "live");
    // exactly 30 minutes old has ended
    assert_eq!(compute_status(0, now - 30 * 60_000, now), "ended");
    assert_eq!(compute_status(0, now - 30 * 60_000 + 1, now), "idle");
    // an event in the future counts as live
    assert_eq!(compute_status(0, now + 5 * 60_000, now), "live");
}

#[test]
fn duration_never_negative() {
    assert_eq!(fmt_duration(100_000, 0), "0m");
    assert_eq!(fmt_duration(0, 59_999), "0m");
    assert_eq!(fmt_duration(0, 60 * 60_000), "1h 0m");
    assert_eq!(fmt_duration(0, 25 * 60 * 60_000 + 61_000), "25h 1m");
}

#[test]
fn kind_of_other_events() {
    assert_eq!(map_kind("summary", None), "summary");
    assert_eq!(map_kind("assistant", None), "assistant");
    assert_eq!(map_kind("user", Some("text")), "user");
}

#[test]
fn time_labels() {
    assert_eq!(fmt_time(None), "\u{2014}");
    assert_eq!(clock_label(None), "\u{2014}");
    assert_eq!(clock_label(Some((9, 5, 7))), "09:05:07");
    assert_eq!(clock_label(Some((23, 59, 0))), "23:59:00");
    let label = fmt_time(Some(0));
    assert_eq!(label.chars().count(), 8);
    assert_ne!(label, "\u{2014}");
    let parts: Vec<&str> = label.split(':').collect();
    assert_eq!(parts.len(), 3);
    assert!(parts.iter().all(|p| p.len() == 2 && p.chars().all(|c| c.is_ascii_digit())));
    assert_ne!(fmt_time(Some(1_750_000_000_000)), "\u{2014}");
}

#[test]
fn limits_and_cutoff() {
    assert_eq!(event_limit(None), 500);
    assert_eq!(event_limit(Some(20)), 20);
    assert_eq!(issue_limit(None), 50);
    assert_eq!(issue_limit(Some(7)), 7);
    assert_eq!(active_cutoff(1_000_000), 1_000_000 - 120_000);
    assert_eq!(cap_u32(5), 5);
    assert_eq!(cap_u32(i64::MAX), u32::MAX);
    assert_eq!(cap_u32(u32::MAX as i64 + 1), u32::MAX);
}

#[test]
fn stats_header() {
    let s = stats_dto(3, 1234, 9, 2);
    assert_eq!(s.sessions_today, 3);
    assert_eq!(s.tokens_today, 1234);
    assert_eq!(s.tool_calls_today, 9);
    assert_eq!(s.active_sessions_count, 2);
    assert_eq!(s.recording_count, 2);
}

fn session_row(has_stop: i64, last: i64) -> SessionRow {
    SessionRow {
        id: "s1".to_string(),
        project: "proj".to_string(),
        cwd: "/home/u/proj".to_string(),
        started_at: 0,
        last_event_at: last,
        total_events: 12,
        total_input_tokens: 100,
        total_output_tokens: 50,
        model: "m".to_string(),
        ai_title: "title".to_string(),
        has_stop_event: has_stop,
        git_branch: Some("main".to_string()),
    }
}

#[test]
fn session_entry() {
    let now = 72 * 60_000;
    let dto = session_dto(session_row(0, now - 60_000), now);
    assert_eq!(dto.id, "s1");
    assert_eq!(dto.project, "proj");
    assert_eq!(dto.status, "live");
    assert_eq!(dto.duration_label, "1h 11m");
    assert_eq!(dto.event_count, 12);
    assert_eq!(dto.token_count, 150);
    assert_eq!(dto.git_branch.as_deref(), Some("main"));
    assert_eq!(dto.total_input_tokens, 100);
    let ended = session_dto(session_row(1, now), now);
    assert_eq!(ended.status, "ended");
}

fn event_row(id: i64, ty: &str, kind: Option<&str>, content: &str) -> EventRow {
    EventRow {
        id,
        session_id: "s1".to_string(),
        event_type: ty.to_string(),
        category: "content".to_string(),
        content_kind: kind.map(|k| k.to_string()),
        tool_name: None,
        tool_use_id: None,
        is_error: 0,
        text_preview: None,
        content: content.to_string(),
        timestamp: None,
        duration_ms: Some(1500),
        input_tokens: Some(3),
        output_tokens: Some(40),
    }
}

#[test]
fn event_entries() {
    let thinking = event_from_row(event_row(1, "assistant", Some("thinking"), "{}"));
    assert_eq!(thinking.kind, "thinking");
    assert_eq!(thinking.thinking_duration_ms, Some(1500));
    assert_eq!(thinking.thinking_tokens, Some(40));
    assert_eq!(thinking.text, "");
    assert_eq!(thinking.timestamp_label, "\u{2014}");
    assert!(!thinking.is_error);
    let plain = event_from_row(event_row(2, "user", None, "{}"));
    assert_eq!(plain.kind, "user");
    assert_eq!(plain.thinking_duration_ms, None);
    assert_eq!(plain.thinking_tokens, None);
}

#[test]
fn stream_is_oldest_first() {
    let rows = vec![
        event_row(3, "user", None, "{}"),
        event_row(2, "assistant", None, "{}"),
        event_row(1, "user", None, "{}"),
    ];
    let out = events_from_rows(rows);
    let ids: Vec<i64> = out.iter().map(|e| e.id).collect();
    assert_eq!(ids, vec![1, 2, 3]);
}

#[test]
fn tool_io_from_content() {
    let use_line = r#"{"message":{"content":[{"type":"tool_use","name":"Bash","input":{"command":"ls"}}]}}"#;
    let (input, output) = extract_tool_io("tool_use", use_line);
    assert_eq!(input.as_deref(), Some(r#"{"command":"ls"}"#));
    assert_eq!(output, None);

    let result_line = r#"{"toolUseResult":{"content":"done"},"message":{"content":[{"type":"tool_result","content":"other"}]}}"#;
    let (input, output) = extract_tool_io("tool_result", result_line);
    assert_eq!(input, None);
    assert_eq!(output.as_deref(), Some("done"));

    let nested = r#"{"message":{"content":[{"type":"tool_result","content":"from block"}]}}"#;
    let (_, output) = extract_tool_io("tool_result", nested);
    assert_eq!(output.as_deref(), Some("from block"));

    assert_eq!(extract_tool_io("tool_use", "not json"), (None, None));
    assert_eq!(extract_tool_io("assistant", use_line), (None, None));
}

#[test]
fn issue_entry() {
    let long: String = std::iter::repeat('x').take(400).collect();
    let dto = issue_from_row(IssueRow {
        id: 9,
        session_id: "s1".to_string(),
        session_title: "t".to_string(),
        attachment_kind: "hook_non_blocking_error".to_string(),
        timestamp: None,
        content: long,
    });
    assert_eq!(dto.snippet.chars().count(), 300);
    assert_eq!(dto.timestamp_label, "\u{2014}");
    assert_eq!(dto.id, 9);
}

#[test]
fn status_moves_forward_with_time() {
    let last = 5_000_000i64;
    let rank = |s: &str| match s {
        "live" => 0,
        "idle" => 1,
        _ => 2,
    };
    let mut prev = 0;
    let mut now = last - 10 * 60_000;
    while now < last + 40 * 60_000 {
        let r = rank(compute_status(0, last, now));
        assert!(r >= prev, "status went back at {}", now);
        prev = r;
        now += 7_919;
    }
    assert_eq!(prev, 2);
}
