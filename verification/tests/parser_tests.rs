use c2_tracker::digest::sha1_hex;
use c2_tracker::parser::{merge_meta, parse_line, parse_lines, parse_lines_checked, LineError};
use c2_tracker::text::{text_preview, trim};
use c2_tracker::types::{EventCategory, SessionMeta};

const USER_LINE: &str = r#"{"type":"user","uuid":"u-1","parentUuid":null,"sessionId":"sess-1","cwd":"/home/me/proj","version":"2.1.3","gitBranch":"main","timestamp":"2025-06-18T10:00:00.000Z","message":{"role":"user","content":"hello there"}}"#;

const ASSISTANT_LINE: &str = r#"{"type":"assistant","uuid":"a-1","parentUuid":"u-1","sessionId":"sess-1","timestamp":"2025-06-18T10:00:05.000Z","durationMs":1200,"message":{"role":"assistant","model":"model-x","stop_reason":"tool_use","usage":{"input_tokens":10,"output_tokens":20,"cache_creation_input_tokens":0,"cache_read_input_tokens":5},"content":[{"type":"tool_use","id":"t-1","name":"Bash","input":{"command":"ls"}}]}}"#;

const TITLE_LINE: &str = r#"{"type":"ai-title","aiTitle":"Fix the parser","sessionId":"sess-1"}"#;

#[test]
fn user_line() {
    let (ev, meta) = parse_line(USER_LINE).unwrap();
    assert_eq!(ev.uuid, "u-1");
    assert_eq!(ev.parent_uuid, None);
    assert_eq!(ev.event_type, "user");
    assert_eq!(ev.category, EventCategory::Content);
    assert_eq!(ev.role.as_deref(), Some("user"));
    assert_eq!(ev.content_kind.as_deref(), Some("text"));
    assert_eq!(ev.text_preview.as_deref(), Some("hello there"));
    assert_eq!(ev.timestamp_ms, Some(1_750_240_800_000));
    assert_eq!(ev.content, USER_LINE);
    assert!(!ev.is_sidechain);
    assert_eq!(meta.session_id.as_deref(), Some("sess-1"));
    assert_eq!(meta.cwd.as_deref(), Some("/home/me/proj"));
    assert_eq!(meta.project_name.as_deref(), Some("proj"));
    assert_eq!(meta.cli_version.as_deref(), Some("2.1.3"));
    assert_eq!(meta.git_branch.as_deref(), Some("main"));
    assert_eq!(meta.started_at, Some(1_750_240_800_000));
    assert_eq!(meta.last_event_at, Some(1_750_240_800_000));
    assert_eq!(meta.event_count, 1);
}

#[test]
fn assistant_tool_use_line() {
    let (ev, meta) = parse_line(ASSISTANT_LINE).unwrap();
    assert_eq!(ev.uuid, "a-1");
    assert_eq!(ev.parent_uuid.as_deref(), Some("u-1"));
    assert_eq!(ev.content_kind.as_deref(), Some("tool_use"));
    assert_eq!(ev.tool_name.as_deref(), Some("Bash"));
    assert_eq!(ev.tool_use_id.as_deref(), Some("t-1"));
    assert_eq!(ev.stop_reason.as_deref(), Some("tool_use"));
    assert_eq!(ev.duration_ms, Some(1200));
    assert_eq!(ev.input_tokens, Some(10));
    assert_eq!(ev.output_tokens, Some(20));
    assert_eq!(ev.cache_creation_tokens, None);
    assert_eq!(ev.cache_read_tokens, Some(5));
    assert_eq!(meta.model.as_deref(), Some("model-x"));
    assert_eq!(meta.input_tokens_delta, 10);
    assert_eq!(meta.output_tokens_delta, 20);
    assert_eq!(meta.cache_read_delta, 5);
}

#[test]
fn meta_line_without_uuid_is_keyed_by_hash() {
    let (ev, meta) = parse_line(TITLE_LINE).unwrap();
    assert_eq!(ev.uuid, format!("meta:{}", sha1_hex(TITLE_LINE)));
    assert_eq!(ev.category, EventCategory::Meta);
    assert_eq!(meta.ai_title.as_deref(), Some("Fix the parser"));
    // reading the same line again gives the same key
    let (again, _) = parse_line(TITLE_LINE).unwrap();
    assert_eq!(again.uuid, ev.uuid);
    assert_eq!(ev.uuid.len(), 45);
    assert!(ev.uuid[5..].chars().all(|c| c.is_ascii_digit() || ('a'..='f').contains(&c)));
}

#[test]
fn hook_error_attachment_without_uuid() {
    let line = r#"{"type":"attachment","attachment":{"type":"hook_non_blocking_error","hookEvent":"Stop"}}"#;
    let (ev, meta) = parse_line(line).unwrap();
    assert_eq!(ev.category, EventCategory::Attachment);
    assert_eq!(ev.attachment_kind.as_deref(), Some("hook_non_blocking_error"));
    assert!(ev.is_error);
    assert!(ev.uuid.starts_with("meta:"));
    assert_eq!(ev.uuid.len(), 45);
    assert_eq!(ev.timestamp_ms, None);
    assert_eq!(meta.hook_error_delta, 1);
    assert_eq!(meta.hook_success_delta, 0);
}

#[test]
fn attachment_lines_count_hooks() {
    let ok = r#"{"type":"attachment","uuid":"x-1","attachment":{"type":"hook_success"}}"#;
    let bad = r#"{"type":"attachment","uuid":"x-2","attachment":{"type":"hook_non_blocking_error"}}"#;
    let (ev, meta) = parse_line(ok).unwrap();
    assert_eq!(ev.category, EventCategory::Attachment);
    assert_eq!(ev.attachment_kind.as_deref(), Some("hook_success"));
    assert_eq!(meta.hook_success_delta, 1);
    assert!(!ev.is_error);
    let (ev, meta) = parse_line(bad).unwrap();
    assert!(ev.is_error);
    assert_eq!(meta.hook_error_delta, 1);
}

#[test]
fn tool_result_line() {
    let line = r#"{"type":"user","uuid":"r-1","message":{"role":"user","content":[{"type":"tool_result","tool_use_id":"t-1","is_error":true,"content":[{"type":"text","text":"boom"}]}]}}"#;
    let (ev, _) = parse_line(line).unwrap();
    assert_eq!(ev.content_kind.as_deref(), Some("tool_result"));
    assert_eq!(ev.tool_use_id.as_deref(), Some("t-1"));
    assert!(ev.is_error);
    assert_eq!(ev.text_preview.as_deref(), Some("boom"));
}

#[test]
fn line_errors() {
    assert_eq!(parse_line("not json").err(), Some(LineError::InvalidJson));
    assert_eq!(parse_line("[1,2]").err(), Some(LineError::NotAnObject));
    assert_eq!(parse_line("42").err(), Some(LineError::NotAnObject));
}

#[test]
fn missing_type_is_named() {
    let (ev, _) = parse_line(r#"{"uuid":"q"}"#).unwrap();
    assert_eq!(ev.event_type, "(no-type)");
    assert_eq!(ev.category, EventCategory::Meta);
}

#[test]
fn merging_meta() {
    let (_, mut a) = parse_line(USER_LINE).unwrap();
    let (_, b) = parse_line(ASSISTANT_LINE).unwrap();
    merge_meta(&mut a, b);
    assert_eq!(a.session_id.as_deref(), Some("sess-1"));
    assert_eq!(a.model.as_deref(), Some("model-x"));
    assert_eq!(a.started_at, Some(1_750_240_800_000));
    assert_eq!(a.last_event_at, Some(1_750_240_805_000));
    assert_eq!(a.event_count, 2);
    assert_eq!(a.input_tokens_delta, 10);
    let mut empty = SessionMeta::default();
    let (_, c) = parse_line(TITLE_LINE).unwrap();
    merge_meta(&mut empty, c);
    assert_eq!(empty.ai_title.as_deref(), Some("Fix the parser"));
    assert_eq!(empty.event_count, 1);
}

fn lines(v: &[&str]) -> Vec<String> {
    v.iter().map(|s| s.to_string()).collect()
}

#[test]
fn batch_of_lines() {
    let all = lines(&[USER_LINE, "", "   ", "garbage", ASSISTANT_LINE, TITLE_LINE]);
    let b = parse_lines(&all, 777);
    assert_eq!(b.events.len(), 3);
    assert_eq!(b.parse_errors, 1);
    assert_eq!(b.new_offset, 777);
    assert_eq!(b.meta.event_count, 3);
    assert_eq!(b.meta.ai_title.as_deref(), Some("Fix the parser"));
    let uuids: Vec<&str> = b.events.iter().map(|e| e.uuid.as_str()).collect();
    assert_eq!(uuids[0], "u-1");
    assert_eq!(uuids[1], "a-1");
}

#[test]
fn reading_in_two_runs_matches_reading_at_once() {
    let first = lines(&[USER_LINE, "bad"]);
    let second = lines(&[ASSISTANT_LINE, TITLE_LINE]);
    let mut whole = first.clone();
    whole.extend(second.clone());
    let a = parse_lines(&first, 0);
    let b = parse_lines(&second, 0);
    let w = parse_lines(&whole, 0);
    let split: Vec<String> = a.events.iter().chain(b.events.iter()).map(|e| e.uuid.clone()).collect();
    let at_once: Vec<String> = w.events.iter().map(|e| e.uuid.clone()).collect();
    assert_eq!(split, at_once);
    assert_eq!(a.parse_errors + b.parse_errors, w.parse_errors);
    let mut m = a.meta.clone();
    merge_meta(&mut m, b.meta.clone());
    assert_eq!(m.event_count, w.meta.event_count);
    assert_eq!(m.last_event_at, w.meta.last_event_at);
    assert_eq!(m.ai_title, w.meta.ai_title);
}

#[test]
fn checked_batch_refuses_overflow() {
    let big = r#"{"type":"assistant","uuid":"b","message":{"usage":{"input_tokens":9223372036854775807}}}"#;
    assert!(parse_lines_checked(&lines(&[big]), 0).is_some());
    assert!(parse_lines_checked(&lines(&[big, big]), 0).is_none());
}

#[test]
fn text_helpers() {
    let long: String = std::iter::repeat('é').take(250).collect();
    assert_eq!(text_preview(&long).chars().count(), 200);
    assert_eq!(text_preview("short"), "short");
    assert_eq!(trim("  a b \n"), "a b");
    assert_eq!(trim("\u{3000}x\u{a0}"), "x");
    assert_eq!(sha1_hex("abc"), "a9993e364706816aba3e25717850c26c9cd0d89d");
    assert_eq!(sha1_hex(""), "da39a3ee5e6b4b0d3255bfef95601890afd80709");
}

#[test]
fn merging_is_associative_and_has_an_identity() {
    let (_, a) = parse_line(USER_LINE).unwrap();
    let (_, b) = parse_line(ASSISTANT_LINE).unwrap();
    let (_, c) = parse_line(TITLE_LINE).unwrap();
    let mut left = a.clone();
    merge_meta(&mut left, b.clone());
    merge_meta(&mut left, c.clone());
    let mut bc = b.clone();
    merge_meta(&mut bc, c.clone());
    let mut right = a.clone();
    merge_meta(&mut right, bc);
    assert_eq!(format!("{:?}", left), format!("{:?}", right));
    let mut with_empty = a.clone();
    merge_meta(&mut with_empty, SessionMeta::default());
    assert_eq!(format!("{:?}", with_empty), format!("{:?}", a));
    let mut from_empty = SessionMeta::default();
    merge_meta(&mut from_empty, a.clone());
    assert_eq!(format!("{:?}", from_empty), format!("{:?}", a));
}
