use c2_tracker::counter::Counter;
use c2_tracker::stats::{
    duration_minutes, parse_file_lines, process_line, run_lines, update_stats, Stats, StatsLineError,
};

const A: &str = r#"{"type":"user","sessionId":"s1","cwd":"/w","timestamp":"2025-06-18T10:00:00Z","version":"2.1.0","gitBranch":"main","message":{"content":"hi"}}"#;
const B: &str = r#"{"type":"assistant","timestamp":"2025-06-18T09:59:00Z","gitBranch":"","isSidechain":true,"message":{"model":"m1","usage":{"input_tokens":3,"output_tokens":4,"cache_creation_input_tokens":5,"cache_read_input_tokens":6},"content":[{"type":"tool_use","name":"Bash"},{"type":"text"},{"type":"tool_result","is_error":true}]}}"#;
const C: &str = r#"{"type":"attachment","attachment":{"type":"hook_success"},"weird":1}"#;
const D: &str = r#"{"type":"ai-title","aiTitle":"T1"}"#;

fn lines(v: &[&str]) -> Vec<String> {
    v.iter().map(|s| s.to_string()).collect()
}

#[test]
fn counter_counts() {
    let mut c = Counter::new();
    c.bump("b");
    c.bump("a");
    c.bump("b");
    assert_eq!(c.get("b"), 2);
    assert_eq!(c.get("a"), 1);
    assert_eq!(c.get("z"), 0);
    assert_eq!(c.len(), 2);
    assert_eq!(c.entry(0).0, "a");
    let ranked = c.ranked_entries();
    assert_eq!(ranked, vec![("b".to_string(), 2), ("a".to_string(), 1)]);
}

#[test]
fn ties_keep_key_order() {
    let mut c = Counter::new();
    c.bump("y");
    c.bump("x");
    c.bump("z");
    c.bump("z");
    let ranked = c.ranked_entries();
    assert_eq!(ranked, vec![("z".to_string(), 2), ("x".to_string(), 1), ("y".to_string(), 1)]);
}

#[test]
fn report_over_lines() {
    let st = run_lines(&lines(&[A, "", B, "oops", "[1]", C, D])).expect("no overflow");
    assert_eq!(st.total_lines, 5);
    assert_eq!(st.parse_errors, 2);
    assert_eq!(st.types.get("user"), 1);
    assert_eq!(st.types.get("assistant"), 1);
    assert_eq!(st.types.get("attachment"), 1);
    assert_eq!(st.types.get("ai-title"), 1);
    assert_eq!(st.session_id.as_deref(), Some("s1"));
    assert_eq!(st.cwd.as_deref(), Some("/w"));
    assert_eq!(st.ai_title.as_deref(), Some("T1"));
    assert_eq!(st.git_branches.get("main"), 1);
    assert_eq!(st.git_branches.len(), 1);
    assert_eq!(st.versions.get("2.1.0"), 1);
    assert_eq!(st.sidechain_events, 1);
    assert_eq!(st.models.get("m1"), 1);
    assert_eq!(st.input_tokens, 3);
    assert_eq!(st.output_tokens, 4);
    assert_eq!(st.cache_creation_tokens, 5);
    assert_eq!(st.cache_read_tokens, 6);
    assert_eq!(st.content_kinds.get("text"), 2);
    assert_eq!(st.content_kinds.get("tool_use"), 1);
    assert_eq!(st.content_kinds.get("tool_result"), 1);
    assert_eq!(st.tools.get("Bash"), 1);
    assert_eq!(st.tool_errors.get("(unnamed)"), 1);
    assert_eq!(st.attachment_kinds.get("hook_success"), 1);
    assert_eq!(st.unknown_top_keys.get("weird"), 1);
    assert_eq!(st.unknown_top_keys.get("type"), 0);
    let first = st.first_ts.expect("first");
    let last = st.last_ts.expect("last");
    assert_eq!(first.0, 1_750_240_740);
    assert_eq!(last.0, 1_750_240_800);
}

#[test]
fn single_line_outcomes() {
    let mut st = Stats::new();
    assert_eq!(process_line(&mut st, "nope"), Err(StatsLineError::InvalidJson));
    assert_eq!(st.total_lines, 0);
    assert_eq!(process_line(&mut st, "\"text\""), Err(StatsLineError::NotAnObject));
    assert_eq!(st.total_lines, 1);
    assert_eq!(process_line(&mut st, "{}"), Ok(()));
    assert_eq!(st.types.get("(no-type)"), 1);
    assert!(update_stats(&mut st, D));
    assert_eq!(st.ai_title.as_deref(), Some("T1"));
}

#[test]
fn import_reads_stats_and_events() {
    let (st, batch) = parse_file_lines(&lines(&[A, "bad", B, "  "]), 999).expect("fits");
    assert_eq!(batch.events.len(), 2);
    assert_eq!(batch.parse_errors, 1);
    assert_eq!(batch.new_offset, 999);
    assert_eq!(st.total_lines, 3);
    assert_eq!(st.parse_errors, 1);
}

#[test]
fn token_sums_that_do_not_fit() {
    let big = r#"{"type":"assistant","message":{"usage":{"input_tokens":18446744073709551615}}}"#;
    assert!(run_lines(&lines(&[big])).is_some());
    assert!(run_lines(&lines(&[big, big])).is_none());
}

#[test]
fn run_of_lines_adds_up() {
    let lines = [
        r#"{"type":"user","timestamp":"2025-06-18T10:00:05.000Z"}"#,
        "not json",
        r#"{"type":"assistant","timestamp":"2025-06-18T09:59:59.500Z"}"#,
        "[1,2]",
        r#"{"type":"user","timestamp":"2025-06-18T10:01:00.000Z"}"#,
        r#"{"type":"summary","timestamp":"yesterday"}"#,
        "{",
    ];
    let mut st = Stats::new();
    for l in lines {
        assert!(update_stats(&mut st, l));
    }
    assert_eq!(st.total_lines, 5);
    assert_eq!(st.parse_errors, 2);
    let mut types_total = 0;
    for i in 0..st.types.len() {
        types_total += st.types.entry(i).1;
    }
    assert_eq!(types_total, 4);
    assert_eq!(st.first_ts, Some((1_750_240_799, 500_000_000)));
    assert_eq!(st.last_ts, Some((1_750_240_860, 0)));

    let mut none = Stats::new();
    assert!(update_stats(&mut none, r#"{"type":"user"}"#));
    assert_eq!(none.first_ts, None);
    assert_eq!(none.last_ts, None);
}

#[test]
fn duration_in_whole_minutes() {
    let mut st = Stats::new();
    assert_eq!(duration_minutes(&st), None);
    st.first_ts = Some((1_750_240_799, 500_000_000));
    assert_eq!(duration_minutes(&st), None);
    st.last_ts = Some((1_750_241_400, 0));
    assert_eq!(duration_minutes(&st), Some(10));
    st.last_ts = Some((1_750_240_859, 0));
    assert_eq!(duration_minutes(&st), Some(0));
    st.last_ts = Some((1_750_240_859, 500_000_000));
    assert_eq!(duration_minutes(&st), Some(1));
}
