use c2_tracker::parser::parse_line;
use c2_tracker::store::{
    cursor_or_start, cursor_values, insert_tally, project_name_of, session_key_of, session_upsert,
    session_upsert_with,
};
use c2_tracker::types::SessionMeta;

#[test]
fn session_keys() {
    let mut meta = SessionMeta::default();
    assert_eq!(session_key_of(&meta, ""), "unknown");
    assert_eq!(session_key_of(&meta, "unknown"), "unknown");
    meta.session_id = Some("from-line".to_string());
    assert_eq!(session_key_of(&meta, "from-file"), "from-file");
    assert_eq!(session_key_of(&meta, "unknown"), "from-line");
    assert_eq!(session_key_of(&meta, ""), "from-line");
}

#[test]
fn upsert_rows() {
    let line = r#"{"type":"user","uuid":"u","sessionId":"s","cwd":"/home/me/proj","timestamp":"2025-06-18T10:00:00Z","message":{"content":"hi"}}"#;
    let (_, meta) = parse_line(line).unwrap();
    let row = session_upsert(&meta, "/t/file.jsonl", "file", 42);
    assert_eq!(row.id, "file");
    assert_eq!(row.cwd, "/home/me/proj");
    assert_eq!(row.project_name, "proj");
    assert_eq!(row.started_at, 1_750_240_800_000);
    assert_eq!(row.last_event_at, 1_750_240_800_000);
    assert_eq!(row.jsonl_path, "/t/file.jsonl");
    assert_eq!(row.total_events, 1);

    let empty = SessionMeta::default();
    let row = session_upsert(&empty, "/t/x.jsonl", "", 42);
    assert_eq!(row.id, "unknown");
    assert_eq!(row.cwd, "");
    assert_eq!(row.project_name, "");
    assert_eq!(row.started_at, 42);
    assert_eq!(row.last_event_at, 42);
    assert_eq!(row.total_events, 0);

    let mut only_cwd = SessionMeta::default();
    only_cwd.cwd = Some("/srv/app".to_string());
    let row = session_upsert_with(&only_cwd, "p", "id", Some("app".to_string()), 1);
    assert_eq!(row.project_name, "app");
    let row = session_upsert(&only_cwd, "p", "id", 1);
    assert_eq!(row.project_name, "app");
}

#[test]
fn project_names() {
    assert_eq!(project_name_of("/home/me/proj"), "proj");
    assert_eq!(project_name_of("/home/me/proj/"), "proj");
    assert_eq!(project_name_of(""), "");
    assert_eq!(project_name_of("/"), "");
}

#[test]
fn tallies() {
    assert_eq!(insert_tally(&[1, 0, 1, 1, 0]), (3, 2));
    assert_eq!(insert_tally(&[]), (0, 0));
    assert_eq!(insert_tally(&[2]), (0, 1));
}

#[test]
fn cursors() {
    assert_eq!(cursor_or_start(None), (0, None));
    assert_eq!(cursor_or_start(Some((12, Some(3)))), (12, Some(3)));
    assert_eq!(cursor_values(500, Some(77)), (500, Some(77)));
    assert_eq!(cursor_values(1, None), (1, None));
}
