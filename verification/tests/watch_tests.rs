use c2_tracker::types::WsMessage;
use c2_tracker::watch::{
    is_transcript_path, plan_read, report_messages, session_id_of, transcripts_of_change, DebounceQueue, FsChange,
    ProcessReport, ReadPlan, DEBOUNCE_MS, POLL_MS,
};

#[test]
fn transcript_paths() {
    assert!(is_transcript_path("/a/b/123e4567.jsonl"));
    assert!(!is_transcript_path("/a/b/notes.json"));
    assert!(!is_transcript_path("/a/b/jsonl"));
    assert!(!is_transcript_path(""));
    let paths = vec!["/x/a.jsonl".to_string(), "/x/b.txt".to_string(), "/x/c.jsonl".to_string()];
    assert_eq!(transcripts_of_change(FsChange::Modify, paths.clone()), vec!["/x/a.jsonl", "/x/c.jsonl"]);
    assert_eq!(transcripts_of_change(FsChange::Create, paths.clone()).len(), 2);
    assert!(transcripts_of_change(FsChange::Other, paths).is_empty());
}

#[test]
fn session_from_file_name() {
    assert_eq!(session_id_of("/p/q/abc-123.jsonl"), "abc-123");
    assert_eq!(session_id_of("/"), "unknown");
}

#[test]
fn where_to_resume() {
    // nothing new
    assert_eq!(plan_read(100, 7, (100, Some(7))), ReadPlan::UpToDate);
    // grown
    assert_eq!(plan_read(150, 7, (100, Some(7))), ReadPlan::ReadFrom(100));
    // first time
    assert_eq!(plan_read(10, 7, (0, None)), ReadPlan::ReadFrom(0));
    // replaced file: another inode
    assert_eq!(plan_read(150, 8, (100, Some(7))), ReadPlan::ReadFrom(0));
    // cut shorter than the cursor
    assert_eq!(plan_read(50, 7, (100, Some(7))), ReadPlan::ReadFrom(0));
    // empty file
    assert_eq!(plan_read(0, 7, (0, Some(7))), ReadPlan::UpToDate);
    // truncated to nothing
    assert_eq!(plan_read(0, 7, (100, Some(7))), ReadPlan::UpToDate);
}

#[test]
fn pass_messages() {
    let r = ProcessReport { session_id: "s".to_string(), inserted: 3 };
    let msgs = report_messages(&r);
    assert_eq!(msgs.len(), 2);
    assert!(matches!(&msgs[0], WsMessage::SessionUpsert { session_id } if session_id == "s"));
    assert!(matches!(&msgs[1], WsMessage::EventBatch { session_id, inserted: 3 } if session_id == "s"));
    let none = report_messages(&ProcessReport { session_id: "s".to_string(), inserted: 0 });
    assert_eq!(none.len(), 1);
}

#[test]
fn debounce_queue() {
    assert_eq!(DEBOUNCE_MS, 100);
    assert_eq!(POLL_MS, 50);
    let mut q = DebounceQueue::new();
    q.queue_change("/a.jsonl".to_string(), 1000);
    q.queue_now("/b.jsonl".to_string(), 1000);
    assert_eq!(q.len(), 2);
    // a change waits; a hook's request is read at once
    assert_eq!(q.take_due(1000), vec!["/b.jsonl".to_string()]);
    assert_eq!(q.len(), 1);
    assert!(q.take_due(1099).is_empty());
    // a new change pushes the time back
    q.queue_change("/a.jsonl".to_string(), 1050);
    assert_eq!(q.len(), 1);
    assert!(q.take_due(1100).is_empty());
    assert_eq!(q.take_due(1150), vec!["/a.jsonl".to_string()]);
    assert_eq!(q.len(), 0);
}

#[test]
fn due_paths_come_in_queue_order() {
    let mut q = DebounceQueue::new();
    q.queue_now("/c".to_string(), 5);
    q.queue_now("/a".to_string(), 1);
    q.queue_now("/b".to_string(), 9);
    q.insert("/c".to_string(), 2);
    assert_eq!(q.take_due(5), vec!["/c".to_string(), "/a".to_string()]);
    assert_eq!(q.take_due(100), vec!["/b".to_string()]);
}
