use c2_tracker::hooks::{hook_kind_of, is_authorized, plan_hook, HookAction, HookKind};
use c2_tracker::types::{HookPayload, HookResponse};

fn payload(sid: Option<&str>, path: Option<&str>, cwd: Option<&str>) -> HookPayload {
    HookPayload {
        session_id: sid.map(|s| s.to_string()),
        transcript_path: path.map(|s| s.to_string()),
        cwd: cwd.map(|s| s.to_string()),
        permission_mode: None,
        hook_event_name: None,
        prompt: None,
        reason: None,
        stop_reason: None,
        extra: Vec::new(),
    }
}

#[test]
fn bearer_check() {
    assert!(is_authorized(Some("Bearer ct_1"), "ct_1"));
    assert!(!is_authorized(Some("Bearer ct_2"), "ct_1"));
    assert!(!is_authorized(Some("bearer ct_1"), "ct_1"));
    assert!(!is_authorized(Some("ct_1"), "ct_1"));
    assert!(!is_authorized(None, "ct_1"));
    assert!(!is_authorized(Some(""), ""));
}

#[test]
fn endpoints() {
    for k in [HookKind::SessionStart, HookKind::UserPromptSubmit, HookKind::Stop, HookKind::SessionEnd] {
        assert_eq!(hook_kind_of(k.endpoint()), Some(k));
    }
    assert_eq!(hook_kind_of("stop"), Some(HookKind::Stop));
    assert_eq!(hook_kind_of("start"), None);
}

#[test]
fn answer_to_every_hook() {
    let r = HookResponse::default();
    assert!(r.proceed);
    assert!(r.suppress_output);
}

#[test]
fn session_start_plan() {
    let acts = plan_hook(HookKind::SessionStart, &payload(Some("s1"), Some("/t/s1.jsonl"), Some("/w")));
    assert_eq!(acts.len(), 2);
    match &acts[0] {
        HookAction::UpsertSession { session_id, jsonl_path, cwd } => {
            assert_eq!(session_id, "s1");
            assert_eq!(jsonl_path, "/t/s1.jsonl");
            assert_eq!(cwd, "/w");
        }
        _ => panic!("expected the session row first"),
    }
    assert!(matches!(&acts[1], HookAction::Refresh(p) if p == "/t/s1.jsonl"));
    let bare = plan_hook(HookKind::SessionStart, &payload(None, None, None));
    assert_eq!(bare.len(), 1);
    match &bare[0] {
        HookAction::UpsertSession { session_id, jsonl_path, cwd } => {
            assert_eq!(session_id, "unknown");
            assert_eq!(jsonl_path, "");
            assert_eq!(cwd, "");
        }
        _ => panic!(),
    }
}

#[test]
fn other_plans() {
    let p = payload(Some("s1"), Some("/t/s1.jsonl"), None);
    let submit = plan_hook(HookKind::UserPromptSubmit, &p);
    assert_eq!(submit.len(), 1);
    assert!(matches!(&submit[0], HookAction::Refresh(x) if x == "/t/s1.jsonl"));
    let stop = plan_hook(HookKind::Stop, &p);
    assert_eq!(stop.len(), 2);
    assert!(matches!(&stop[0], HookAction::ProcessNow(x) if x == "/t/s1.jsonl"));
    assert!(matches!(&stop[1], HookAction::Refresh(x) if x == "/t/s1.jsonl"));
    let end = plan_hook(HookKind::SessionEnd, &payload(None, None, None));
    assert_eq!(end.len(), 1);
    assert!(matches!(&end[0], HookAction::MarkEnded(s) if s == "unknown"));
    assert!(plan_hook(HookKind::Stop, &payload(Some("s"), None, None)).is_empty());
    assert!(plan_hook(HookKind::UserPromptSubmit, &payload(Some("s"), None, None)).is_empty());
    let empty_path = plan_hook(HookKind::UserPromptSubmit, &payload(Some("s"), Some(""), None));
    assert_eq!(empty_path.len(), 1);
}
