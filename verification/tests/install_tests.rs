use c2_tracker::install::{
    build_command_hook, build_http_hook, can_install, has_c2_tracker_entry, install_hooks, install_settings,
    remove_c2_tracker_entries, settings_doc, uninstall_hooks, uninstall_settings, InstallOutcome, InstallPlan,
    UninstallOutcome, UninstallPlan,
};
use c2_tracker::version::{parse_claude_version, parse_u32, parse_version_word, use_command_shim};
use c2_tracker::json::JsonValue;

fn doc(text: &str) -> JsonValue {
    settings_doc(Some(text))
}

fn hooks_of(v: &JsonValue) -> &JsonValue {
    v.get("hooks").expect("hooks member")
}

fn written(p: InstallPlan) -> String {
    match p {
        InstallPlan::Write(t) => t,
        InstallPlan::AlreadyInstalled => panic!("found installed"),
        InstallPlan::Refused => panic!("refused"),
    }
}

#[test]
fn assistant_versions() {
    assert_eq!(parse_claude_version("Assistant 2.1.143"), Some((2, 1, 143)));
    assert_eq!(parse_claude_version("2.1.143\n"), Some((2, 1, 143)));
    assert_eq!(parse_claude_version("1.0.9 (assistant)"), Some((1, 0, 9)));
    assert_eq!(parse_claude_version("version 1.2 then 3.4.5"), Some((3, 4, 5)));
    assert_eq!(parse_claude_version("no version here"), None);
    assert_eq!(parse_claude_version(""), None);
    assert_eq!(parse_claude_version("1.2.3.4"), None);
    assert_eq!(parse_version_word("+1.2.3"), Some((1, 2, 3)));
    assert_eq!(parse_version_word("1..3"), None);
    assert_eq!(parse_version_word("4294967296.0.0"), None);
    assert_eq!(parse_u32("4294967295"), Some(u32::MAX));
    assert_eq!(parse_u32("-1"), None);
    assert_eq!(parse_u32("+"), None);
    assert_eq!(parse_u32("007"), Some(7));
}

#[test]
fn hook_type_choice() {
    assert!(use_command_shim(true, Some((2, 0, 0))));
    assert!(!use_command_shim(false, Some((2, 0, 0))));
    assert!(use_command_shim(false, Some((1, 9, 9))));
    assert!(!use_command_shim(false, None));
}

#[test]
fn http_hook_entry() {
    let h = build_http_hook(9786, "stop");
    assert_eq!(h.str_member("type"), Some("http"));
    assert_eq!(h.str_member("url"), Some("http://127.0.0.1:9786/hooks/stop"));
    assert_eq!(h.get("headers").and_then(|x| x.str_member("Authorization")), Some("Bearer ${CT_TOKEN}"));
    let env = h.get("allowedEnvVars").and_then(|x| x.as_array()).unwrap();
    assert_eq!(env.len(), 1);
    assert_eq!(env[0].as_str(), Some("CT_TOKEN"));
    assert_eq!(h.u64_member("timeout"), Some(5));
    assert_eq!(h.bool_member("_c2_tracker"), Some(true));
}

#[test]
fn command_hook_entry() {
    let h = build_command_hook(1234, "session-start");
    assert_eq!(h.str_member("type"), Some("command"));
    assert_eq!(
        h.str_member("command"),
        Some("source ~/.c2-tracker/env && curl -s -X POST -H \"Authorization: Bearer $CT_TOKEN\" -H 'Content-Type: application/json' --max-time 5 http://127.0.0.1:1234/hooks/session-start -d @-")
    );
    assert_eq!(h.bool_member("_c2_tracker"), Some(true));
}

#[test]
fn install_into_empty_settings() {
    let root = doc("{}");
    assert!(can_install(&root, false));
    let out = match install_hooks(root, 9786, false, false) {
        InstallOutcome::Updated(v) => v,
        InstallOutcome::AlreadyInstalled => panic!("nothing was installed yet"),
    };
    let hooks = hooks_of(&out);
    assert!(has_c2_tracker_entry(hooks));
    for ev in ["SessionStart", "UserPromptSubmit", "Stop", "SessionEnd"] {
        let list = hooks.get(ev).and_then(|v| v.as_array()).expect("event list");
        assert_eq!(list.len(), 1);
    }
    let start = hooks.get("SessionStart").unwrap().as_array().unwrap();
    let entry = start[0].get("hooks").unwrap().as_array().unwrap();
    assert_eq!(entry[0].str_member("url"), Some("http://127.0.0.1:9786/hooks/session-start"));
}

#[test]
fn settings_text_in_and_out() {
    let t = written(install_settings(None, 9786, false, false));
    assert!(t.starts_with("{\n  \"hooks\": {"));
    let back = doc(&t);
    assert!(has_c2_tracker_entry(hooks_of(&back)));
    // unreadable settings are replaced by a fresh document
    let t2 = written(install_settings(Some("not json"), 9786, false, false));
    assert_eq!(t, t2);
    assert!(matches!(install_settings(Some("[]"), 9786, false, false), InstallPlan::Refused));
}

#[test]
fn install_is_idempotent() {
    let once = written(install_settings(Some("{}"), 9786, false, false));
    assert!(matches!(install_settings(Some(&once), 9786, false, false), InstallPlan::AlreadyInstalled));
    assert!(matches!(install_settings(Some(&once), 9786, false, true), InstallPlan::AlreadyInstalled));
}

#[test]
fn force_reinstall_replaces_entries() {
    let once = written(install_settings(Some("{}"), 1111, false, false));
    let twice = doc(&written(install_settings(Some(&once), 2222, true, true)));
    let hooks = hooks_of(&twice);
    for ev in ["SessionStart", "UserPromptSubmit", "Stop", "SessionEnd"] {
        let list = hooks.get(ev).and_then(|v| v.as_array()).unwrap();
        assert_eq!(list.len(), 1, "old matcher left under {}", ev);
        let entry = list[0].get("hooks").unwrap().as_array().unwrap();
        assert_eq!(entry[0].str_member("type"), Some("command"));
    }
}

#[test]
fn install_keeps_other_hooks() {
    let text = r#"{"model":"x","hooks":{"Stop":[{"matcher":"","hooks":[{"type":"command","command":"echo hi"}]}]}}"#;
    let out = written(install_settings(Some(text), 9786, false, false));
    let v = doc(&out);
    assert_eq!(v.str_member("model"), Some("x"));
    let stop = hooks_of(&v).get("Stop").unwrap().as_array().unwrap();
    assert_eq!(stop.len(), 2);
    assert_eq!(stop[0].get("hooks").unwrap().as_array().unwrap()[0].str_member("command"), Some("echo hi"));
    let back = match uninstall_settings(&out) {
        UninstallPlan::Write(t) => doc(&t),
        _ => panic!(),
    };
    let stop = hooks_of(&back).get("Stop").unwrap().as_array().unwrap();
    assert_eq!(stop.len(), 1);
    assert!(!has_c2_tracker_entry(hooks_of(&back)));
    // installing again over the cleaned text gives what installing over the original gives
    assert_eq!(
        written(install_settings(Some(text), 1, true, false)),
        written(install_settings(Some(&match uninstall_settings(&out) {
            UninstallPlan::Write(t) => t,
            _ => panic!(),
        }), 1, true, false))
    );
}

#[test]
fn settings_that_cannot_take_hooks() {
    assert!(!can_install(&doc("[]"), false));
    assert!(!can_install(&doc(r#"{"hooks":[]}"#), false));
    assert!(!can_install(&doc(r#"{"hooks":{"Stop":{}}}"#), false));
    assert!(can_install(&doc(r#"{"hooks":{"Other":5}}"#), false));
}

#[test]
fn uninstall_without_entries() {
    assert!(matches!(uninstall_hooks(doc("{}")), UninstallOutcome::NotInstalled));
    assert!(matches!(uninstall_hooks(doc("[1]")), UninstallOutcome::NotInstalled));
    let root = doc(r#"{"hooks":{"Stop":[{"hooks":[{"type":"command","command":"x"}]}]}}"#);
    assert!(matches!(uninstall_hooks(root), UninstallOutcome::NotInstalled));
    assert!(matches!(uninstall_settings("{"), UninstallPlan::InvalidJson));
    assert!(matches!(uninstall_settings("{}"), UninstallPlan::NotInstalled));
}

#[test]
fn removing_entries_drops_empty_matchers() {
    let mut hooks = doc(
        r#"{"Stop":[{"hooks":[{"_c2_tracker":true,"type":"http"}]},{"hooks":[{"type":"command"},{"_c2_tracker":true}]},{"matcher":"x"}],"Other":3}"#,
    );
    assert!(has_c2_tracker_entry(&hooks));
    remove_c2_tracker_entries(&mut hooks);
    assert!(!has_c2_tracker_entry(&hooks));
    assert_eq!(hooks.u64_member("Other"), Some(3));
    let stop = hooks.get("Stop").unwrap().as_array().unwrap();
    assert_eq!(stop.len(), 2);
    let first = stop[0].get("hooks").unwrap().as_array().unwrap();
    assert_eq!(first.len(), 1);
    assert_eq!(first[0].str_member("type"), Some("command"));
    assert_eq!(stop[1].str_member("matcher"), Some("x"));
    let mut not_obj = doc("[1,2]");
    remove_c2_tracker_entries(&mut not_obj);
    assert_eq!(not_obj.as_array().map(|a| a.len()), Some(2));
}

#[test]
fn marker_must_be_true() {
    let hooks = doc(r#"{"Stop":[{"hooks":[{"_c2_tracker":false}]}]}"#);
    assert!(!has_c2_tracker_entry(&hooks));
    let hooks = doc(r#"{"Stop":[{"hooks":[{"_c2_tracker":"true"}]}]}"#);
    assert!(!has_c2_tracker_entry(&hooks));
}

fn value(text: &str) -> serde_json::Value {
    serde_json::from_str(text).unwrap()
}

#[test]
fn uninstall_undoes_install() {
    let text = r#"{"theme":"dark","hooks":{"UserPromptSubmit":[{"hooks":[]},{"hooks":[{"type":"command","command":"a"}]}],"SessionEnd":[{"matcher":"x"}],"PreToolUse":[{"hooks":[{"type":"command","command":"b"}]}],"Notification":[]}}"#;
    for shim in [false, true] {
        for force in [false, true] {
            let installed = written(install_settings(Some(text), 9786, force, shim));
            let back = match uninstall_settings(&installed) {
                UninstallPlan::Write(t) => t,
                _ => panic!(),
            };
            assert_eq!(value(&back), value(text));
        }
    }
}

#[test]
fn uninstall_after_install_on_empty_settings() {
    for text in ["{}", r#"{"model":"m"}"#] {
        let installed = written(install_settings(Some(text), 9786, false, false));
        let back = match uninstall_settings(&installed) {
            UninstallPlan::Write(t) => t,
            _ => panic!(),
        };
        assert_eq!(value(&back), value(text));
    }
    let installed = written(install_settings(None, 9786, false, true));
    let back = match uninstall_settings(&installed) {
        UninstallPlan::Write(t) => t,
        _ => panic!(),
    };
    assert_eq!(value(&back), value("{}"));
}

#[test]
fn uninstall_drops_what_only_held_its_entries() {
    // an empty hooks object or an empty list under a hook event cannot be
    // told from one that installing created, so it goes too
    for text in [r#"{"hooks":{}}"#, r#"{"hooks":{"Stop":[]}}"#] {
        let installed = written(install_settings(Some(text), 9786, false, false));
        let back = match uninstall_settings(&installed) {
            UninstallPlan::Write(t) => t,
            _ => panic!(),
        };
        assert_eq!(value(&back), value("{}"));
    }
    let text = r#"{"hooks":{"Stop":[],"Other":[]}}"#;
    let installed = written(install_settings(Some(text), 9786, false, false));
    let back = match uninstall_settings(&installed) {
        UninstallPlan::Write(t) => t,
        _ => panic!(),
    };
    assert_eq!(value(&back), value(r#"{"hooks":{"Other":[]}}"#));
}

#[test]
fn removing_entries_keeps_matchers_that_were_empty() {
    let mut hooks = doc(r#"{"Stop":[{"hooks":[]},{"hooks":[{"_c2_tracker":true}]}],"Start":[{"hooks":[{"_c2_tracker":true}]}]}"#);
    remove_c2_tracker_entries(&mut hooks);
    let stop = hooks.get("Stop").unwrap().as_array().unwrap();
    assert_eq!(stop.len(), 1);
    assert_eq!(stop[0].get("hooks").unwrap().as_array().map(|a| a.len()), Some(0));
    assert!(hooks.get("Start").is_none());
}
