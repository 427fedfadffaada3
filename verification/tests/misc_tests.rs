use c2_tracker::clock::{day_start, earlier, later, today_start_ms};
use c2_tracker::counter::str_lt;
use c2_tracker::install::settings_doc;
use c2_tracker::json::{find_member, JsonNumber, JsonValue};
use c2_tracker::text::{decimal_text, first_chars, is_empty_str, is_white_space_char};
use c2_tracker::types::EventCategory;

#[test]
fn instants() {
    assert_eq!(earlier((5, 1), (5, 0)), (5, 0));
    assert_eq!(earlier((4, 9), (5, 0)), (4, 9));
    assert_eq!(later((5, 1), (5, 0)), (5, 1));
    assert_eq!(later((4, 9), (5, 0)), (5, 0));
}

#[test]
fn days() {
    assert_eq!(day_start(1000, Some(10)), 10);
    assert_eq!(day_start(1000, None), 1000);
    let now = std::time::SystemTime::now()
        .duration_since(std::time::UNIX_EPOCH)
        .unwrap()
        .as_millis() as i64;
    let start = today_start_ms();
    assert!(start <= now + 1000);
    assert!(now - start < 2 * 86_400_000);
}

#[test]
fn text_pieces() {
    assert_eq!(decimal_text(0), "0");
    assert_eq!(decimal_text(u64::MAX), "18446744073709551615");
    assert_eq!(first_chars("héllo", 2), "hé");
    assert_eq!(first_chars("hi", 10), "hi");
    assert!(is_empty_str(""));
    assert!(!is_empty_str(" "));
    assert!(is_white_space_char('\u{2028}'));
    assert!(!is_white_space_char('x'));
    assert!(str_lt("a", "b"));
    assert!(str_lt("a", "ab"));
    assert!(!str_lt("b", "a"));
    assert!(!str_lt("a", "a"));
    assert_eq!(EventCategory::Content.as_str(), "content");
    assert_eq!(EventCategory::Meta.as_str(), "meta");
    assert_eq!(EventCategory::Attachment.as_str(), "attachment");
}

#[test]
fn json_documents() {
    let v = settings_doc(Some(r#"{"a":1,"b":[true,null,"s"],"c":-2,"d":1.5}"#));
    assert_eq!(v.u64_member("a"), Some(1));
    assert_eq!(v.i64_member("c"), Some(-2));
    assert_eq!(v.u64_member("c"), None);
    assert!(matches!(v.get("d"), Some(JsonValue::Number(JsonNumber::Float(_)))));
    assert_eq!(v.get("b").and_then(|b| b.as_array()).map(|a| a.len()), Some(3));
    assert!(v.is_object());
    assert!(!settings_doc(Some("{")).get("a").is_some());
    assert!(settings_doc(None).is_object());
    let members = vec![("k".to_string(), JsonValue::Null), ("k".to_string(), JsonValue::Bool(true))];
    assert_eq!(find_member(&members, "k"), Some(1));
    assert_eq!(find_member(&members, "z"), None);
    let obj = JsonValue::Object(members);
    assert_eq!(obj.bool_member("k"), Some(true));
}
