use c2_tracker::reader::{file_text_lines, has_news, read_tail, read_whole, split_pieces, ReadError};

fn line(uuid: &str) -> String {
    format!(r#"{{"type":"user","uuid":"{}","sessionId":"s-1","message":{{"role":"user","content":"hi"}}}}"#, uuid)
}

fn uuids(events: &[c2_tracker::types::ParsedEvent]) -> Vec<String> {
    events.iter().map(|e| e.uuid.clone()).collect()
}

#[test]
fn pieces_between_newlines() {
    assert_eq!(split_pieces(b"a\nb\n"), vec![b"a".to_vec(), b"b".to_vec(), Vec::new()]);
    assert_eq!(split_pieces(b""), vec![Vec::<u8>::new()]);
    assert_eq!(split_pieces(b"x"), vec![b"x".to_vec()]);
    assert_eq!(split_pieces(b"\n\nz"), vec![Vec::new(), Vec::new(), b"z".to_vec()]);
    assert_eq!(file_text_lines(b"a\r\nb"), Some(vec!["a\r".to_string(), "b".to_string()]));
    assert_eq!(file_text_lines(b"a\n"), Some(vec!["a".to_string()]));
    assert_eq!(file_text_lines(b"a\n\xff"), None);
}

#[test]
fn tail_read_stops_before_a_half_written_line() {
    let first = line("u-1");
    let second = line("u-2");
    let content = format!("{}\n{}", first, &second[..20]);
    let b = read_tail(content.as_bytes(), 10).unwrap();
    assert_eq!(uuids(&b.events), vec!["u-1"]);
    assert_eq!(b.parse_errors, 0);
    assert_eq!(b.new_offset, 10 + first.len() as u64 + 1);
    assert!(has_news(&b));
    // nothing complete yet: nothing read, the cursor stays
    let b = read_tail(&second.as_bytes()[..20], 7).unwrap();
    assert!(b.events.is_empty());
    assert!(!has_news(&b));
    assert_eq!(b.new_offset, 7);
}

#[test]
fn whole_read_takes_the_last_line_too() {
    let first = line("u-1");
    let content = format!("{}\n{}", first, "{\"type\":\"us");
    let (st, b) = read_whole(content.as_bytes()).unwrap();
    assert_eq!(uuids(&b.events), vec!["u-1"]);
    assert_eq!(b.parse_errors, 1);
    assert_eq!(b.new_offset, content.len() as u64);
    assert_eq!(st.total_lines, 2);
    assert_eq!(st.parse_errors, 1);
}

#[test]
fn readers_agree_on_a_complete_file() {
    let content = format!("{}\n\n{}\nnot json\n", line("u-1"), line("u-2"));
    let (st, whole) = read_whole(content.as_bytes()).unwrap();
    let tail = read_tail(content.as_bytes(), 0).unwrap();
    assert_eq!(uuids(&whole.events), uuids(&tail.events));
    assert_eq!(uuids(&whole.events), vec!["u-1", "u-2"]);
    assert_eq!(whole.parse_errors, tail.parse_errors);
    assert_eq!(whole.parse_errors, 1);
    assert_eq!(whole.new_offset, tail.new_offset);
    assert_eq!(whole.new_offset, content.len() as u64);
    assert_eq!(whole.meta.session_id, tail.meta.session_id);
    assert_eq!(st.total_lines, 3);
}

#[test]
fn lines_that_are_not_utf8() {
    assert!(matches!(read_tail(b"\xff\n", 0), Err(ReadError::InvalidUtf8)));
    assert!(matches!(read_whole(b"\xff\n"), Err(ReadError::InvalidUtf8)));
    // a half-written line is not read yet
    let b = read_tail(b"{}\n\xe2\x82", 0).unwrap();
    assert_eq!(b.new_offset, 3);
    assert!(matches!(read_whole(b"{}\n\xe2\x82"), Err(ReadError::InvalidUtf8)));
}

#[test]
fn growing_file_read_in_pieces_stores_each_event_once() {
    let content = format!("{}\n{}\n{}\n", line("u-1"), line("u-2"), line("u-3"));
    let bytes = content.as_bytes();
    let l1 = line("u-1").len() + 1;
    let sizes = [0, l1 - 3, l1 + 5, l1 + 5, 2 * l1 + 2, bytes.len()];
    let mut cursor: u64 = 0;
    let mut stored: Vec<String> = Vec::new();
    for &s in sizes.iter() {
        let b = read_tail(&bytes[cursor as usize..s], cursor).unwrap();
        if has_news(&b) {
            stored.extend(uuids(&b.events));
            cursor = b.new_offset;
        }
    }
    let (_, whole) = read_whole(bytes).unwrap();
    assert_eq!(stored, uuids(&whole.events));
    assert_eq!(stored, vec!["u-1", "u-2", "u-3"]);
    assert_eq!(cursor, bytes.len() as u64);
}

