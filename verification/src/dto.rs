use vstd::prelude::*;

use crate::clock::{local_clock, millis_in_chrono_range};
use crate::json::{json_compact_text, json_parse_result, json_to_text, parse_json, str_eq, str_member, Json, JsonValue};
use crate::text::{decimal, digit_char, push_char, push_decimal, push_str, take_chars};
use crate::types::opt_chars;

verus! {

/// Integer division rounding toward zero, as Rust's `/` on signed integers.
pub open spec fn trunc_div(a: int, b: int) -> int {
    if a >= 0 {
        a / b
    } else {
        -((-a) / b)
    }
}

/// How a session shows: `ended` once it has a stop event or has been quiet
/// for half an hour, `live` while its last event is less than two minutes
/// old, `idle` in between (ages in whole minutes, rounded toward zero).
pub open spec fn status_of(has_stop_event: i64, last_event_at: i64, now_ms: i64) -> Seq<char> {
    let age_minutes = trunc_div(now_ms - last_event_at, 60000);
    if has_stop_event != 0 || age_minutes >= 30 {
        "ended"@
    } else if age_minutes < 2 {
        "live"@
    } else {
        "idle"@
    }
}

pub fn compute_status(has_stop_event: i64, last_event_at: i64, now_ms: i64) -> (r: &'static str)
    requires
        i64::MIN <= now_ms - last_event_at <= i64::MAX,
    ensures
        r@ == status_of(has_stop_event, last_event_at, now_ms),
{
    let age_minutes = (now_ms - last_event_at) / 60000;
    if has_stop_event != 0 || age_minutes >= 30 {
        "ended"
    } else if age_minutes < 2 {
        "live"
    } else {
        "idle"
    }
}

/// The order of the statuses: `live`, then `idle`, then `ended`.
pub open spec fn status_rank(s: Seq<char>) -> int {
    if s == "live"@ {
        0
    } else if s == "idle"@ {
        1
    } else {
        2
    }
}

proof fn lemma_trunc_div_ordered(a: int, b: int)
    requires
        a <= b,
    ensures
        trunc_div(a, 60000) <= trunc_div(b, 60000),
{
    if a >= 0 {
        vstd::arithmetic::div_mod::lemma_div_is_ordered(a, b, 60000);
    } else if b >= 0 {
        vstd::arithmetic::div_mod::lemma_div_pos_is_pos(-a, 60000);
        vstd::arithmetic::div_mod::lemma_div_pos_is_pos(b, 60000);
    } else {
        vstd::arithmetic::div_mod::lemma_div_is_ordered(-b, -a, 60000);
    }
}

/// A session's status only moves forward as time passes: from `live` to
/// `idle` to `ended`, never back.
pub proof fn law_status_moves_forward(has_stop_event: i64, last_event_at: i64, now1: i64, now2: i64)
    requires
        now1 <= now2,
    ensures
        status_rank(status_of(has_stop_event, last_event_at, now1)) <= status_rank(
            status_of(has_stop_event, last_event_at, now2),
        ),
{
    reveal_strlit("live");
    reveal_strlit("idle");
    reveal_strlit("ended");
    assert("live"@ != "idle"@) by {
        assert("live"@[0] != "idle"@[0]);
    }
    assert("ended"@.len() == 5);
    lemma_trunc_div_ordered(now1 - last_event_at, now2 - last_event_at);
}

/// A session's length as `Xm`, or `Xh Ym` from an hour on; a negative span
/// counts as none.
pub open spec fn duration_label(started_at: i64, last_event_at: i64) -> Seq<char> {
    let span = last_event_at - started_at;
    let secs = (if span >= 0 { span } else { 0 }) / 1000;
    let mins = secs / 60;
    if mins < 60 {
        decimal(mins as nat) + "m"@
    } else {
        decimal((mins / 60) as nat) + "h "@ + decimal((mins % 60) as nat) + "m"@
    }
}

pub fn fmt_duration(started_at: i64, last_event_at: i64) -> (r: String)
    requires
        i64::MIN <= last_event_at - started_at <= i64::MAX,
    ensures
        r@ == duration_label(started_at, last_event_at),
{
    let span = last_event_at - started_at;
    let secs = (if span >= 0 { span } else { 0 }) / 1000;
    let mins = secs / 60;
    let mut s = String::new();
    if mins < 60 {
        push_decimal(&mut s, mins as u64);
        push_str(&mut s, "m");
        proof {
            reveal_strlit("m");
        }
        assert(s@ =~= decimal(mins as nat) + "m"@);
    } else {
        push_decimal(&mut s, (mins / 60) as u64);
        push_str(&mut s, "h ");
        push_decimal(&mut s, (mins % 60) as u64);
        push_str(&mut s, "m");
        assert(s@ =~= decimal((mins / 60) as nat) + "h "@ + decimal((mins % 60) as nat) + "m"@);
    }
    s
}

/// Two decimal digits.
pub open spec fn two_digits(n: u32) -> Seq<char> {
    seq![digit_char((n / 10) as nat), digit_char((n % 10) as nat)]
}

/// `HH:MM:SS`.
pub open spec fn clock_text(h: u32, m: u32, s: u32) -> Seq<char> {
    two_digits(h) + seq![':'] + two_digits(m) + seq![':'] + two_digits(s)
}

/// The label shown for a time that cannot be shown.
pub open spec fn no_time() -> Seq<char> {
    "\u{2014}"@
}

fn push_two_digits(s: &mut String, n: u32)
    requires
        n < 100,
    ensures
        final(s)@ == old(s)@ + two_digits(n),
{
    push_decimal_digit(s, n / 10);
    push_decimal_digit(s, n % 10);
    assert(final(s)@ =~= old(s)@ + two_digits(n));
}

fn push_decimal_digit(s: &mut String, d: u32)
    requires
        d < 10,
    ensures
        final(s)@ == old(s)@.push(digit_char(d as nat)),
{
    let c = if d == 0 { '0' }
        else if d == 1 { '1' }
        else if d == 2 { '2' }
        else if d == 3 { '3' }
        else if d == 4 { '4' }
        else if d == 5 { '5' }
        else if d == 6 { '6' }
        else if d == 7 { '7' }
        else if d == 8 { '8' }
        else { '9' };
    push_char(s, c);
}

/// The label of a local wall-clock time, or of none.
pub fn clock_label(clock: Option<(u32, u32, u32)>) -> (r: String)
    requires
        clock matches Some((h, m, s)) ==> h < 24 && m < 60 && s < 60,
    ensures
        r@ == match clock {
            Some((h, m, s)) => clock_text(h, m, s),
            None => no_time(),
        },
{
    match clock {
        Some((h, m, sec)) => {
            let mut s = String::new();
            push_two_digits(&mut s, h);
            push_char(&mut s, ':');
            push_two_digits(&mut s, m);
            push_char(&mut s, ':');
            push_two_digits(&mut s, sec);
            assert(s@ =~= clock_text(h, m, sec));
            s
        },
        None => "\u{2014}".to_owned(),
    }
}

/// Whether `label` is a possible label of time `ts`: the no-time label for
/// no time; otherwise the local `HH:MM:SS` of some time zone, or the no-time
/// label where the zone gives no single local time.
pub open spec fn time_label_ok(ts: Option<i64>, label: Seq<char>) -> bool {
    match ts {
        None => label == no_time(),
        Some(_) => label == no_time() || exists|h: u32, m: u32, s: u32|
            h < 24 && m < 60 && s < 60 && label == #[trigger] clock_text(h, m, s),
    }
}

/// The `HH:MM:SS` label of a Unix time in milliseconds, in local time.
pub fn fmt_time(ts_ms: Option<i64>) -> (r: String)
    ensures
        time_label_ok(ts_ms, r@),
        ts_ms matches Some(ms) && millis_in_chrono_range(ms) ==> exists|h: u32, m: u32, s: u32|
            h < 24 && m < 60 && s < 60 && r@ == #[trigger] clock_text(h, m, s),
{
    match ts_ms {
        None => clock_label(None),
        Some(ms) => {
            let c = local_clock(ms);
            let r = clock_label(c);
            match c {
                Some((h, m, s)) => {
                    assert(r@ == clock_text(h, m, s));
                },
                None => {},
            }
            r
        },
    }
}

/// The kind shown for an event: `thinking`, `tool_use` and `tool_result`
/// for the blocks of those kinds, else the event type.
pub open spec fn kind_of(ev_type: Seq<char>, content_kind: Option<Seq<char>>) -> Seq<char> {
    if ev_type == "assistant"@ && content_kind == Some("thinking"@) {
        "thinking"@
    } else if ev_type == "assistant"@ && content_kind == Some("tool_use"@) {
        "tool_use"@
    } else if ev_type == "user"@ && content_kind == Some("tool_result"@) {
        "tool_result"@
    } else {
        ev_type
    }
}

fn is_some_eq(a: Option<&str>, b: &str) -> (r: bool)
    ensures
        r == (match a {
            Some(x) => x@ == b@,
            None => false,
        }),
{
    match a {
        Some(x) => str_eq(x, b),
        None => false,
    }
}

pub fn map_kind(ev_type: &str, content_kind: Option<&str>) -> (r: String)
    ensures
        r@ == kind_of(ev_type@, match content_kind {
            Some(k) => Some(k@),
            None => None,
        }),
{
    if str_eq(ev_type, "assistant") && is_some_eq(content_kind, "thinking") {
        "thinking".to_owned()
    } else if str_eq(ev_type, "assistant") && is_some_eq(content_kind, "tool_use") {
        "tool_use".to_owned()
    } else if str_eq(ev_type, "user") && is_some_eq(content_kind, "tool_result") {
        "tool_result".to_owned()
    } else {
        ev_type.to_owned()
    }
}


/// Member `b` of member `a`: the JSON pointer `/a/b` for names that are not
/// array indexes.
pub open spec fn member_path(v: Json, a: Seq<char>, b: Seq<char>) -> Option<Json> {
    match v.get(a) {
        Some(x) => x.get(b),
        None => None,
    }
}

/// Member `field` of the first block of `message.content` whose `type` is
/// `block_type` (nothing if that block lacks it).
pub open spec fn find_block_field(v: Json, block_type: Seq<char>, field: Seq<char>) -> Option<Json> {
    match member_path(v, "message"@, "content"@) {
        Some(Json::Array(blocks)) => find_in_blocks(blocks, block_type, field),
        _ => None,
    }
}

pub open spec fn find_in_blocks(blocks: Seq<Json>, block_type: Seq<char>, field: Seq<char>) -> Option<Json>
    decreases blocks.len(),
{
    if blocks.len() == 0 {
        None
    } else if str_member(blocks[0], "type"@) == Some(block_type) {
        blocks[0].get(field)
    } else {
        find_in_blocks(blocks.drop_first(), block_type, field)
    }
}

/// A value shown as text: a string as itself, anything else as compact JSON.
pub open spec fn value_text(x: Json) -> Seq<char> {
    match x {
        Json::Str(s) => s,
        _ => json_compact_text(x),
    }
}

pub open spec fn opt_value_text(x: Option<Json>) -> Option<Seq<char>> {
    match x {
        Some(v) => Some(value_text(v)),
        None => None,
    }
}

/// The tool input and output shown for an event of kind `kind` whose stored
/// line is `content`: a tool call's `input`, a tool result's `content`.
pub open spec fn tool_io_of(kind: Seq<char>, content: Seq<char>) -> (Option<Seq<char>>, Option<Seq<char>>) {
    match json_parse_result(content) {
        None => (None, None),
        Some(v) => if kind == "tool_use"@ {
            (
                opt_value_text(
                    match find_block_field(v, "tool_use"@, "input"@) {
                        Some(x) => Some(x),
                        None => v.get("input"@),
                    },
                ),
                None,
            )
        } else if kind == "tool_result"@ {
            (
                None,
                opt_value_text(
                    match member_path(v, "toolUseResult"@, "content"@) {
                        Some(x) => Some(x),
                        None => find_block_field(v, "tool_result"@, "content"@),
                    },
                ),
            )
        } else {
            (None, None)
        },
    }
}

fn get_path<'a>(v: &'a JsonValue, a: &str, b: &str) -> (r: Option<&'a JsonValue>)
    ensures
        crate::json::opt_view(r) == member_path(v@, a@, b@),
{
    match v.get(a) {
        Some(x) => x.get(b),
        None => None,
    }
}

/// Finds member `field` of the first block of `message.content` of type
/// `block_type` (see [`find_block_field`]).
pub fn find_in_message_content<'a>(v: &'a JsonValue, block_type: &str, field: &str) -> (r: Option<&'a JsonValue>)
    ensures
        crate::json::opt_view(r) == find_block_field(v@, block_type@, field@),
{
    let c = match get_path(v, "message", "content") {
        Some(c) => c,
        None => {
            return None;
        },
    };
    match c {
        JsonValue::Array(blocks) => {
            let ghost bv = c@->Array_0;
            assert(bv.skip(0) =~= bv);
            let mut i: usize = 0;
            while i < blocks.len()
                invariant
                    i <= blocks@.len(),
                    bv.len() == blocks@.len(),
                    c@ == Json::Array(bv),
                    forall|j: int| 0 <= j < blocks@.len() ==> #[trigger] bv[j] == blocks@[j]@,
                    find_block_field(v@, block_type@, field@) == find_in_blocks(bv.skip(i as int), block_type@, field@),
                decreases blocks.len() - i,
            {
                let ghost rest = bv.skip(i as int);
                assert(rest[0] == blocks@[i as int]@);
                assert(rest.drop_first() =~= bv.skip(i + 1));
                let b = &blocks[i];
                let hit = match b.str_member("type") {
                    Some(t) => str_eq(t, block_type),
                    None => false,
                };
                if hit {
                    return b.get(field);
                }
                i = i + 1;
            }
            None
        },
        _ => None,
    }
}

fn value_to_text(x: &JsonValue) -> (r: String)
    ensures
        r@ == value_text(x@),
{
    match x {
        JsonValue::Str(s) => s.clone(),
        _ => json_to_text(x),
    }
}

fn opt_text(x: Option<&JsonValue>) -> (r: Option<String>)
    ensures
        opt_chars(r) == opt_value_text(crate::json::opt_view(x)),
{
    match x {
        Some(v) => Some(value_to_text(v)),
        None => None,
    }
}

/// The tool input and output of an event (see [`tool_io_of`]).
pub fn extract_tool_io(kind: &str, content: &str) -> (r: (Option<String>, Option<String>))
    ensures
        (opt_chars(r.0), opt_chars(r.1)) == tool_io_of(kind@, content@),
{
    let v = match parse_json(content) {
        Some(v) => v,
        None => {
            return (None, None);
        },
    };
    if str_eq(kind, "tool_use") {
        let input = match find_in_message_content(&v, "tool_use", "input") {
            Some(x) => Some(x),
            None => v.get("input"),
        };
        (opt_text(input), None)
    } else if str_eq(kind, "tool_result") {
        let output = match get_path(&v, "toolUseResult", "content") {
            Some(x) => Some(x),
            None => find_in_message_content(&v, "tool_result", "content"),
        };
        (None, opt_text(output))
    } else {
        (None, None)
    }
}


// ---------------------------------------------------------------------------
// Rows of the database and what the user interface is sent
// ---------------------------------------------------------------------------

/// A session as the interface lists it.
#[derive(Debug, Clone)]
pub struct SessionDto {
    pub id: String,
    /// The project: the last component of the working directory.
    pub project: String,
    pub cwd: String,
    /// `live`, `idle` or `ended`.
    pub status: String,
    pub started_at: i64,
    pub last_event_at: i64,
    pub duration_label: String,
    pub event_count: u32,
    /// Input and output tokens together.
    pub token_count: u32,
    pub model: String,
    pub ai_title: String,
    pub git_branch: Option<String>,
    pub total_input_tokens: i64,
    pub total_output_tokens: i64,
}

/// An event as the interface shows it in a session's stream.
#[derive(Debug, Clone)]
pub struct EventDto {
    pub id: i64,
    pub session_id: String,
    pub kind: String,
    pub timestamp_label: String,
    pub text: String,
    pub tool_name: Option<String>,
    pub tool_input: Option<String>,
    pub tool_output: Option<String>,
    pub is_error: bool,
    pub thinking_duration_ms: Option<u32>,
    pub thinking_tokens: Option<u32>,
    pub content: String,
    pub category: String,
    pub content_kind: Option<String>,
    pub tool_use_id: Option<String>,
    pub timestamp: Option<i64>,
}

/// A hook error event, with the session it belongs to.
#[derive(Debug, Clone)]
pub struct IssueDto {
    pub id: i64,
    pub session_id: String,
    pub session_title: String,
    pub attachment_kind: String,
    pub timestamp: Option<i64>,
    pub timestamp_label: String,
    /// The first 300 characters of the stored line.
    pub snippet: String,
}

/// Today's figures for the header.
#[derive(Debug, Clone, Copy)]
pub struct StatsDto {
    pub sessions_today: u32,
    pub tokens_today: u64,
    pub tool_calls_today: u32,
    pub active_sessions_count: u32,
    pub recording_count: u32,
}

/// A row of the session list query.
pub struct SessionRow {
    pub id: String,
    pub project: String,
    pub cwd: String,
    pub started_at: i64,
    pub last_event_at: i64,
    pub total_events: i64,
    pub total_input_tokens: i64,
    pub total_output_tokens: i64,
    pub model: String,
    pub ai_title: String,
    pub has_stop_event: i64,
    pub git_branch: Option<String>,
}

/// A row of the event stream query.
pub struct EventRow {
    pub id: i64,
    pub session_id: String,
    pub event_type: String,
    pub category: String,
    pub content_kind: Option<String>,
    pub tool_name: Option<String>,
    pub tool_use_id: Option<String>,
    pub is_error: i64,
    pub text_preview: Option<String>,
    pub content: String,
    pub timestamp: Option<i64>,
    pub duration_ms: Option<i64>,
    pub input_tokens: Option<i64>,
    pub output_tokens: Option<i64>,
}

/// A row of the issue query.
pub struct IssueRow {
    pub id: i64,
    pub session_id: String,
    pub session_title: String,
    pub attachment_kind: String,
    pub timestamp: Option<i64>,
    pub content: String,
}

/// A count shown as `u32`: capped at `u32::MAX`, then cast.
pub open spec fn capped_u32(n: i64) -> u32 {
    (if n < u32::MAX as i64 { n } else { u32::MAX as i64 }) as u32
}

pub fn cap_u32(n: i64) -> (r: u32)
    ensures
        r == capped_u32(n),
{
    (if n < u32::MAX as i64 { n } else { u32::MAX as i64 }) as u32
}

pub open spec fn opt_capped(n: Option<i64>) -> Option<u32> {
    match n {
        Some(k) => Some(capped_u32(k)),
        None => None,
    }
}

fn cap_opt(n: Option<i64>) -> (r: Option<u32>)
    ensures
        r == opt_capped(n),
{
    match n {
        Some(k) => Some(cap_u32(k)),
        None => None,
    }
}

/// The list entry of a session row at time `now_ms`: the row's fields, its
/// status and duration, its event count and its input and output tokens
/// together, each capped at `u32::MAX`.
pub open spec fn session_dto_ok(row: SessionRow, now_ms: i64, r: SessionDto) -> bool {
    &&& r.id@ == row.id@
    &&& r.project@ == row.project@
    &&& r.cwd@ == row.cwd@
    &&& r.status@ == status_of(row.has_stop_event, row.last_event_at, now_ms)
    &&& r.started_at == row.started_at
    &&& r.last_event_at == row.last_event_at
    &&& r.duration_label@ == duration_label(row.started_at, row.last_event_at)
    &&& r.event_count == capped_u32(row.total_events)
    &&& r.token_count == capped_u32((row.total_input_tokens + row.total_output_tokens) as i64)
    &&& r.model@ == row.model@
    &&& r.ai_title@ == row.ai_title@
    &&& opt_chars(r.git_branch) == opt_chars(row.git_branch)
    &&& r.total_input_tokens == row.total_input_tokens
    &&& r.total_output_tokens == row.total_output_tokens
}

/// The list entry of a session row at time `now_ms`.
pub fn session_dto(row: SessionRow, now_ms: i64) -> (r: SessionDto)
    requires
        i64::MIN <= now_ms - row.last_event_at <= i64::MAX,
        i64::MIN <= row.last_event_at - row.started_at <= i64::MAX,
        i64::MIN <= row.total_input_tokens + row.total_output_tokens <= i64::MAX,
    ensures
        session_dto_ok(row, now_ms, r),
{
    let status = compute_status(row.has_stop_event, row.last_event_at, now_ms);
    let token_count = cap_u32(row.total_input_tokens + row.total_output_tokens);
    let duration_label = fmt_duration(row.started_at, row.last_event_at);
    SessionDto {
        id: row.id,
        project: row.project,
        cwd: row.cwd,
        status: status.to_owned(),
        started_at: row.started_at,
        last_event_at: row.last_event_at,
        duration_label,
        event_count: cap_u32(row.total_events),
        token_count,
        model: row.model,
        ai_title: row.ai_title,
        git_branch: row.git_branch,
        total_input_tokens: row.total_input_tokens,
        total_output_tokens: row.total_output_tokens,
    }
}

/// The stream entry of an event row, given the label of its time: the kind
/// from [`kind_of`], the preview as text, the tool input and output from
/// [`tool_io_of`], and for thinking the duration and output tokens.
pub open spec fn event_dto_ok(row: EventRow, label: Seq<char>, r: EventDto) -> bool {
    let kind = kind_of(row.event_type@, opt_chars(row.content_kind));
    let io = tool_io_of(kind, row.content@);
    &&& r.id == row.id
    &&& r.session_id@ == row.session_id@
    &&& r.kind@ == kind
    &&& r.timestamp_label@ == label
    &&& r.text@ == match row.text_preview {
        Some(t) => t@,
        None => Seq::<char>::empty(),
    }
    &&& opt_chars(r.tool_name) == opt_chars(row.tool_name)
    &&& opt_chars(r.tool_input) == io.0
    &&& opt_chars(r.tool_output) == io.1
    &&& r.is_error == (row.is_error != 0)
    &&& r.thinking_duration_ms == if kind == "thinking"@ {
        opt_capped(row.duration_ms)
    } else {
        None
    }
    &&& r.thinking_tokens == if kind == "thinking"@ {
        opt_capped(row.output_tokens)
    } else {
        None
    }
    &&& r.content@ == row.content@
    &&& r.category@ == row.category@
    &&& opt_chars(r.content_kind) == opt_chars(row.content_kind)
    &&& opt_chars(r.tool_use_id) == opt_chars(row.tool_use_id)
    &&& r.timestamp == row.timestamp
}

/// The stream entry of an event row, its time labelled `timestamp_label`.
pub fn event_dto(row: EventRow, timestamp_label: String) -> (r: EventDto)
    ensures
        event_dto_ok(row, timestamp_label@, r),
{
    let kind = map_kind(
        row.event_type.as_str(),
        match &row.content_kind {
            Some(k) => Some(k.as_str()),
            None => None,
        },
    );
    let text = match &row.text_preview {
        Some(t) => t.clone(),
        None => String::new(),
    };
    let io = extract_tool_io(kind.as_str(), row.content.as_str());
    let thinking = str_eq(kind.as_str(), "thinking");
    let (thinking_duration_ms, thinking_tokens) = if thinking {
        (cap_opt(row.duration_ms), cap_opt(row.output_tokens))
    } else {
        (None, None)
    };
    let r = EventDto {
        id: row.id,
        session_id: row.session_id.clone(),
        kind,
        timestamp_label,
        text,
        tool_name: row.tool_name.clone(),
        tool_input: io.0,
        tool_output: io.1,
        is_error: row.is_error != 0,
        thinking_duration_ms,
        thinking_tokens,
        content: row.content.clone(),
        category: row.category.clone(),
        content_kind: row.content_kind.clone(),
        tool_use_id: row.tool_use_id.clone(),
        timestamp: row.timestamp,
    };
    r
}

/// `r` is the stream entry of `row` with some possible label of its time.
pub open spec fn event_entry_ok(row: EventRow, r: EventDto) -> bool {
    exists|label: Seq<char>| #![trigger event_dto_ok(row, label, r)]
        time_label_ok(row.timestamp, label) && event_dto_ok(row, label, r)
}

/// The stream entry of an event row, its time labelled in local time.
pub fn event_from_row(row: EventRow) -> (r: EventDto)
    ensures
        event_entry_ok(row, r),
{
    let label = fmt_time(row.timestamp);
    let ghost l = label@;
    let r = event_dto(row, label);
    assert(time_label_ok(row.timestamp, l) && event_dto_ok(row, l, r));
    r
}

/// The stream of a session from rows newest first: the entries oldest first.
pub fn events_from_rows(rows: Vec<EventRow>) -> (r: Vec<EventDto>)
    ensures
        r@.len() == rows@.len(),
        forall|i: int| 0 <= i < rows@.len() ==> event_entry_ok(rows@[rows@.len() - 1 - i], #[trigger] r@[i]),
{
    let ghost orig = rows@;
    let mut rows = rows;
    let mut out: Vec<EventDto> = Vec::new();
    while rows.len() > 0
        invariant
            rows@.len() + out@.len() == orig.len(),
            rows@ == orig.take(rows@.len() as int),
            forall|i: int| 0 <= i < out@.len() ==> event_entry_ok(orig[orig.len() - 1 - i], #[trigger] out@[i]),
        decreases rows@.len(),
    {
        let ghost n = rows@.len();
        let row = rows.pop().unwrap();
        assert(row == orig[n - 1]);
        assert(rows@ =~= orig.take(n - 1));
        let dto = event_from_row(row);
        out.push(dto);
        assert(out@[out@.len() - 1] == dto);
        assert forall|i: int| 0 <= i < out@.len() implies event_entry_ok(orig[orig.len() - 1 - i], #[trigger] out@[i]) by {
            if i == out@.len() - 1 {
                assert(orig.len() - 1 - i == n - 1);
            }
        }
    }
    out
}

/// The number of events listed when no limit is given.
pub fn event_limit(limit: Option<u32>) -> (r: i64)
    ensures
        r == match limit {
            Some(l) => l as i64,
            None => 500,
        },
{
    match limit {
        Some(l) => l as i64,
        None => 500,
    }
}

/// The number of issues listed when no limit is given.
pub fn issue_limit(limit: Option<u32>) -> (r: i64)
    ensures
        r == match limit {
            Some(l) => l as i64,
            None => 50,
        },
{
    match limit {
        Some(l) => l as i64,
        None => 50,
    }
}

/// The issue entry of a row, its time labelled `timestamp_label`.
pub fn issue_dto(row: IssueRow, timestamp_label: String) -> (r: IssueDto)
    ensures
        r.id == row.id,
        r.session_id@ == row.session_id@,
        r.session_title@ == row.session_title@,
        r.attachment_kind@ == row.attachment_kind@,
        r.timestamp == row.timestamp,
        r.timestamp_label@ == timestamp_label@,
        r.snippet@ == take_chars(row.content@, 300),
{
    let snippet = crate::text::first_chars(row.content.as_str(), 300);
    IssueDto {
        id: row.id,
        session_id: row.session_id,
        session_title: row.session_title,
        attachment_kind: row.attachment_kind,
        timestamp: row.timestamp,
        timestamp_label,
        snippet,
    }
}

/// The issue entry of a row, its time labelled in local time.
pub fn issue_from_row(row: IssueRow) -> (r: IssueDto)
    ensures
        r.id == row.id,
        r.session_id@ == row.session_id@,
        r.session_title@ == row.session_title@,
        r.attachment_kind@ == row.attachment_kind@,
        r.timestamp == row.timestamp,
        time_label_ok(row.timestamp, r.timestamp_label@),
        r.snippet@ == take_chars(row.content@, 300),
{
    let label = fmt_time(row.timestamp);
    issue_dto(row, label)
}

/// The cut-off for active sessions, two minutes before `now_ms`: a session
/// with no stop event is active while its last event is later than this.
pub fn active_cutoff(now_ms: i64) -> (r: i64)
    requires
        now_ms - 120000 >= i64::MIN,
    ensures
        r == now_ms - 120000,
{
    now_ms - 2 * 60000
}

/// Today's figures; a negative token sum shows as none.
pub fn stats_dto(sessions_today: u32, tokens_today: i64, tool_calls_today: u32, active: u32) -> (r: StatsDto)
    ensures
        r.sessions_today == sessions_today,
        r.tokens_today == (if tokens_today >= 0 { tokens_today } else { 0 }) as u64,
        r.tool_calls_today == tool_calls_today,
        r.active_sessions_count == active,
        r.recording_count == active,
{
    StatsDto {
        sessions_today,
        tokens_today: (if tokens_today >= 0 { tokens_today } else { 0 }) as u64,
        tool_calls_today,
        active_sessions_count: active,
        recording_count: active,
    }
}

/// A stream entry shows its row's preview as its text, and shows no text
/// only where the row has no preview; it keeps the row's id, tool name,
/// error flag and content.  A thinking entry's figures are the row's
/// duration and output tokens where they fit a `u32`, and an entry of any
/// other kind has none.
pub proof fn law_entry_shows_row(row: EventRow, r: EventDto)
    requires
        event_entry_ok(row, r),
    ensures
        row.text_preview matches Some(t) ==> r.text@ == t@,
        row.text_preview is None ==> r.text@.len() == 0,
        r.id == row.id,
        r.is_error == (row.is_error != 0),
        r.content@ == row.content@,
        opt_chars(r.tool_name) == opt_chars(row.tool_name),
        (r.kind@ == "thinking"@ && row.output_tokens is Some && 0 <= row.output_tokens->Some_0 < u32::MAX)
            ==> r.thinking_tokens == Some(row.output_tokens->Some_0 as u32),
        (r.kind@ == "thinking"@ && row.duration_ms is Some && 0 <= row.duration_ms->Some_0 < u32::MAX)
            ==> r.thinking_duration_ms == Some(row.duration_ms->Some_0 as u32),
        r.kind@ != "thinking"@ ==> r.thinking_tokens is None && r.thinking_duration_ms is None,
{
    let label = choose|label: Seq<char>| time_label_ok(row.timestamp, label) && event_dto_ok(row, label, r);
    assert(event_dto_ok(row, label, r));
}

/// A session's list entry counts its input and output tokens together (the
/// sum where it fits a `u32`, else `u32::MAX`), keeps each total apart as
/// it is, and counts its events (likewise capped).
pub proof fn law_session_entry_counts(row: SessionRow, now_ms: i64, r: SessionDto)
    requires
        session_dto_ok(row, now_ms, r),
        i64::MIN <= row.total_input_tokens + row.total_output_tokens <= i64::MAX,
    ensures
        0 <= row.total_input_tokens + row.total_output_tokens < u32::MAX ==> r.token_count == row.total_input_tokens
            + row.total_output_tokens,
        row.total_input_tokens + row.total_output_tokens >= u32::MAX ==> r.token_count == u32::MAX,
        r.total_input_tokens == row.total_input_tokens,
        r.total_output_tokens == row.total_output_tokens,
        0 <= row.total_events < u32::MAX ==> r.event_count == row.total_events,
        r.id@ == row.id@,
        r.started_at == row.started_at,
        r.last_event_at == row.last_event_at,
{
}

/// How a session shows, by the age of its last event: `ended` once it has
/// a stop event; else `live` while its last event is under two minutes
/// old, `idle` from two minutes to under half an hour, and `ended` from
/// half an hour on.
pub proof fn law_status_by_age(has_stop_event: i64, last_event_at: i64, now_ms: i64)
    ensures
        has_stop_event != 0 ==> status_of(has_stop_event, last_event_at, now_ms) == "ended"@,
        has_stop_event == 0 && 0 <= now_ms - last_event_at < 120000 ==> status_of(has_stop_event, last_event_at, now_ms)
            == "live"@,
        has_stop_event == 0 && 120000 <= now_ms - last_event_at < 1800000 ==> status_of(
            has_stop_event,
            last_event_at,
            now_ms,
        ) == "idle"@,
        has_stop_event == 0 && now_ms - last_event_at >= 1800000 ==> status_of(has_stop_event, last_event_at, now_ms)
            == "ended"@,
{
    let a = now_ms - last_event_at;
    if a >= 0 {
        assert(a < 120000 ==> a / 60000 < 2) by (nonlinear_arith);
        assert(120000 <= a < 1800000 ==> 2 <= a / 60000 < 30) by (nonlinear_arith);
        assert(a >= 1800000 ==> a / 60000 >= 30) by (nonlinear_arith);
    }
}

} // verus!
