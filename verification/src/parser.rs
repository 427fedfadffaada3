use vstd::prelude::*;

use crate::clock::{utc_millis, utc_millis_of};
use crate::digest::{sha1_hex, sha1_hex_of};
use crate::json::{
    bool_member, i64_member, parse_json, str_member, json_parse_result, Json, JsonValue, opt_json,
};
use crate::paths::{file_name, file_name_of};
use crate::text::{preview_of, take_chars, text_preview};
use crate::types::{
    category_name, opt_chars, EventCategory, EventView, MetaView, ParsedEvent, SessionMeta,
};
use crate::json::str_eq;

verus! {

// ---------------------------------------------------------------------------
// What one transcript line says
// ---------------------------------------------------------------------------

/// The event-specific facts of a line, beside those every line has.
pub struct BodyView {
    pub role: Option<Seq<char>>,
    pub content_kind: Option<Seq<char>>,
    pub tool_name: Option<Seq<char>>,
    pub tool_use_id: Option<Seq<char>>,
    pub stop_reason: Option<Seq<char>>,
    pub duration_ms: Option<i64>,
    pub is_error: bool,
    pub attachment_kind: Option<Seq<char>>,
    pub text_preview: Option<Seq<char>>,
    pub input_tokens: Option<i64>,
    pub output_tokens: Option<i64>,
    pub cache_creation_tokens: Option<i64>,
    pub cache_read_tokens: Option<i64>,
    pub ai_title: Option<Seq<char>>,
    pub summary: Option<Seq<char>>,
    pub model: Option<Seq<char>>,
    pub hook_success: int,
    pub hook_error: int,
}

pub open spec fn empty_body() -> BodyView {
    BodyView {
        role: None,
        content_kind: None,
        tool_name: None,
        tool_use_id: None,
        stop_reason: None,
        duration_ms: None,
        is_error: false,
        attachment_kind: None,
        text_preview: None,
        input_tokens: None,
        output_tokens: None,
        cache_creation_tokens: None,
        cache_read_tokens: None,
        ai_title: None,
        summary: None,
        model: None,
        hook_success: 0,
        hook_error: 0,
    }
}

pub open spec fn opt_preview(s: Option<Seq<char>>) -> Option<Seq<char>> {
    match s {
        Some(t) => Some(preview_of(t)),
        None => None,
    }
}

/// The event type of a line: its `type` member, or `(no-type)`.
pub open spec fn type_of(o: Json) -> Seq<char> {
    match str_member(o, "type"@) {
        Some(t) => t,
        None => "(no-type)"@,
    }
}

/// Conversation lines are content, attachments are attachments, the rest
/// is metadata.
pub open spec fn category_of(ty: Seq<char>) -> EventCategory {
    if ty == "user"@ || ty == "assistant"@ || ty == "system"@ || ty == "summary"@ {
        EventCategory::Content
    } else if ty == "attachment"@ {
        EventCategory::Attachment
    } else {
        EventCategory::Meta
    }
}

/// The first text of a message's content: the content itself where it is a
/// string, else the first block of type `text` that has a `text` string.
pub open spec fn first_text_of(c: Json) -> Option<Seq<char>> {
    match c {
        Json::Str(s) => Some(s),
        Json::Array(blocks) => first_text_in(blocks),
        _ => None,
    }
}

pub open spec fn first_text_in(blocks: Seq<Json>) -> Option<Seq<char>>
    decreases blocks.len(),
{
    if blocks.len() == 0 {
        None
    } else if str_member(blocks[0], "type"@) == Some("text"@) && str_member(blocks[0], "text"@) is Some {
        str_member(blocks[0], "text"@)
    } else {
        first_text_in(blocks.drop_first())
    }
}

/// What the first content block of a message says.
pub open spec fn first_block_body(b: Json, base: BodyView) -> BodyView {
    let kind = match str_member(b, "type"@) {
        Some(k) => k,
        None => "text"@,
    };
    let base = BodyView { content_kind: Some(kind), ..base };
    if kind == "text"@ {
        BodyView { text_preview: opt_preview(str_member(b, "text"@)), ..base }
    } else if kind == "tool_use"@ {
        BodyView { tool_name: str_member(b, "name"@), tool_use_id: str_member(b, "id"@), ..base }
    } else if kind == "tool_result"@ {
        BodyView {
            tool_use_id: str_member(b, "tool_use_id"@),
            is_error: match bool_member(b, "is_error"@) {
                Some(e) => e,
                None => false,
            },
            text_preview: match b.get("content"@) {
                Some(c) => opt_preview(first_text_of(c)),
                None => base.text_preview,
            },
            ..base
        }
    } else if kind == "thinking"@ {
        BodyView { text_preview: opt_preview(str_member(b, "thinking"@)), ..base }
    } else {
        base
    }
}

/// A token count that is kept only when it is positive.
pub open spec fn positive(n: i64) -> Option<i64> {
    if n > 0 {
        Some(n)
    } else {
        None
    }
}

pub open spec fn count_or_zero(v: Json, key: Seq<char>) -> i64 {
    match i64_member(v, key) {
        Some(n) => n,
        None => 0,
    }
}

/// What the `usage` object of a message says.
pub open spec fn usage_body(u: Json, base: BodyView) -> BodyView {
    BodyView {
        input_tokens: positive(count_or_zero(u, "input_tokens"@)),
        output_tokens: positive(count_or_zero(u, "output_tokens"@)),
        cache_creation_tokens: positive(count_or_zero(u, "cache_creation_input_tokens"@)),
        cache_read_tokens: positive(count_or_zero(u, "cache_read_input_tokens"@)),
        ..base
    }
}

/// What the content of a message says.
pub open spec fn content_body(msg: Json, base: BodyView) -> BodyView {
    match msg.get("content"@) {
        Some(Json::Array(blocks)) => if blocks.len() > 0 {
            first_block_body(blocks[0], base)
        } else {
            base
        },
        Some(Json::Str(s)) => BodyView {
            content_kind: Some("text"@),
            text_preview: Some(preview_of(s)),
            ..base
        },
        _ => base,
    }
}

/// What the `message` of a user or assistant line says.
pub open spec fn message_body(o: Json, msg: Json) -> BodyView {
    let b0 = BodyView {
        role: str_member(msg, "role"@),
        model: str_member(msg, "model"@),
        stop_reason: str_member(msg, "stop_reason"@),
        duration_ms: i64_member(o, "durationMs"@),
        ..empty_body()
    };
    let b1 = match msg.get("usage"@) {
        Some(u) => if u.is_object() {
            usage_body(u, b0)
        } else {
            b0
        },
        None => b0,
    };
    content_body(msg, b1)
}

/// What an attachment line says.
pub open spec fn attachment_body(a: Json) -> BodyView {
    let kind = match str_member(a, "type"@) {
        Some(k) => k,
        None => "?"@,
    };
    BodyView {
        attachment_kind: Some(kind),
        hook_success: if kind == "hook_success"@ { 1 } else { 0 },
        hook_error: if kind == "hook_non_blocking_error"@ { 1 } else { 0 },
        is_error: kind == "hook_non_blocking_error"@,
        ..empty_body()
    }
}

/// The event-specific facts of a line of type `ty`.
pub open spec fn body_of(ty: Seq<char>, o: Json) -> BodyView {
    if ty == "ai-title"@ {
        BodyView { ai_title: str_member(o, "aiTitle"@), ..empty_body() }
    } else if ty == "summary"@ {
        BodyView {
            summary: str_member(o, "summary"@),
            text_preview: opt_preview(str_member(o, "summary"@)),
            content_kind: Some("summary"@),
            ..empty_body()
        }
    } else if ty == "attachment"@ {
        match o.get("attachment"@) {
            Some(a) => if a.is_object() {
                attachment_body(a)
            } else {
                empty_body()
            },
            None => empty_body(),
        }
    } else if ty == "assistant"@ || ty == "user"@ {
        match o.get("message"@) {
            Some(msg) => message_body(o, msg),
            None => empty_body(),
        }
    } else {
        empty_body()
    }
}

/// The time of a line, in Unix milliseconds.
pub open spec fn line_time(o: Json) -> Option<i64> {
    match str_member(o, "timestamp"@) {
        Some(t) => utc_millis_of(t),
        None => None,
    }
}

/// The event a line of a transcript stands for.
pub open spec fn line_event(line: Seq<char>, o: Json) -> EventView {
    let ty = type_of(o);
    let body = body_of(ty, o);
    EventView {
        uuid: match str_member(o, "uuid"@) {
            Some(u) => u,
            None => "meta:"@ + sha1_hex_of(line),
        },
        parent_uuid: str_member(o, "parentUuid"@),
        event_type: ty,
        category: category_of(ty),
        role: body.role,
        timestamp_ms: line_time(o),
        content_kind: body.content_kind,
        tool_name: body.tool_name,
        tool_use_id: body.tool_use_id,
        stop_reason: body.stop_reason,
        duration_ms: body.duration_ms,
        is_sidechain: match bool_member(o, "isSidechain"@) {
            Some(b) => b,
            None => false,
        },
        is_error: body.is_error,
        attachment_kind: body.attachment_kind,
        content: line,
        text_preview: body.text_preview,
        input_tokens: body.input_tokens,
        output_tokens: body.output_tokens,
        cache_creation_tokens: body.cache_creation_tokens,
        cache_read_tokens: body.cache_read_tokens,
    }
}

pub open spec fn count_of(n: Option<i64>) -> int {
    match n {
        Some(k) => k as int,
        None => 0,
    }
}

/// The session facts a line of a transcript gives.
pub open spec fn line_meta(o: Json) -> MetaView {
    let ty = type_of(o);
    let body = body_of(ty, o);
    let cwd = str_member(o, "cwd"@);
    MetaView {
        session_id: str_member(o, "sessionId"@),
        cwd: cwd,
        project_name: match cwd {
            Some(c) => file_name_of(c),
            None => None,
        },
        ai_title: body.ai_title,
        summary: body.summary,
        started_at: line_time(o),
        last_event_at: line_time(o),
        model: body.model,
        cli_version: str_member(o, "version"@),
        git_branch: match str_member(o, "gitBranch"@) {
            Some(b) => if b.len() > 0 {
                Some(b)
            } else {
                None
            },
            None => None,
        },
        permission_mode: str_member(o, "permissionMode"@),
        input_tokens_delta: count_of(body.input_tokens),
        output_tokens_delta: count_of(body.output_tokens),
        cache_creation_delta: count_of(body.cache_creation_tokens),
        cache_read_delta: count_of(body.cache_read_tokens),
        event_count: 1,
        hook_success_delta: body.hook_success,
        hook_error_delta: body.hook_error,
    }
}

/// Why a line was not read.
#[derive(Debug, Clone, Copy, PartialEq, Eq, Structural)]
pub enum LineError {
    /// The line is not one JSON document.
    InvalidJson,
    /// The line is JSON, but not an object.
    NotAnObject,
}

/// What reading one line gives: the event and its session facts, or why not.
pub open spec fn line_outcome(line: Seq<char>) -> Result<(EventView, MetaView), LineError> {
    match json_parse_result(line) {
        None => Err(LineError::InvalidJson),
        Some(o) => if o.is_object() {
            Ok((line_event(line, o), line_meta(o)))
        } else {
            Err(LineError::NotAnObject)
        },
    }
}


// ---------------------------------------------------------------------------
// Reading one line
// ---------------------------------------------------------------------------

struct Body {
    role: Option<String>,
    content_kind: Option<String>,
    tool_name: Option<String>,
    tool_use_id: Option<String>,
    stop_reason: Option<String>,
    duration_ms: Option<i64>,
    is_error: bool,
    attachment_kind: Option<String>,
    text_preview: Option<String>,
    input_tokens: Option<i64>,
    output_tokens: Option<i64>,
    cache_creation_tokens: Option<i64>,
    cache_read_tokens: Option<i64>,
    ai_title: Option<String>,
    summary: Option<String>,
    model: Option<String>,
    hook_success: i64,
    hook_error: i64,
}

impl View for Body {
    type V = BodyView;

    closed spec fn view(&self) -> BodyView {
        BodyView {
            role: opt_chars(self.role),
            content_kind: opt_chars(self.content_kind),
            tool_name: opt_chars(self.tool_name),
            tool_use_id: opt_chars(self.tool_use_id),
            stop_reason: opt_chars(self.stop_reason),
            duration_ms: self.duration_ms,
            is_error: self.is_error,
            attachment_kind: opt_chars(self.attachment_kind),
            text_preview: opt_chars(self.text_preview),
            input_tokens: self.input_tokens,
            output_tokens: self.output_tokens,
            cache_creation_tokens: self.cache_creation_tokens,
            cache_read_tokens: self.cache_read_tokens,
            ai_title: opt_chars(self.ai_title),
            summary: opt_chars(self.summary),
            model: opt_chars(self.model),
            hook_success: self.hook_success as int,
            hook_error: self.hook_error as int,
        }
    }
}

fn new_body() -> (b: Body)
    ensures
        b@ == empty_body(),
{
    Body {
        role: None,
        content_kind: None,
        tool_name: None,
        tool_use_id: None,
        stop_reason: None,
        duration_ms: None,
        is_error: false,
        attachment_kind: None,
        text_preview: None,
        input_tokens: None,
        output_tokens: None,
        cache_creation_tokens: None,
        cache_read_tokens: None,
        ai_title: None,
        summary: None,
        model: None,
        hook_success: 0,
        hook_error: 0,
    }
}

fn preview_opt(s: Option<&str>) -> (r: Option<String>)
    ensures
        opt_chars(r) == opt_preview(match s {
            Some(t) => Some(t@),
            None => None,
        }),
{
    match s {
        Some(t) => Some(text_preview(t)),
        None => None,
    }
}

/// The first text of a message's content (see [`first_text_of`]).
pub fn first_text(c: &JsonValue) -> (r: Option<String>)
    ensures
        opt_chars(r) == first_text_of(c@),
{
    match c {
        JsonValue::Str(s) => Some(s.clone()),
        JsonValue::Array(blocks) => {
            let ghost bv = c@->Array_0;
            assert(bv.skip(0) =~= bv);
            assert forall|j: int| 0 <= j < blocks@.len() implies bv[j] == #[trigger] blocks@[j]@ by {}
            let mut i: usize = 0;
            while i < blocks.len()
                invariant
                    i <= blocks@.len(),
                    bv.len() == blocks@.len(),
                    forall|j: int| 0 <= j < blocks@.len() ==> bv[j] == #[trigger] blocks@[j]@,
                    first_text_in(bv) == first_text_in(bv.skip(i as int)),
                    first_text_of(c@) == first_text_in(bv),
                decreases blocks.len() - i,
            {
                let b = &blocks[i];
                let ghost rest = bv.skip(i as int);
                assert(rest[0] == b@);
                assert(rest.drop_first() =~= bv.skip(i + 1));
                let is_text = match b.str_member("type") {
                    Some(t) => str_eq(t, "text"),
                    None => false,
                };
                if is_text {
                    match b.str_member("text") {
                        Some(t) => {
                            assert(first_text_in(rest) == Some(t@));
                            return Some(t.to_owned());
                        },
                        None => {},
                    }
                }
                i = i + 1;
            }
            assert(bv.skip(i as int).len() == 0);
            None
        },
        _ => None,
    }
}

fn first_block(b: &JsonValue, base: Body) -> (r: Body)
    ensures
        r@ == first_block_body(b@, base@),
{
    let kind = match b.str_member("type") {
        Some(k) => k.to_owned(),
        None => "text".to_owned(),
    };
    let mut out = base;
    if str_eq(kind.as_str(), "text") {
        out.text_preview = preview_opt(b.str_member("text"));
    } else if str_eq(kind.as_str(), "tool_use") {
        out.tool_name = b.string_member("name");
        out.tool_use_id = b.string_member("id");
    } else if str_eq(kind.as_str(), "tool_result") {
        out.tool_use_id = b.string_member("tool_use_id");
        out.is_error = match b.bool_member("is_error") {
            Some(e) => e,
            None => false,
        };
        match b.get("content") {
            Some(c) => {
                out.text_preview = match first_text(c) {
                    Some(t) => Some(text_preview(t.as_str())),
                    None => None,
                };
            },
            None => {},
        }
    } else if str_eq(kind.as_str(), "thinking") {
        out.text_preview = preview_opt(b.str_member("thinking"));
    }
    out.content_kind = Some(kind);
    out
}

fn count_member(u: &JsonValue, key: &str) -> (r: i64)
    ensures
        r == count_or_zero(u@, key@),
{
    match u.i64_member(key) {
        Some(n) => n,
        None => 0,
    }
}

fn keep_positive(n: i64) -> (r: Option<i64>)
    ensures
        r == positive(n),
{
    if n > 0 {
        Some(n)
    } else {
        None
    }
}

fn message_part(o: &JsonValue, msg: &JsonValue) -> (r: Body)
    ensures
        r@ == message_body(o@, msg@),
{
    let mut b = new_body();
    b.role = msg.string_member("role");
    b.model = msg.string_member("model");
    b.stop_reason = msg.string_member("stop_reason");
    b.duration_ms = o.i64_member("durationMs");
    match msg.get("usage") {
        Some(u) => {
            if u.is_object() {
                b.input_tokens = keep_positive(count_member(u, "input_tokens"));
                b.output_tokens = keep_positive(count_member(u, "output_tokens"));
                b.cache_creation_tokens = keep_positive(
                    count_member(u, "cache_creation_input_tokens"),
                );
                b.cache_read_tokens = keep_positive(count_member(u, "cache_read_input_tokens"));
            }
        },
        None => {},
    }
    match msg.get("content") {
        Some(c) => match c {
            JsonValue::Array(blocks) => {
                if blocks.len() > 0 {
                    assert(c@->Array_0[0] == blocks@[0]@);
                    b = first_block(&blocks[0], b);
                }
            },
            JsonValue::Str(s) => {
                b.content_kind = Some("text".to_owned());
                b.text_preview = Some(text_preview(s.as_str()));
            },
            _ => {},
        },
        None => {},
    }
    b
}

fn attachment_part(a: &JsonValue) -> (r: Body)
    ensures
        r@ == attachment_body(a@),
{
    let kind = match a.str_member("type") {
        Some(k) => k.to_owned(),
        None => "?".to_owned(),
    };
    let mut b = new_body();
    if str_eq(kind.as_str(), "hook_success") {
        b.hook_success = 1;
    }
    if str_eq(kind.as_str(), "hook_non_blocking_error") {
        b.hook_error = 1;
        b.is_error = true;
    }
    b.attachment_kind = Some(kind);
    b
}

fn body_part(ty: &str, o: &JsonValue) -> (r: Body)
    ensures
        r@ == body_of(ty@, o@),
{
    if str_eq(ty, "ai-title") {
        let mut b = new_body();
        b.ai_title = o.string_member("aiTitle");
        b
    } else if str_eq(ty, "summary") {
        let mut b = new_body();
        b.summary = o.string_member("summary");
        b.text_preview = preview_opt(o.str_member("summary"));
        b.content_kind = Some("summary".to_owned());
        b
    } else if str_eq(ty, "attachment") {
        match o.get("attachment") {
            Some(a) => if a.is_object() {
                attachment_part(a)
            } else {
                new_body()
            },
            None => new_body(),
        }
    } else if str_eq(ty, "assistant") || str_eq(ty, "user") {
        match o.get("message") {
            Some(msg) => message_part(o, msg),
            None => new_body(),
        }
    } else {
        new_body()
    }
}

fn category_for(ty: &str) -> (r: EventCategory)
    ensures
        r == category_of(ty@),
{
    if str_eq(ty, "user") || str_eq(ty, "assistant") || str_eq(ty, "system") || str_eq(
        ty,
        "summary",
    ) {
        EventCategory::Content
    } else if str_eq(ty, "attachment") {
        EventCategory::Attachment
    } else {
        EventCategory::Meta
    }
}

fn time_of(o: &JsonValue) -> (r: Option<i64>)
    ensures
        r == line_time(o@),
{
    match o.str_member("timestamp") {
        Some(t) => utc_millis(t),
        None => None,
    }
}

fn count_value(n: Option<i64>) -> (r: i64)
    ensures
        r as int == count_of(n),
{
    match n {
        Some(k) => k,
        None => 0,
    }
}

/// The event and session facts of a line whose JSON document `o` has been
/// read (see [`line_event`] and [`line_meta`]).
pub fn event_from_object(line: &str, o: &JsonValue) -> (r: (ParsedEvent, SessionMeta))
    ensures
        r.0@ == line_event(line@, o@),
        r.1@ == line_meta(o@),
        str_member(o@, "uuid"@) is None ==> r.0.uuid@.len() == 45,
{
    let ty = match o.str_member("type") {
        Some(t) => t.to_owned(),
        None => "(no-type)".to_owned(),
    };
    let body = body_part(ty.as_str(), o);
    let ts = time_of(o);
    let uuid = match o.string_member("uuid") {
        Some(u) => u,
        None => {
            let mut u = "meta:".to_owned();
            let h = sha1_hex(line);
            crate::text::push_str(&mut u, h.as_str());
            proof {
                reveal_strlit("meta:");
            }
            u
        },
    };
    let cwd = o.string_member("cwd");
    let project_name = match &cwd {
        Some(c) => file_name(c.as_str()),
        None => None,
    };
    let git_branch = match o.str_member("gitBranch") {
        Some(g) => if crate::text::is_empty_str(g) {
            None
        } else {
            Some(g.to_owned())
        },
        None => None,
    };
    let meta = SessionMeta {
        session_id: o.string_member("sessionId"),
        cwd: cwd,
        project_name: project_name,
        ai_title: body.ai_title,
        summary: body.summary,
        started_at: ts,
        last_event_at: ts,
        model: body.model,
        cli_version: o.string_member("version"),
        git_branch: git_branch,
        permission_mode: o.string_member("permissionMode"),
        input_tokens_delta: count_value(body.input_tokens),
        output_tokens_delta: count_value(body.output_tokens),
        cache_creation_delta: count_value(body.cache_creation_tokens),
        cache_read_delta: count_value(body.cache_read_tokens),
        event_count: 1,
        hook_success_delta: body.hook_success,
        hook_error_delta: body.hook_error,
    };
    let category = category_for(ty.as_str());
    let ev = ParsedEvent {
        uuid: uuid,
        parent_uuid: o.string_member("parentUuid"),
        event_type: ty,
        category: category,
        role: body.role,
        timestamp_ms: ts,
        content_kind: body.content_kind,
        tool_name: body.tool_name,
        tool_use_id: body.tool_use_id,
        stop_reason: body.stop_reason,
        duration_ms: body.duration_ms,
        is_sidechain: match o.bool_member("isSidechain") {
            Some(b) => b,
            None => false,
        },
        is_error: body.is_error,
        attachment_kind: body.attachment_kind,
        content: line.to_owned(),
        text_preview: body.text_preview,
        input_tokens: body.input_tokens,
        output_tokens: body.output_tokens,
        cache_creation_tokens: body.cache_creation_tokens,
        cache_read_tokens: body.cache_read_tokens,
    };
    (ev, meta)
}

/// Reads one (already trimmed) transcript line into its event and session
/// facts.
pub fn parse_line(line: &str) -> (r: Result<(ParsedEvent, SessionMeta), LineError>)
    ensures
        match r {
            Ok((ev, meta)) => line_outcome(line@) == Ok::<(EventView, MetaView), LineError>((ev@, meta@)),
            Err(e) => line_outcome(line@) == Err::<(EventView, MetaView), LineError>(e),
        },
        match r {
            Ok((ev, _)) => str_member(json_parse_result(line@)->Some_0, "uuid"@) is None ==> ev.uuid@.len() == 45,
            Err(_) => true,
        },
{
    match parse_json(line) {
        None => Err(LineError::InvalidJson),
        Some(o) => if o.is_object() {
            Ok(event_from_object(line, &o))
        } else {
            Err(LineError::NotAnObject)
        },
    }
}


// ---------------------------------------------------------------------------
// Merging session facts
// ---------------------------------------------------------------------------

pub open spec fn first_some<T>(a: Option<T>, b: Option<T>) -> Option<T> {
    match a {
        Some(x) => Some(x),
        None => b,
    }
}

pub open spec fn latest_some<T>(a: Option<T>, b: Option<T>) -> Option<T> {
    match b {
        Some(y) => Some(y),
        None => a,
    }
}

pub open spec fn later_time(a: Option<i64>, b: Option<i64>) -> Option<i64> {
    match (a, b) {
        (Some(x), Some(y)) => Some(if x >= y { x } else { y }),
        (None, Some(y)) => Some(y),
        (_, None) => a,
    }
}

/// The session facts of `dst` followed by those of `src`: identity facts
/// (id, directory, project, start, version, branch) keep the first value
/// known, changing ones (title, summary, model, permission mode) the latest,
/// the last event time the greatest, and the counters add up.
pub open spec fn merged(dst: MetaView, src: MetaView) -> MetaView {
    MetaView {
        session_id: first_some(dst.session_id, src.session_id),
        cwd: first_some(dst.cwd, src.cwd),
        project_name: first_some(dst.project_name, src.project_name),
        ai_title: latest_some(dst.ai_title, src.ai_title),
        summary: latest_some(dst.summary, src.summary),
        started_at: first_some(dst.started_at, src.started_at),
        last_event_at: later_time(dst.last_event_at, src.last_event_at),
        model: latest_some(dst.model, src.model),
        cli_version: first_some(dst.cli_version, src.cli_version),
        git_branch: first_some(dst.git_branch, src.git_branch),
        permission_mode: latest_some(dst.permission_mode, src.permission_mode),
        input_tokens_delta: dst.input_tokens_delta + src.input_tokens_delta,
        output_tokens_delta: dst.output_tokens_delta + src.output_tokens_delta,
        cache_creation_delta: dst.cache_creation_delta + src.cache_creation_delta,
        cache_read_delta: dst.cache_read_delta + src.cache_read_delta,
        event_count: dst.event_count + src.event_count,
        hook_success_delta: dst.hook_success_delta + src.hook_success_delta,
        hook_error_delta: dst.hook_error_delta + src.hook_error_delta,
    }
}

/// The counters of a set of session facts fit in their machine types.
pub open spec fn meta_in_range(m: MetaView) -> bool {
    &&& i64::MIN <= m.input_tokens_delta <= i64::MAX
    &&& i64::MIN <= m.output_tokens_delta <= i64::MAX
    &&& i64::MIN <= m.cache_creation_delta <= i64::MAX
    &&& i64::MIN <= m.cache_read_delta <= i64::MAX
    &&& 0 <= m.event_count <= usize::MAX
    &&& i64::MIN <= m.hook_success_delta <= i64::MAX
    &&& i64::MIN <= m.hook_error_delta <= i64::MAX
}

fn first_of<T>(a: Option<T>, b: Option<T>) -> (r: Option<T>)
    ensures
        r == first_some(a, b),
{
    match a {
        Some(x) => Some(x),
        None => b,
    }
}

fn latest_of<T>(a: Option<T>, b: Option<T>) -> (r: Option<T>)
    ensures
        r == latest_some(a, b),
{
    match b {
        Some(y) => Some(y),
        None => a,
    }
}

fn later_of(a: Option<i64>, b: Option<i64>) -> (r: Option<i64>)
    ensures
        r == later_time(a, b),
{
    match (a, b) {
        (Some(x), Some(y)) => Some(if x >= y { x } else { y }),
        (None, Some(y)) => Some(y),
        (_, None) => a,
    }
}

/// Folds the session facts of `src` into `dst` (see [`merged`]).
pub fn merge_meta(dst: &mut SessionMeta, src: SessionMeta)
    requires
        meta_in_range(merged(old(dst)@, src@)),
    ensures
        final(dst)@ == merged(old(dst)@, src@),
{
    let mut d = SessionMeta::default();
    std::mem::swap(&mut d, dst);
    *dst = SessionMeta {
        session_id: first_of(d.session_id, src.session_id),
        cwd: first_of(d.cwd, src.cwd),
        project_name: first_of(d.project_name, src.project_name),
        ai_title: latest_of(d.ai_title, src.ai_title),
        summary: latest_of(d.summary, src.summary),
        started_at: first_of(d.started_at, src.started_at),
        last_event_at: later_of(d.last_event_at, src.last_event_at),
        model: latest_of(d.model, src.model),
        cli_version: first_of(d.cli_version, src.cli_version),
        git_branch: first_of(d.git_branch, src.git_branch),
        permission_mode: latest_of(d.permission_mode, src.permission_mode),
        input_tokens_delta: d.input_tokens_delta + src.input_tokens_delta,
        output_tokens_delta: d.output_tokens_delta + src.output_tokens_delta,
        cache_creation_delta: d.cache_creation_delta + src.cache_creation_delta,
        cache_read_delta: d.cache_read_delta + src.cache_read_delta,
        event_count: d.event_count + src.event_count,
        hook_success_delta: d.hook_success_delta + src.hook_success_delta,
        hook_error_delta: d.hook_error_delta + src.hook_error_delta,
    };
}

/// Merging with no facts at all changes nothing, on either side.
pub proof fn law_merge_identity(m: MetaView)
    ensures
        merged(empty_meta_view(), m) == m,
        merged(m, empty_meta_view()) == m,
{
}

pub open spec fn empty_meta_view() -> MetaView {
    crate::types::empty_meta()
}

/// Merging is associative: folding a run of lines in two pieces and then
/// merging the two results gives the facts of folding the whole run.
pub proof fn law_merge_associative(a: MetaView, b: MetaView, c: MetaView)
    ensures
        merged(merged(a, b), c) == merged(a, merged(b, c)),
{
}


// ---------------------------------------------------------------------------
// Reading a run of lines
// ---------------------------------------------------------------------------

/// The outcome of reading a run of lines: the events in order, the merged
/// session facts, and the number of lines that could not be read.
pub struct BatchView {
    pub events: Seq<EventView>,
    pub meta: MetaView,
    pub parse_errors: nat,
}

/// Reads the lines one by one: a line that is blank once trimmed is passed
/// over, a line that reads is kept, any other line counts as an error.
pub open spec fn batch_of(lines: Seq<Seq<char>>) -> BatchView
    decreases lines.len(),
{
    if lines.len() == 0 {
        BatchView { events: Seq::empty(), meta: crate::types::empty_meta(), parse_errors: 0 }
    } else {
        let prev = batch_of(lines.drop_last());
        let t = crate::text::trim_of(lines.last());
        if t.len() == 0 {
            prev
        } else {
            match line_outcome(t) {
                Ok((ev, m)) => BatchView {
                    events: prev.events.push(ev),
                    meta: merged(prev.meta, m),
                    parse_errors: prev.parse_errors,
                },
                Err(_) => BatchView { parse_errors: prev.parse_errors + 1, ..prev },
            }
        }
    }
}

/// The characters of each line.
pub open spec fn lines_view(lines: Seq<String>) -> Seq<Seq<char>> {
    lines.map_values(|s: String| s@)
}

/// The events of a batch, by their views.
pub open spec fn events_view(events: Seq<ParsedEvent>) -> Seq<EventView> {
    events.map_values(|e: ParsedEvent| e@)
}

/// The counters of session facts that no line goes below.
pub open spec fn meta_counts_nonneg(m: MetaView) -> bool {
    &&& m.input_tokens_delta >= 0
    &&& m.output_tokens_delta >= 0
    &&& m.cache_creation_delta >= 0
    &&& m.cache_read_delta >= 0
    &&& m.event_count >= 0
    &&& m.hook_success_delta >= 0
    &&& m.hook_error_delta >= 0
}

/// Every counter of `a` is at most that of `b`.
pub open spec fn meta_counts_le(a: MetaView, b: MetaView) -> bool {
    &&& a.input_tokens_delta <= b.input_tokens_delta
    &&& a.output_tokens_delta <= b.output_tokens_delta
    &&& a.cache_creation_delta <= b.cache_creation_delta
    &&& a.cache_read_delta <= b.cache_read_delta
    &&& a.event_count <= b.event_count
    &&& a.hook_success_delta <= b.hook_success_delta
    &&& a.hook_error_delta <= b.hook_error_delta
}

proof fn lemma_line_counts_nonneg(line: Seq<char>)
    ensures
        line_outcome(line) matches Ok((_, m)) ==> meta_counts_nonneg(m),
{
}

proof fn lemma_batch_monotone(lines: Seq<Seq<char>>, k: int)
    requires
        0 <= k <= lines.len(),
    ensures
        meta_counts_nonneg(batch_of(lines.take(k)).meta),
        meta_counts_le(batch_of(lines.take(k)).meta, batch_of(lines).meta),
        batch_of(lines.take(k)).parse_errors <= k,
    decreases lines.len(),
{
    if lines.len() == 0 {
        assert(lines.take(k) =~= lines);
    } else if k == lines.len() {
        assert(lines.take(k) =~= lines);
        lemma_batch_monotone(lines.drop_last(), k - 1);
        assert(lines.drop_last().take(k - 1) =~= lines.drop_last());
        lemma_line_counts_nonneg(crate::text::trim_of(lines.last()));
    } else {
        lemma_batch_monotone(lines.drop_last(), k);
        assert(lines.drop_last().take(k) =~= lines.take(k));
        lemma_batch_monotone(lines.drop_last(), lines.len() - 1);
        assert(lines.drop_last().take(lines.len() - 1) =~= lines.drop_last());
        lemma_line_counts_nonneg(crate::text::trim_of(lines.last()));
    }
}

/// No counter of a run of lines goes below zero.
pub proof fn lemma_batch_nonneg(lines: Seq<Seq<char>>)
    ensures
        meta_counts_nonneg(batch_of(lines).meta),
{
    lemma_batch_monotone(lines, lines.len() as int);
    assert(lines.take(lines.len() as int) =~= lines);
}

/// A run of lines gives at most one event or error per line.
pub proof fn lemma_batch_size(lines: Seq<Seq<char>>)
    ensures
        batch_of(lines).events.len() + batch_of(lines).parse_errors <= lines.len(),
    decreases lines.len(),
{
    if lines.len() > 0 {
        lemma_batch_size(lines.drop_last());
    }
}

/// Reading a file in two runs, from the start to a cursor and from the
/// cursor on, gives the events of reading it at once, in order, with the
/// same merged session facts and the same number of errors: nothing is lost
/// and nothing is read twice.
pub proof fn law_batch_split(a: Seq<Seq<char>>, b: Seq<Seq<char>>)
    ensures
        batch_of(a + b).events == batch_of(a).events + batch_of(b).events,
        batch_of(a + b).meta == merged(batch_of(a).meta, batch_of(b).meta),
        batch_of(a + b).parse_errors == batch_of(a).parse_errors + batch_of(b).parse_errors,
    decreases b.len(),
{
    if b.len() == 0 {
        assert(a + b =~= a);
        assert(batch_of(a).events + batch_of(b).events =~= batch_of(a).events);
        law_merge_identity(batch_of(a).meta);
    } else {
        let d = b.drop_last();
        law_batch_split(a, d);
        assert((a + b).drop_last() =~= a + d);
        assert((a + b).last() == b.last());
        let t = crate::text::trim_of(b.last());
        if t.len() > 0 {
            match line_outcome(t) {
                Ok((ev, m)) => {
                    assert(batch_of(a).events + batch_of(d).events.push(ev) =~= (batch_of(a).events
                        + batch_of(d).events).push(ev));
                    law_merge_associative(batch_of(a).meta, batch_of(d).meta, m);
                },
                Err(_) => {},
            }
        }
    }
}

/// Whether the session facts of the whole run fit their machine counters,
/// the only runs on which [`parse_lines`] is defined.
pub open spec fn batch_in_range(lines: Seq<Seq<char>>) -> bool {
    meta_in_range(batch_of(lines).meta)
}

fn i64_sum_fits(a: i64, b: i64) -> (r: bool)
    ensures
        r == (i64::MIN <= a + b <= i64::MAX),
{
    let s = a as i128 + b as i128;
    i64::MIN as i128 <= s && s <= i64::MAX as i128
}

/// Whether merging `src` into `dst` keeps every counter in range.
pub fn merge_fits(dst: &SessionMeta, src: &SessionMeta) -> (r: bool)
    ensures
        r == meta_in_range(merged(dst@, src@)),
{
    i64_sum_fits(dst.input_tokens_delta, src.input_tokens_delta) && i64_sum_fits(
        dst.output_tokens_delta,
        src.output_tokens_delta,
    ) && i64_sum_fits(dst.cache_creation_delta, src.cache_creation_delta) && i64_sum_fits(
        dst.cache_read_delta,
        src.cache_read_delta,
    ) && dst.event_count as u128 + src.event_count as u128 <= usize::MAX as u128 && i64_sum_fits(
        dst.hook_success_delta,
        src.hook_success_delta,
    ) && i64_sum_fits(dst.hook_error_delta, src.hook_error_delta)
}

/// The result of reading a run of lines.
pub struct ParseBatch {
    pub events: Vec<ParsedEvent>,
    pub meta: SessionMeta,
    /// Where reading stopped: the offset just past the last byte read.
    pub new_offset: u64,
    pub parse_errors: usize,
}

/// Reads a run of transcript lines (see [`batch_of`]); `None` exactly when
/// the merged counters would leave their machine types.
pub fn parse_lines_checked(lines: &Vec<String>, new_offset: u64) -> (r: Option<ParseBatch>)
    ensures
        r is Some <==> batch_in_range(lines_view(lines@)),
        r matches Some(b) ==> {
            &&& events_view(b.events@) == batch_of(lines_view(lines@)).events
            &&& b.meta@ == batch_of(lines_view(lines@)).meta
            &&& b.parse_errors == batch_of(lines_view(lines@)).parse_errors
            &&& b.new_offset == new_offset
        },
{
    let ghost all = lines_view(lines@);
    let mut events: Vec<ParsedEvent> = Vec::new();
    let mut meta = SessionMeta::default();
    let mut errors: usize = 0;
    let mut i: usize = 0;
    assert(all.take(0) =~= Seq::<Seq<char>>::empty());
    while i < lines.len()
        invariant
            i <= lines@.len(),
            all == lines_view(lines@),
            all.len() == lines@.len(),
            events_view(events@) == batch_of(all.take(i as int)).events,
            meta@ == batch_of(all.take(i as int)).meta,
            errors == batch_of(all.take(i as int)).parse_errors,
        decreases lines.len() - i,
    {
        let ghost pre = all.take(i as int);
        let ghost next = all.take(i + 1);
        assert(next.drop_last() =~= pre);
        assert(next.last() == lines@[i as int]@);
        proof {
            lemma_batch_monotone(all, i as int);
        }
        let t = crate::text::trim(lines[i].as_str());
        if crate::text::is_empty_str(t.as_str()) {
        } else {
            match parse_line(t.as_str()) {
                Ok((ev, m)) => {
                    if !merge_fits(&meta, &m) {
                        proof {
                            lemma_batch_monotone(all, i + 1);
                            assert(all.take(all.len() as int) =~= all);
                            lemma_batch_monotone(all, all.len() as int);
                        }
                        return None;
                    }
                    merge_meta(&mut meta, m);
                    events.push(ev);
                    assert(events_view(events@) =~= events_view(old_events_hint(events@)).push(
                        ev_hint(events@),
                    ));
                },
                Err(_) => {
                    errors = errors + 1;
                },
            }
        }
        i = i + 1;
    }
    assert(all.take(i as int) =~= all);
    proof {
        lemma_batch_monotone(all, all.len() as int);
    }
    Some(ParseBatch { events, meta, new_offset, parse_errors: errors })
}

spec fn old_events_hint(e: Seq<ParsedEvent>) -> Seq<ParsedEvent> {
    e.drop_last()
}

spec fn ev_hint(e: Seq<ParsedEvent>) -> EventView {
    e.last()@
}

/// Reads a run of transcript lines whose counters fit (see [`batch_of`]).
pub fn parse_lines(lines: &Vec<String>, new_offset: u64) -> (r: ParseBatch)
    requires
        batch_in_range(lines_view(lines@)),
    ensures
        events_view(r.events@) == batch_of(lines_view(lines@)).events,
        r.meta@ == batch_of(lines_view(lines@)).meta,
        r.parse_errors == batch_of(lines_view(lines@)).parse_errors,
        r.new_offset == new_offset,
{
    match parse_lines_checked(lines, new_offset) {
        Some(b) => b,
        None => {
            assert(false);
            ParseBatch {
                events: Vec::new(),
                meta: SessionMeta::default(),
                new_offset,
                parse_errors: 0,
            }
        },
    }
}

// ---------------------------------------------------------------------------
// What a conversation line is read as
// ---------------------------------------------------------------------------

/// The line types and block kinds that reading tells apart differ.
proof fn lemma_kind_names()
    ensures
        "user"@ != "ai-title"@, "user"@ != "summary"@, "user"@ != "attachment"@,
        "assistant"@ != "ai-title"@, "assistant"@ != "summary"@, "assistant"@ != "attachment"@,
        "summary"@ != "ai-title"@,
        "text"@ != "tool_use"@, "tool_use"@ != "text"@,
{
    reveal_strlit("user");
    reveal_strlit("assistant");
    reveal_strlit("ai-title");
    reveal_strlit("summary");
    reveal_strlit("attachment");
    reveal_strlit("text");
    reveal_strlit("tool_use");
    assert("user"@.len() != "ai-title"@.len());
    assert("user"@.len() != "summary"@.len());
    assert("user"@[0] != "attachment"@[0]);
    assert("assistant"@.len() != "ai-title"@.len());
    assert("assistant"@.len() != "summary"@.len());
    assert("assistant"@[1] != "attachment"@[1]);
    assert("summary"@.len() != "ai-title"@.len());
    assert("text"@.len() != "tool_use"@.len());
}

/// Whether `o` is a user or assistant line whose `message` is `msg`.
pub open spec fn conversation_line(line: Seq<char>, o: Json, msg: Json) -> bool {
    &&& json_parse_result(line) == Some(o)
    &&& o.is_object()
    &&& (str_member(o, "type"@) == Some("user"@) || str_member(o, "type"@) == Some("assistant"@))
    &&& o.get("message"@) == Some(msg)
}

/// A conversation line whose message content is a list of blocks, the
/// first of them a text block with text `t`, is read as a text event whose
/// preview is the first 200 characters of `t`.
pub proof fn law_text_block_preview(line: Seq<char>, o: Json, msg: Json, blocks: Seq<Json>, t: Seq<char>)
    requires
        conversation_line(line, o, msg),
        msg.get("content"@) == Some(Json::Array(blocks)),
        blocks.len() > 0,
        str_member(blocks[0], "type"@) == Some("text"@),
        str_member(blocks[0], "text"@) == Some(t),
    ensures
        line_outcome(line) matches Ok((ev, _)) && ev.text_preview == Some(take_chars(t, 200)) && ev.content_kind
            == Some("text"@),
{
    lemma_kind_names();
}

/// A conversation line whose message content is the string `t` is read as
/// a text event whose preview is the first 200 characters of `t`.
pub proof fn law_text_content_preview(line: Seq<char>, o: Json, msg: Json, t: Seq<char>)
    requires
        conversation_line(line, o, msg),
        msg.get("content"@) == Some(Json::Str(t)),
    ensures
        line_outcome(line) matches Ok((ev, _)) && ev.text_preview == Some(take_chars(t, 200)) && ev.content_kind
            == Some("text"@),
{
    lemma_kind_names();
}

/// A conversation line whose first content block is a tool call is read as
/// that call: the tool's name and the call's id.
pub proof fn law_tool_use_block(line: Seq<char>, o: Json, msg: Json, blocks: Seq<Json>)
    requires
        conversation_line(line, o, msg),
        msg.get("content"@) == Some(Json::Array(blocks)),
        blocks.len() > 0,
        str_member(blocks[0], "type"@) == Some("tool_use"@),
    ensures
        line_outcome(line) matches Ok((ev, _)) && ev.content_kind == Some("tool_use"@) && ev.tool_name
            == str_member(blocks[0], "name"@) && ev.tool_use_id == str_member(blocks[0], "id"@),
{
    lemma_kind_names();
}

/// A token count of a message's usage as a line gives it: the count where
/// it is positive, else none; the session facts count it, or nothing.
pub open spec fn usage_count_read(u: Json, key: Seq<char>, ev_count: Option<i64>, delta: int) -> bool {
    match i64_member(u, key) {
        Some(n) => if n > 0 {
            ev_count == Some(n) && delta == n
        } else {
            ev_count is None && delta == 0
        },
        None => ev_count is None && delta == 0,
    }
}

/// The usage of a conversation line's message gives its token counts: the
/// input tokens as input, the output tokens as output, and the two cache
/// counts each as itself, both on the event and in the session facts.
pub proof fn law_usage_tokens(line: Seq<char>, o: Json, msg: Json, u: Json)
    requires
        conversation_line(line, o, msg),
        msg.get("usage"@) == Some(u),
        u.is_object(),
    ensures
        line_outcome(line) matches Ok((ev, m)) && {
            &&& usage_count_read(u, "input_tokens"@, ev.input_tokens, m.input_tokens_delta)
            &&& usage_count_read(u, "output_tokens"@, ev.output_tokens, m.output_tokens_delta)
            &&& usage_count_read(u, "cache_creation_input_tokens"@, ev.cache_creation_tokens, m.cache_creation_delta)
            &&& usage_count_read(u, "cache_read_input_tokens"@, ev.cache_read_tokens, m.cache_read_delta)
        },
{
    lemma_kind_names();
}

/// A line of type `ai-title` gives the session its title, and one of type
/// `summary` its summary.
pub proof fn law_title_and_summary_lines(line: Seq<char>, o: Json)
    requires
        json_parse_result(line) == Some(o),
        o.is_object(),
    ensures
        str_member(o, "type"@) == Some("ai-title"@) ==> (line_outcome(line) matches Ok((_, m)) && m.ai_title
            == str_member(o, "aiTitle"@)),
        str_member(o, "type"@) == Some("summary"@) ==> (line_outcome(line) matches Ok((_, m)) && m.summary
            == str_member(o, "summary"@)),
{
    lemma_kind_names();
}

/// Merging session facts: the identity facts (id, directory, project,
/// start, version, branch) keep what `dst` knows and take `src`'s only
/// where `dst` has none; the changing ones (title, summary, model,
/// permission mode) take what `src` says and keep `dst`'s only where `src`
/// says nothing; the last event time is the later of the two; every
/// counter is the sum of the two.
pub proof fn law_merged_facts(dst: MetaView, src: MetaView)
    ensures
        ({
            let m = merged(dst, src);
            &&& m.session_id == (if dst.session_id is Some { dst.session_id } else { src.session_id })
            &&& m.cwd == (if dst.cwd is Some { dst.cwd } else { src.cwd })
            &&& m.project_name == (if dst.project_name is Some { dst.project_name } else { src.project_name })
            &&& m.started_at == (if dst.started_at is Some { dst.started_at } else { src.started_at })
            &&& m.cli_version == (if dst.cli_version is Some { dst.cli_version } else { src.cli_version })
            &&& m.git_branch == (if dst.git_branch is Some { dst.git_branch } else { src.git_branch })
            &&& m.ai_title == (if src.ai_title is Some { src.ai_title } else { dst.ai_title })
            &&& m.summary == (if src.summary is Some { src.summary } else { dst.summary })
            &&& m.model == (if src.model is Some { src.model } else { dst.model })
            &&& m.permission_mode == (if src.permission_mode is Some { src.permission_mode } else { dst.permission_mode })
            &&& (m.last_event_at is Some <==> (dst.last_event_at is Some || src.last_event_at is Some))
            &&& (dst.last_event_at matches Some(x) ==> m.last_event_at->Some_0 >= x)
            &&& (src.last_event_at matches Some(y) ==> m.last_event_at->Some_0 >= y)
            &&& (m.last_event_at is Some ==> m.last_event_at == dst.last_event_at || m.last_event_at == src.last_event_at)
            &&& m.input_tokens_delta == dst.input_tokens_delta + src.input_tokens_delta
            &&& m.output_tokens_delta == dst.output_tokens_delta + src.output_tokens_delta
            &&& m.cache_creation_delta == dst.cache_creation_delta + src.cache_creation_delta
            &&& m.cache_read_delta == dst.cache_read_delta + src.cache_read_delta
            &&& m.event_count == dst.event_count + src.event_count
            &&& m.hook_success_delta == dst.hook_success_delta + src.hook_success_delta
            &&& m.hook_error_delta == dst.hook_error_delta + src.hook_error_delta
        }),
{
}

} // verus!
