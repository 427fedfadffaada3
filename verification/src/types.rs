use vstd::prelude::*;

use crate::json::JsonValue;

verus! {

/// The characters of an optional string.
pub open spec fn opt_chars(s: Option<String>) -> Option<Seq<char>> {
    match s {
        Some(t) => Some(t@),
        None => None,
    }
}

/// Which table of the transcript an event belongs to.
#[derive(Debug, Clone, Copy, PartialEq, Eq, Structural)]
pub enum EventCategory {
    Content,
    Meta,
    Attachment,
}

/// The name under which a category is stored.
pub open spec fn category_name(c: EventCategory) -> Seq<char> {
    match c {
        EventCategory::Content => "content"@,
        EventCategory::Meta => "meta"@,
        EventCategory::Attachment => "attachment"@,
    }
}

impl EventCategory {
    pub fn as_str(&self) -> (r: &'static str)
        ensures
            r@ == category_name(*self),
    {
        match self {
            EventCategory::Content => "content",
            EventCategory::Meta => "meta",
            EventCategory::Attachment => "attachment",
        }
    }
}

/// One transcript line, read and ready to be stored.
#[derive(Debug, Clone)]
pub struct ParsedEvent {
    /// The line's `uuid`, or `meta:` and the SHA-1 of the line.
    pub uuid: String,
    pub parent_uuid: Option<String>,
    pub event_type: String,
    pub category: EventCategory,
    pub role: Option<String>,
    pub timestamp_ms: Option<i64>,
    pub content_kind: Option<String>,
    pub tool_name: Option<String>,
    pub tool_use_id: Option<String>,
    pub stop_reason: Option<String>,
    pub duration_ms: Option<i64>,
    pub is_sidechain: bool,
    pub is_error: bool,
    pub attachment_kind: Option<String>,
    /// The line itself.
    pub content: String,
    /// The first 200 characters of the line's text, where it has one.
    pub text_preview: Option<String>,
    pub input_tokens: Option<i64>,
    pub output_tokens: Option<i64>,
    pub cache_creation_tokens: Option<i64>,
    pub cache_read_tokens: Option<i64>,
}

/// The mathematical view of a [`ParsedEvent`].
pub struct EventView {
    pub uuid: Seq<char>,
    pub parent_uuid: Option<Seq<char>>,
    pub event_type: Seq<char>,
    pub category: EventCategory,
    pub role: Option<Seq<char>>,
    pub timestamp_ms: Option<i64>,
    pub content_kind: Option<Seq<char>>,
    pub tool_name: Option<Seq<char>>,
    pub tool_use_id: Option<Seq<char>>,
    pub stop_reason: Option<Seq<char>>,
    pub duration_ms: Option<i64>,
    pub is_sidechain: bool,
    pub is_error: bool,
    pub attachment_kind: Option<Seq<char>>,
    pub content: Seq<char>,
    pub text_preview: Option<Seq<char>>,
    pub input_tokens: Option<i64>,
    pub output_tokens: Option<i64>,
    pub cache_creation_tokens: Option<i64>,
    pub cache_read_tokens: Option<i64>,
}

impl View for ParsedEvent {
    type V = EventView;

    open spec fn view(&self) -> EventView {
        EventView {
            uuid: self.uuid@,
            parent_uuid: opt_chars(self.parent_uuid),
            event_type: self.event_type@,
            category: self.category,
            role: opt_chars(self.role),
            timestamp_ms: self.timestamp_ms,
            content_kind: opt_chars(self.content_kind),
            tool_name: opt_chars(self.tool_name),
            tool_use_id: opt_chars(self.tool_use_id),
            stop_reason: opt_chars(self.stop_reason),
            duration_ms: self.duration_ms,
            is_sidechain: self.is_sidechain,
            is_error: self.is_error,
            attachment_kind: opt_chars(self.attachment_kind),
            content: self.content@,
            text_preview: opt_chars(self.text_preview),
            input_tokens: self.input_tokens,
            output_tokens: self.output_tokens,
            cache_creation_tokens: self.cache_creation_tokens,
            cache_read_tokens: self.cache_read_tokens,
        }
    }
}

/// Session-level facts gathered from transcript lines, to be merged into the
/// sessions table.
#[derive(Debug, Clone)]
pub struct SessionMeta {
    pub session_id: Option<String>,
    pub cwd: Option<String>,
    pub project_name: Option<String>,
    pub ai_title: Option<String>,
    pub summary: Option<String>,
    pub started_at: Option<i64>,
    pub last_event_at: Option<i64>,
    pub model: Option<String>,
    pub cli_version: Option<String>,
    pub git_branch: Option<String>,
    pub permission_mode: Option<String>,
    pub input_tokens_delta: i64,
    pub output_tokens_delta: i64,
    pub cache_creation_delta: i64,
    pub cache_read_delta: i64,
    pub event_count: usize,
    pub hook_success_delta: i64,
    pub hook_error_delta: i64,
}

/// The mathematical view of a [`SessionMeta`]; counters are integers.
pub struct MetaView {
    pub session_id: Option<Seq<char>>,
    pub cwd: Option<Seq<char>>,
    pub project_name: Option<Seq<char>>,
    pub ai_title: Option<Seq<char>>,
    pub summary: Option<Seq<char>>,
    pub started_at: Option<i64>,
    pub last_event_at: Option<i64>,
    pub model: Option<Seq<char>>,
    pub cli_version: Option<Seq<char>>,
    pub git_branch: Option<Seq<char>>,
    pub permission_mode: Option<Seq<char>>,
    pub input_tokens_delta: int,
    pub output_tokens_delta: int,
    pub cache_creation_delta: int,
    pub cache_read_delta: int,
    pub event_count: int,
    pub hook_success_delta: int,
    pub hook_error_delta: int,
}

impl View for SessionMeta {
    type V = MetaView;

    open spec fn view(&self) -> MetaView {
        MetaView {
            session_id: opt_chars(self.session_id),
            cwd: opt_chars(self.cwd),
            project_name: opt_chars(self.project_name),
            ai_title: opt_chars(self.ai_title),
            summary: opt_chars(self.summary),
            started_at: self.started_at,
            last_event_at: self.last_event_at,
            model: opt_chars(self.model),
            cli_version: opt_chars(self.cli_version),
            git_branch: opt_chars(self.git_branch),
            permission_mode: opt_chars(self.permission_mode),
            input_tokens_delta: self.input_tokens_delta as int,
            output_tokens_delta: self.output_tokens_delta as int,
            cache_creation_delta: self.cache_creation_delta as int,
            cache_read_delta: self.cache_read_delta as int,
            event_count: self.event_count as int,
            hook_success_delta: self.hook_success_delta as int,
            hook_error_delta: self.hook_error_delta as int,
        }
    }
}

/// The session facts of no line at all.
pub open spec fn empty_meta() -> MetaView {
    MetaView {
        session_id: None,
        cwd: None,
        project_name: None,
        ai_title: None,
        summary: None,
        started_at: None,
        last_event_at: None,
        model: None,
        cli_version: None,
        git_branch: None,
        permission_mode: None,
        input_tokens_delta: 0,
        output_tokens_delta: 0,
        cache_creation_delta: 0,
        cache_read_delta: 0,
        event_count: 0,
        hook_success_delta: 0,
        hook_error_delta: 0,
    }
}

impl Default for SessionMeta {
    fn default() -> (r: SessionMeta)
        ensures
            r@ == empty_meta(),
    {
        SessionMeta {
            session_id: None,
            cwd: None,
            project_name: None,
            ai_title: None,
            summary: None,
            started_at: None,
            last_event_at: None,
            model: None,
            cli_version: None,
            git_branch: None,
            permission_mode: None,
            input_tokens_delta: 0,
            output_tokens_delta: 0,
            cache_creation_delta: 0,
            cache_read_delta: 0,
            event_count: 0,
            hook_success_delta: 0,
            hook_error_delta: 0,
        }
    }
}

/// What a hook of the coding assistant posts.  Members other than the named ones are
/// kept, in order, in `extra`.
#[derive(Debug)]
pub struct HookPayload {
    pub session_id: Option<String>,
    pub transcript_path: Option<String>,
    pub cwd: Option<String>,
    pub permission_mode: Option<String>,
    pub hook_event_name: Option<String>,
    pub prompt: Option<String>,
    pub reason: Option<String>,
    pub stop_reason: Option<String>,
    pub extra: Vec<(String, JsonValue)>,
}

/// The answer given to every hook: `continue` and `suppressOutput`.
#[derive(Debug, Clone, Copy, PartialEq, Eq, Structural)]
pub struct HookResponse {
    /// Sent as `continue`.
    pub proceed: bool,
    /// Sent as `suppressOutput`.
    pub suppress_output: bool,
}

impl Default for HookResponse {
    fn default() -> (r: HookResponse)
        ensures
            r.proceed,
            r.suppress_output,
    {
        HookResponse { proceed: true, suppress_output: true }
    }
}

/// A message broadcast to the user interface.
#[derive(Debug, Clone)]
pub enum WsMessage {
    /// A session row changed: the list should be read again.
    SessionUpsert { session_id: String },
    /// A batch of events was stored for a session.
    EventBatch { session_id: String, inserted: usize },
}

} // verus!
