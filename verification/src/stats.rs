use vstd::prelude::*;

use crate::clock::{
    earlier, instant_lt, instant_max, instant_min, later, minutes_between, minutes_between_of, utc_instant,
    utc_instant_of,
};
use crate::counter::{bumped, count_in, lemma_bumped_total, lemma_count_le_total, tally_total, Counter};
use crate::json::{
    bool_member, json_parse_result, parse_json, str_eq, str_member, u64_member, Json, JsonValue,
};
use crate::parser::type_of;
use crate::types::opt_chars;

verus! {

/// Which tally of [`Stats`] a key is counted in.
#[derive(Debug, Clone, Copy, PartialEq, Eq, Structural)]
pub enum StatKey {
    Types,
    ContentKinds,
    Tools,
    ToolErrors,
    Models,
    GitBranches,
    Versions,
    PermissionModes,
    AttachmentKinds,
    UnknownTopKeys,
}

/// Which token total of [`Stats`] an amount is added to.
#[derive(Debug, Clone, Copy, PartialEq, Eq, Structural)]
pub enum TokenKind {
    Input,
    Output,
    CacheCreation,
    CacheRead,
}

/// One step of taking a line into the statistics.
#[derive(Debug)]
pub enum StatOp {
    /// One more line read.
    CountLine,
    /// One more line that could not be read.
    CountError,
    /// One more occurrence of a key in a tally.
    Bump(StatKey, String),
    /// Tokens added to a total.
    AddTokens(TokenKind, u64),
    /// One more side-chain event.
    CountSidechain,
    /// The session id, unless one is known.
    NoteSession(String),
    /// The working directory, unless one is known.
    NoteCwd(String),
    /// An event time (whole seconds and nanoseconds).
    NoteTime(i64, u32),
    /// The latest AI title.
    SetTitle(String),
    /// The latest summary.
    SetSummary(String),
}

pub enum OpView {
    CountLine,
    CountError,
    Bump(StatKey, Seq<char>),
    AddTokens(TokenKind, u64),
    CountSidechain,
    NoteSession(Seq<char>),
    NoteCwd(Seq<char>),
    NoteTime((i64, u32)),
    SetTitle(Seq<char>),
    SetSummary(Seq<char>),
}

impl View for StatOp {
    type V = OpView;

    open spec fn view(&self) -> OpView {
        match self {
            StatOp::CountLine => OpView::CountLine,
            StatOp::CountError => OpView::CountError,
            StatOp::Bump(k, s) => OpView::Bump(*k, s@),
            StatOp::AddTokens(k, n) => OpView::AddTokens(*k, *n),
            StatOp::CountSidechain => OpView::CountSidechain,
            StatOp::NoteSession(s) => OpView::NoteSession(s@),
            StatOp::NoteCwd(s) => OpView::NoteCwd(s@),
            StatOp::NoteTime(a, b) => OpView::NoteTime((*a, *b)),
            StatOp::SetTitle(s) => OpView::SetTitle(s@),
            StatOp::SetSummary(s) => OpView::SetSummary(s@),
        }
    }
}

pub open spec fn ops_view(ops: Seq<StatOp>) -> Seq<OpView> {
    ops.map_values(|o: StatOp| o@)
}

// ---------------------------------------------------------------------------
// Which steps a line stands for
// ---------------------------------------------------------------------------

/// The top-level member names that the transcript format is known to use.
pub open spec fn is_known_key(k: Seq<char>) -> bool {
    ||| k == "type"@ ||| k == "uuid"@ ||| k == "parentUuid"@ ||| k == "timestamp"@
    ||| k == "sessionId"@ ||| k == "cwd"@ ||| k == "version"@ ||| k == "gitBranch"@
    ||| k == "userType"@ ||| k == "isSidechain"@ ||| k == "message"@ ||| k == "requestId"@
    ||| k == "entrypoint"@ ||| k == "promptId"@ ||| k == "permissionMode"@
    ||| k == "toolUseResult"@ ||| k == "sourceToolAssistantUUID"@ ||| k == "aiTitle"@
    ||| k == "leafUuid"@ ||| k == "summary"@ ||| k == "attachment"@
    ||| k == "isSnapshotUpdate"@ ||| k == "messageId"@ ||| k == "snapshot"@
    ||| k == "isCompactSummary"@ ||| k == "isVisibleInTranscriptOnly"@
}

pub fn known_key(k: &str) -> (r: bool)
    ensures
        r == is_known_key(k@),
{
    str_eq(k, "type") || str_eq(k, "uuid") || str_eq(k, "parentUuid") || str_eq(k, "timestamp")
        || str_eq(k, "sessionId") || str_eq(k, "cwd") || str_eq(k, "version") || str_eq(
        k,
        "gitBranch",
    ) || str_eq(k, "userType") || str_eq(k, "isSidechain") || str_eq(k, "message") || str_eq(
        k,
        "requestId",
    ) || str_eq(k, "entrypoint") || str_eq(k, "promptId") || str_eq(k, "permissionMode")
        || str_eq(k, "toolUseResult") || str_eq(k, "sourceToolAssistantUUID") || str_eq(
        k,
        "aiTitle",
    ) || str_eq(k, "leafUuid") || str_eq(k, "summary") || str_eq(k, "attachment") || str_eq(
        k,
        "isSnapshotUpdate",
    ) || str_eq(k, "messageId") || str_eq(k, "snapshot") || str_eq(k, "isCompactSummary")
        || str_eq(k, "isVisibleInTranscriptOnly")
}

/// Member names that are not known, each counted once, in member order.
pub open spec fn unknown_key_ops(members: Seq<(Seq<char>, Json)>) -> Seq<OpView>
    decreases members.len(),
{
    if members.len() == 0 {
        Seq::empty()
    } else {
        unknown_key_ops(members.drop_last()) + if is_known_key(members.last().0) {
            Seq::empty()
        } else {
            seq![OpView::Bump(StatKey::UnknownTopKeys, members.last().0)]
        }
    }
}

/// A step for a member that may be missing.
pub open spec fn opt_op(s: Option<Seq<char>>, f: spec_fn(Seq<char>) -> OpView) -> Seq<OpView> {
    match s {
        Some(t) => seq![f(t)],
        None => Seq::empty(),
    }
}

/// The tally steps of one content block.
pub open spec fn block_ops(b: Json) -> Seq<OpView> {
    let kind = match str_member(b, "type"@) {
        Some(k) => k,
        None => "unknown"@,
    };
    seq![OpView::Bump(StatKey::ContentKinds, kind)] + if kind == "tool_use"@ {
        opt_op(str_member(b, "name"@), |n: Seq<char>| OpView::Bump(StatKey::Tools, n))
    } else if kind == "tool_result"@ && bool_member(b, "is_error"@) == Some(true) {
        seq![OpView::Bump(StatKey::ToolErrors, "(unnamed)"@)]
    } else {
        Seq::empty()
    }
}

pub open spec fn blocks_ops(blocks: Seq<Json>) -> Seq<OpView>
    decreases blocks.len(),
{
    if blocks.len() == 0 {
        Seq::empty()
    } else {
        blocks_ops(blocks.drop_last()) + block_ops(blocks.last())
    }
}

/// The tally steps of a message's content.
pub open spec fn content_ops(msg: Json) -> Seq<OpView> {
    match msg.get("content"@) {
        Some(Json::Array(blocks)) => blocks_ops(blocks),
        Some(Json::Str(_)) => seq![OpView::Bump(StatKey::ContentKinds, "text"@)],
        _ => Seq::empty(),
    }
}

pub open spec fn tokens_of(u: Json, key: Seq<char>) -> u64 {
    match u64_member(u, key) {
        Some(n) => n,
        None => 0,
    }
}

/// The steps of the `message` of a user or assistant line.
pub open spec fn message_ops(msg: Json) -> Seq<OpView> {
    opt_op(str_member(msg, "model"@), |m: Seq<char>| OpView::Bump(StatKey::Models, m)) + match msg.get(
        "usage"@,
    ) {
        Some(u) => if u.is_object() {
            seq![
                OpView::AddTokens(TokenKind::Input, tokens_of(u, "input_tokens"@)),
                OpView::AddTokens(TokenKind::Output, tokens_of(u, "output_tokens"@)),
                OpView::AddTokens(TokenKind::CacheCreation, tokens_of(u, "cache_creation_input_tokens"@)),
                OpView::AddTokens(TokenKind::CacheRead, tokens_of(u, "cache_read_input_tokens"@)),
            ]
        } else {
            Seq::empty()
        },
        None => Seq::empty(),
    } + content_ops(msg)
}

/// The steps that depend on a line's type.
pub open spec fn kind_ops(ty: Seq<char>, o: Json) -> Seq<OpView> {
    if ty == "ai-title"@ {
        opt_op(str_member(o, "aiTitle"@), |t: Seq<char>| OpView::SetTitle(t))
    } else if ty == "summary"@ {
        opt_op(str_member(o, "summary"@), |t: Seq<char>| OpView::SetSummary(t))
    } else if ty == "permission-mode"@ {
        opt_op(
            str_member(o, "permissionMode"@),
            |m: Seq<char>| OpView::Bump(StatKey::PermissionModes, m),
        )
    } else if ty == "attachment"@ {
        match o.get("attachment"@) {
            Some(a) => if a.is_object() {
                seq![
                    OpView::Bump(
                        StatKey::AttachmentKinds,
                        match str_member(a, "type"@) {
                            Some(k) => k,
                            None => "?"@,
                        },
                    ),
                ]
            } else {
                Seq::empty()
            },
            None => Seq::empty(),
        }
    } else if ty == "assistant"@ || ty == "user"@ {
        match o.get("message"@) {
            Some(msg) => message_ops(msg),
            None => Seq::empty(),
        }
    } else {
        Seq::empty()
    }
}

pub open spec fn members_of(o: Json) -> Seq<(Seq<char>, Json)> {
    match o {
        Json::Object(m) => m,
        _ => Seq::empty(),
    }
}

pub open spec fn time_op(o: Json) -> Seq<OpView> {
    match str_member(o, "timestamp"@) {
        Some(t) => match utc_instant_of(t) {
            Some(i) => seq![OpView::NoteTime(i)],
            None => Seq::empty(),
        },
        None => Seq::empty(),
    }
}

pub open spec fn branch_op(o: Json) -> Seq<OpView> {
    match str_member(o, "gitBranch"@) {
        Some(b) => if b.len() > 0 {
            seq![OpView::Bump(StatKey::GitBranches, b)]
        } else {
            Seq::empty()
        },
        None => Seq::empty(),
    }
}

pub open spec fn sidechain_op(o: Json) -> Seq<OpView> {
    if bool_member(o, "isSidechain"@) == Some(true) {
        seq![OpView::CountSidechain]
    } else {
        Seq::empty()
    }
}

/// The steps that every object line takes first: unknown member names, the
/// type, session id, directory and time.
pub open spec fn note_ops(o: Json) -> Seq<OpView> {
    unknown_key_ops(members_of(o)) + seq![OpView::Bump(StatKey::Types, type_of(o))] + opt_op(
        str_member(o, "sessionId"@),
        |s: Seq<char>| OpView::NoteSession(s),
    ) + opt_op(str_member(o, "cwd"@), |s: Seq<char>| OpView::NoteCwd(s)) + time_op(o)
}

/// The steps that follow: branch, version, side chain and the type-specific
/// ones.
pub open spec fn detail_ops(o: Json) -> Seq<OpView> {
    branch_op(o) + opt_op(
        str_member(o, "version"@),
        |v: Seq<char>| OpView::Bump(StatKey::Versions, v),
    ) + sidechain_op(o) + kind_ops(type_of(o), o)
}

/// The steps an object line stands for, in the order they are taken.
pub open spec fn object_ops(o: Json) -> Seq<OpView> {
    note_ops(o) + detail_ops(o)
}

// ---------------------------------------------------------------------------
// Collecting the steps
// ---------------------------------------------------------------------------

fn push_op(ops: &mut Vec<StatOp>, op: StatOp)
    ensures
        ops_view(final(ops)@) == ops_view(old(ops)@).push(op@),
{
    ops.push(op);
    assert(ops_view(ops@) =~= ops_view(old(ops)@).push(op@));
}

fn push_unknown_keys(o: &JsonValue, ops: &mut Vec<StatOp>)
    ensures
        ops_view(final(ops)@) == ops_view(old(ops)@) + unknown_key_ops(members_of(o@)),
{
    match o {
        JsonValue::Object(members) => {
            let ghost mv = o@->Object_0;
            assert(members_of(o@) == mv);
            assert(mv.take(0) =~= Seq::<(Seq<char>, Json)>::empty());
            let mut i: usize = 0;
            while i < members.len()
                invariant
                    i <= members@.len(),
                    mv.len() == members@.len(),
                    forall|j: int| 0 <= j < members@.len() ==> #[trigger] mv[j] == (members@[j].0@, members@[j].1@),
                    ops_view(ops@) == ops_view(old(ops)@) + unknown_key_ops(mv.take(i as int)),
                decreases members.len() - i,
            {
                assert(mv[i as int] == (members@[i as int].0@, members@[i as int].1@));
                let ghost before = ops_view(ops@);
                assert(mv.take(i + 1).drop_last() =~= mv.take(i as int));
                let k = members[i].0.as_str();
                if !known_key(k) {
                    push_op(ops, StatOp::Bump(StatKey::UnknownTopKeys, k.to_owned()));
                    assert(ops_view(ops@) =~= ops_view(old(ops)@) + unknown_key_ops(mv.take(i + 1)));
                } else {
                    assert(ops_view(ops@) =~= ops_view(old(ops)@) + unknown_key_ops(mv.take(i + 1)));
                }
                i = i + 1;
            }
            assert(mv.take(i as int) =~= mv);
        },
        _ => {
            assert(ops_view(ops@) =~= ops_view(old(ops)@) + unknown_key_ops(members_of(o@)));
        },
    }
}

fn push_block(b: &JsonValue, ops: &mut Vec<StatOp>)
    ensures
        ops_view(final(ops)@) == ops_view(old(ops)@) + block_ops(b@),
{
    let kind = match b.str_member("type") {
        Some(k) => k,
        None => "unknown",
    };
    push_op(ops, StatOp::Bump(StatKey::ContentKinds, kind.to_owned()));
    if str_eq(kind, "tool_use") {
        match b.str_member("name") {
            Some(n) => {
                push_op(ops, StatOp::Bump(StatKey::Tools, n.to_owned()));
            },
            None => {},
        }
    } else if str_eq(kind, "tool_result") {
        if b.bool_member("is_error") == Some(true) {
            push_op(ops, StatOp::Bump(StatKey::ToolErrors, "(unnamed)".to_owned()));
        }
    }
    assert(ops_view(ops@) =~= ops_view(old(ops)@) + block_ops(b@));
}

fn push_content(msg: &JsonValue, ops: &mut Vec<StatOp>)
    ensures
        ops_view(final(ops)@) == ops_view(old(ops)@) + content_ops(msg@),
{
    match msg.get("content") {
        Some(c) => match c {
            JsonValue::Array(blocks) => {
                let ghost bv = c@->Array_0;
                assert(bv.take(0) =~= Seq::<Json>::empty());
                assert(ops_view(ops@) =~= ops_view(old(ops)@) + blocks_ops(bv.take(0)));
                let mut i: usize = 0;
                while i < blocks.len()
                    invariant
                        i <= blocks@.len(),
                        bv.len() == blocks@.len(),
                        forall|j: int| 0 <= j < blocks@.len() ==> #[trigger] bv[j] == blocks@[j]@,
                        ops_view(ops@) == ops_view(old(ops)@) + blocks_ops(bv.take(i as int)),
                    decreases blocks.len() - i,
                {
                    assert(bv[i as int] == blocks@[i as int]@);
                    assert(bv.take(i + 1).drop_last() =~= bv.take(i as int));
                    push_block(&blocks[i], ops);
                    assert(ops_view(ops@) =~= ops_view(old(ops)@) + blocks_ops(bv.take(i + 1)));
                    i = i + 1;
                }
                assert(bv.take(i as int) =~= bv);
            },
            JsonValue::Str(_) => {
                push_op(ops, StatOp::Bump(StatKey::ContentKinds, "text".to_owned()));
                assert(ops_view(ops@) =~= ops_view(old(ops)@) + content_ops(msg@));
            },
            _ => {
                assert(ops_view(ops@) =~= ops_view(old(ops)@) + content_ops(msg@));
            },
        },
        None => {
            assert(ops_view(ops@) =~= ops_view(old(ops)@) + content_ops(msg@));
        },
    }
}

fn token_amount(u: &JsonValue, key: &str) -> (r: u64)
    ensures
        r == tokens_of(u@, key@),
{
    match u.u64_member(key) {
        Some(n) => n,
        None => 0,
    }
}

fn push_message(msg: &JsonValue, ops: &mut Vec<StatOp>)
    ensures
        ops_view(final(ops)@) == ops_view(old(ops)@) + message_ops(msg@),
{
    let ghost start = ops_view(ops@);
    match msg.str_member("model") {
        Some(m) => {
            push_op(ops, StatOp::Bump(StatKey::Models, m.to_owned()));
        },
        None => {},
    }
    let ghost after_model = ops_view(ops@);
    match msg.get("usage") {
        Some(u) => {
            if u.is_object() {
                push_op(ops, StatOp::AddTokens(TokenKind::Input, token_amount(u, "input_tokens")));
                push_op(ops, StatOp::AddTokens(TokenKind::Output, token_amount(u, "output_tokens")));
                push_op(
                    ops,
                    StatOp::AddTokens(
                        TokenKind::CacheCreation,
                        token_amount(u, "cache_creation_input_tokens"),
                    ),
                );
                push_op(
                    ops,
                    StatOp::AddTokens(TokenKind::CacheRead, token_amount(u, "cache_read_input_tokens")),
                );
            }
        },
        None => {},
    }
    let ghost after_usage = ops_view(ops@);
    push_content(msg, ops);
    assert(ops_view(ops@) =~= ops_view(old(ops)@) + message_ops(msg@));
}

fn push_kind(ty: &str, o: &JsonValue, ops: &mut Vec<StatOp>)
    ensures
        ops_view(final(ops)@) == ops_view(old(ops)@) + kind_ops(ty@, o@),
{
    if str_eq(ty, "ai-title") {
        match o.str_member("aiTitle") {
            Some(t) => push_op(ops, StatOp::SetTitle(t.to_owned())),
            None => {},
        }
        assert(ops_view(ops@) =~= ops_view(old(ops)@) + kind_ops(ty@, o@));
    } else if str_eq(ty, "summary") {
        match o.str_member("summary") {
            Some(t) => push_op(ops, StatOp::SetSummary(t.to_owned())),
            None => {},
        }
        assert(ops_view(ops@) =~= ops_view(old(ops)@) + kind_ops(ty@, o@));
    } else if str_eq(ty, "permission-mode") {
        match o.str_member("permissionMode") {
            Some(m) => push_op(ops, StatOp::Bump(StatKey::PermissionModes, m.to_owned())),
            None => {},
        }
        assert(ops_view(ops@) =~= ops_view(old(ops)@) + kind_ops(ty@, o@));
    } else if str_eq(ty, "attachment") {
        match o.get("attachment") {
            Some(a) => {
                if a.is_object() {
                    let k = match a.str_member("type") {
                        Some(k) => k,
                        None => "?",
                    };
                    push_op(ops, StatOp::Bump(StatKey::AttachmentKinds, k.to_owned()));
                }
            },
            None => {},
        }
        assert(ops_view(ops@) =~= ops_view(old(ops)@) + kind_ops(ty@, o@));
    } else if str_eq(ty, "assistant") || str_eq(ty, "user") {
        match o.get("message") {
            Some(msg) => push_message(msg, ops),
            None => {},
        }
        assert(ops_view(ops@) =~= ops_view(old(ops)@) + kind_ops(ty@, o@));
    } else {
        assert(ops_view(ops@) =~= ops_view(old(ops)@) + kind_ops(ty@, o@));
    }
}

fn push_notes(o: &JsonValue, ops: &mut Vec<StatOp>)
    ensures
        ops_view(final(ops)@) == ops_view(old(ops)@) + note_ops(o@),
{
    let ghost s0 = ops_view(ops@);
    push_unknown_keys(o, ops);
    let ty = match o.str_member("type") {
        Some(t) => t,
        None => "(no-type)",
    };
    push_op(ops, StatOp::Bump(StatKey::Types, ty.to_owned()));
    let ghost s2 = ops_view(ops@);
    match o.str_member("sessionId") {
        Some(v) => push_op(ops, StatOp::NoteSession(v.to_owned())),
        None => {},
    }
    let ghost s3 = ops_view(ops@);
    assert(s3 =~= s2 + opt_op(str_member(o@, "sessionId"@), |s: Seq<char>| OpView::NoteSession(s)));
    match o.str_member("cwd") {
        Some(v) => push_op(ops, StatOp::NoteCwd(v.to_owned())),
        None => {},
    }
    let ghost s4 = ops_view(ops@);
    assert(s4 =~= s3 + opt_op(str_member(o@, "cwd"@), |s: Seq<char>| OpView::NoteCwd(s)));
    match o.str_member("timestamp") {
        Some(t) => match utc_instant(t) {
            Some(i) => push_op(ops, StatOp::NoteTime(i.0, i.1)),
            None => {},
        },
        None => {},
    }
    assert(ops_view(ops@) =~= s4 + time_op(o@));
    assert(ops_view(ops@) =~= s0 + note_ops(o@));
}

fn push_details(o: &JsonValue, ops: &mut Vec<StatOp>)
    ensures
        ops_view(final(ops)@) == ops_view(old(ops)@) + detail_ops(o@),
{
    let ghost s0 = ops_view(ops@);
    match o.str_member("gitBranch") {
        Some(b) => {
            if !crate::text::is_empty_str(b) {
                push_op(ops, StatOp::Bump(StatKey::GitBranches, b.to_owned()));
            }
        },
        None => {},
    }
    let ghost s1 = ops_view(ops@);
    assert(s1 =~= s0 + branch_op(o@));
    match o.str_member("version") {
        Some(v) => push_op(ops, StatOp::Bump(StatKey::Versions, v.to_owned())),
        None => {},
    }
    let ghost s2 = ops_view(ops@);
    assert(s2 =~= s1 + opt_op(str_member(o@, "version"@), |v: Seq<char>| OpView::Bump(StatKey::Versions, v)));
    if o.bool_member("isSidechain") == Some(true) {
        push_op(ops, StatOp::CountSidechain);
    }
    let ghost s3 = ops_view(ops@);
    assert(s3 =~= s2 + sidechain_op(o@));
    let ty = match o.str_member("type") {
        Some(t) => t,
        None => "(no-type)",
    };
    push_kind(ty, o, ops);
    assert(ops_view(ops@) =~= s0 + detail_ops(o@));
}

/// The steps that an object line stands for (see [`object_ops`]).
pub fn collect_object_ops(o: &JsonValue) -> (r: Vec<StatOp>)
    ensures
        ops_view(r@) == object_ops(o@),
{
    let mut ops: Vec<StatOp> = Vec::new();
    assert(ops_view(ops@) =~= Seq::<OpView>::empty());
    push_notes(o, &mut ops);
    push_details(o, &mut ops);
    assert(ops_view(ops@) =~= object_ops(o@));
    ops
}


// ---------------------------------------------------------------------------
// The statistics and taking the steps
// ---------------------------------------------------------------------------

/// Statistics over the lines of a transcript, for the command-line report.
pub struct Stats {
    pub total_lines: usize,
    pub parse_errors: usize,
    pub types: Counter,
    pub content_kinds: Counter,
    pub tools: Counter,
    pub tool_errors: Counter,
    pub models: Counter,
    pub git_branches: Counter,
    pub versions: Counter,
    pub permission_modes: Counter,
    pub attachment_kinds: Counter,
    pub input_tokens: u64,
    pub output_tokens: u64,
    pub cache_creation_tokens: u64,
    pub cache_read_tokens: u64,
    pub sidechain_events: usize,
    /// The earliest event time: whole Unix seconds and nanoseconds.
    pub first_ts: Option<(i64, u32)>,
    /// The latest event time: whole Unix seconds and nanoseconds.
    pub last_ts: Option<(i64, u32)>,
    pub session_id: Option<String>,
    pub cwd: Option<String>,
    pub ai_title: Option<String>,
    pub summary: Option<String>,
    pub unknown_top_keys: Counter,
}

pub type Tally = Seq<(Seq<char>, nat)>;

pub struct StatsView {
    pub total_lines: int,
    pub parse_errors: int,
    pub types: Tally,
    pub content_kinds: Tally,
    pub tools: Tally,
    pub tool_errors: Tally,
    pub models: Tally,
    pub git_branches: Tally,
    pub versions: Tally,
    pub permission_modes: Tally,
    pub attachment_kinds: Tally,
    pub input_tokens: int,
    pub output_tokens: int,
    pub cache_creation_tokens: int,
    pub cache_read_tokens: int,
    pub sidechain_events: int,
    pub first_ts: Option<(i64, u32)>,
    pub last_ts: Option<(i64, u32)>,
    pub session_id: Option<Seq<char>>,
    pub cwd: Option<Seq<char>>,
    pub ai_title: Option<Seq<char>>,
    pub summary: Option<Seq<char>>,
    pub unknown_top_keys: Tally,
}

impl View for Stats {
    type V = StatsView;

    open spec fn view(&self) -> StatsView {
        StatsView {
            total_lines: self.total_lines as int,
            parse_errors: self.parse_errors as int,
            types: self.types.counts(),
            content_kinds: self.content_kinds.counts(),
            tools: self.tools.counts(),
            tool_errors: self.tool_errors.counts(),
            models: self.models.counts(),
            git_branches: self.git_branches.counts(),
            versions: self.versions.counts(),
            permission_modes: self.permission_modes.counts(),
            attachment_kinds: self.attachment_kinds.counts(),
            input_tokens: self.input_tokens as int,
            output_tokens: self.output_tokens as int,
            cache_creation_tokens: self.cache_creation_tokens as int,
            cache_read_tokens: self.cache_read_tokens as int,
            sidechain_events: self.sidechain_events as int,
            first_ts: self.first_ts,
            last_ts: self.last_ts,
            session_id: opt_chars(self.session_id),
            cwd: opt_chars(self.cwd),
            ai_title: opt_chars(self.ai_title),
            summary: opt_chars(self.summary),
            unknown_top_keys: self.unknown_top_keys.counts(),
        }
    }
}

impl Stats {
    /// Every tally keeps its keys in order.
    pub open spec fn wf(&self) -> bool {
        &&& self.types.wf()
        &&& self.content_kinds.wf()
        &&& self.tools.wf()
        &&& self.tool_errors.wf()
        &&& self.models.wf()
        &&& self.git_branches.wf()
        &&& self.versions.wf()
        &&& self.permission_modes.wf()
        &&& self.attachment_kinds.wf()
        &&& self.unknown_top_keys.wf()
    }

    /// Statistics of no line.
    pub fn new() -> (r: Stats)
        ensures
            r.wf(),
            r@ == empty_stats(),
    {
        Stats {
            total_lines: 0,
            parse_errors: 0,
            types: Counter::new(),
            content_kinds: Counter::new(),
            tools: Counter::new(),
            tool_errors: Counter::new(),
            models: Counter::new(),
            git_branches: Counter::new(),
            versions: Counter::new(),
            permission_modes: Counter::new(),
            attachment_kinds: Counter::new(),
            input_tokens: 0,
            output_tokens: 0,
            cache_creation_tokens: 0,
            cache_read_tokens: 0,
            sidechain_events: 0,
            first_ts: None,
            last_ts: None,
            session_id: None,
            cwd: None,
            ai_title: None,
            summary: None,
            unknown_top_keys: Counter::new(),
        }
    }
}

pub open spec fn empty_stats() -> StatsView {
    StatsView {
        total_lines: 0,
        parse_errors: 0,
        types: Seq::empty(),
        content_kinds: Seq::empty(),
        tools: Seq::empty(),
        tool_errors: Seq::empty(),
        models: Seq::empty(),
        git_branches: Seq::empty(),
        versions: Seq::empty(),
        permission_modes: Seq::empty(),
        attachment_kinds: Seq::empty(),
        input_tokens: 0,
        output_tokens: 0,
        cache_creation_tokens: 0,
        cache_read_tokens: 0,
        sidechain_events: 0,
        first_ts: None,
        last_ts: None,
        session_id: None,
        cwd: None,
        ai_title: None,
        summary: None,
        unknown_top_keys: Seq::empty(),
    }
}

pub open spec fn tally(st: StatsView, k: StatKey) -> Tally {
    match k {
        StatKey::Types => st.types,
        StatKey::ContentKinds => st.content_kinds,
        StatKey::Tools => st.tools,
        StatKey::ToolErrors => st.tool_errors,
        StatKey::Models => st.models,
        StatKey::GitBranches => st.git_branches,
        StatKey::Versions => st.versions,
        StatKey::PermissionModes => st.permission_modes,
        StatKey::AttachmentKinds => st.attachment_kinds,
        StatKey::UnknownTopKeys => st.unknown_top_keys,
    }
}

pub open spec fn with_tally(st: StatsView, k: StatKey, t: Tally) -> StatsView {
    match k {
        StatKey::Types => StatsView { types: t, ..st },
        StatKey::ContentKinds => StatsView { content_kinds: t, ..st },
        StatKey::Tools => StatsView { tools: t, ..st },
        StatKey::ToolErrors => StatsView { tool_errors: t, ..st },
        StatKey::Models => StatsView { models: t, ..st },
        StatKey::GitBranches => StatsView { git_branches: t, ..st },
        StatKey::Versions => StatsView { versions: t, ..st },
        StatKey::PermissionModes => StatsView { permission_modes: t, ..st },
        StatKey::AttachmentKinds => StatsView { attachment_kinds: t, ..st },
        StatKey::UnknownTopKeys => StatsView { unknown_top_keys: t, ..st },
    }
}

pub open spec fn token_total(st: StatsView, k: TokenKind) -> int {
    match k {
        TokenKind::Input => st.input_tokens,
        TokenKind::Output => st.output_tokens,
        TokenKind::CacheCreation => st.cache_creation_tokens,
        TokenKind::CacheRead => st.cache_read_tokens,
    }
}

pub open spec fn with_tokens(st: StatsView, k: TokenKind, n: int) -> StatsView {
    match k {
        TokenKind::Input => StatsView { input_tokens: n, ..st },
        TokenKind::Output => StatsView { output_tokens: n, ..st },
        TokenKind::CacheCreation => StatsView { cache_creation_tokens: n, ..st },
        TokenKind::CacheRead => StatsView { cache_read_tokens: n, ..st },
    }
}

/// The statistics after one step.
pub open spec fn apply_op(st: StatsView, op: OpView) -> StatsView {
    match op {
        OpView::CountLine => StatsView { total_lines: st.total_lines + 1, ..st },
        OpView::CountError => StatsView { parse_errors: st.parse_errors + 1, ..st },
        OpView::Bump(k, key) => with_tally(st, k, bumped(tally(st, k), key)),
        OpView::AddTokens(k, n) => with_tokens(st, k, token_total(st, k) + n),
        OpView::CountSidechain => StatsView { sidechain_events: st.sidechain_events + 1, ..st },
        OpView::NoteSession(s) => StatsView {
            session_id: match st.session_id {
                Some(x) => Some(x),
                None => Some(s),
            },
            ..st
        },
        OpView::NoteCwd(s) => StatsView {
            cwd: match st.cwd {
                Some(x) => Some(x),
                None => Some(s),
            },
            ..st
        },
        OpView::NoteTime(t) => StatsView {
            first_ts: Some(
                match st.first_ts {
                    Some(x) => instant_min(x, t),
                    None => t,
                },
            ),
            last_ts: Some(
                match st.last_ts {
                    Some(x) => instant_max(x, t),
                    None => t,
                },
            ),
            ..st
        },
        OpView::SetTitle(s) => StatsView { ai_title: Some(s), ..st },
        OpView::SetSummary(s) => StatsView { summary: Some(s), ..st },
    }
}

/// Whether a step keeps its counter within its machine type.
pub open spec fn op_fits(st: StatsView, op: OpView) -> bool {
    match op {
        OpView::CountLine => st.total_lines + 1 <= usize::MAX,
        OpView::CountError => st.parse_errors + 1 <= usize::MAX,
        OpView::Bump(k, key) => count_in(tally(st, k), key) < usize::MAX,
        OpView::AddTokens(k, n) => token_total(st, k) + n <= u64::MAX,
        OpView::CountSidechain => st.sidechain_events + 1 <= usize::MAX,
        _ => true,
    }
}

/// The statistics after a run of steps, or `None` if a step would leave its
/// counter's machine type.
pub open spec fn run_ops(st: StatsView, ops: Seq<OpView>) -> Option<StatsView>
    decreases ops.len(),
{
    if ops.len() == 0 {
        Some(st)
    } else if op_fits(st, ops[0]) {
        run_ops(apply_op(st, ops[0]), ops.drop_first())
    } else {
        None
    }
}

impl Stats {
    fn count_of(&self, k: StatKey, key: &str) -> (r: usize)
        requires
            self.wf(),
        ensures
            r == count_in(tally(self@, k), key@),
    {
        match k {
            StatKey::Types => self.types.get(key),
            StatKey::ContentKinds => self.content_kinds.get(key),
            StatKey::Tools => self.tools.get(key),
            StatKey::ToolErrors => self.tool_errors.get(key),
            StatKey::Models => self.models.get(key),
            StatKey::GitBranches => self.git_branches.get(key),
            StatKey::Versions => self.versions.get(key),
            StatKey::PermissionModes => self.permission_modes.get(key),
            StatKey::AttachmentKinds => self.attachment_kinds.get(key),
            StatKey::UnknownTopKeys => self.unknown_top_keys.get(key),
        }
    }

    fn bump(&mut self, k: StatKey, key: &str)
        requires
            old(self).wf(),
            count_in(tally(old(self)@, k), key@) < usize::MAX,
        ensures
            final(self).wf(),
            final(self)@ == with_tally(old(self)@, k, bumped(tally(old(self)@, k), key@)),
    {
        match k {
            StatKey::Types => self.types.bump(key),
            StatKey::ContentKinds => self.content_kinds.bump(key),
            StatKey::Tools => self.tools.bump(key),
            StatKey::ToolErrors => self.tool_errors.bump(key),
            StatKey::Models => self.models.bump(key),
            StatKey::GitBranches => self.git_branches.bump(key),
            StatKey::Versions => self.versions.bump(key),
            StatKey::PermissionModes => self.permission_modes.bump(key),
            StatKey::AttachmentKinds => self.attachment_kinds.bump(key),
            StatKey::UnknownTopKeys => self.unknown_top_keys.bump(key),
        }
    }

    fn token_field(&self, k: TokenKind) -> (r: u64)
        ensures
            r == token_total(self@, k),
    {
        match k {
            TokenKind::Input => self.input_tokens,
            TokenKind::Output => self.output_tokens,
            TokenKind::CacheCreation => self.cache_creation_tokens,
            TokenKind::CacheRead => self.cache_read_tokens,
        }
    }

    fn set_token_field(&mut self, k: TokenKind, n: u64)
        ensures
            final(self)@ == with_tokens(old(self)@, k, n as int),
            final(self).wf() == old(self).wf(),
    {
        match k {
            TokenKind::Input => self.input_tokens = n,
            TokenKind::Output => self.output_tokens = n,
            TokenKind::CacheCreation => self.cache_creation_tokens = n,
            TokenKind::CacheRead => self.cache_read_tokens = n,
        }
    }

    /// Takes one step; `false`, and nothing changed, where the step's
    /// counter would leave its machine type.
    pub fn apply(&mut self, op: &StatOp) -> (r: bool)
        requires
            old(self).wf(),
        ensures
            final(self).wf(),
            r == op_fits(old(self)@, op@),
            r ==> final(self)@ == apply_op(old(self)@, op@),
            !r ==> final(self)@ == old(self)@,
    {
        match op {
            StatOp::CountLine => {
                if self.total_lines == usize::MAX {
                    return false;
                }
                self.total_lines = self.total_lines + 1;
            },
            StatOp::CountError => {
                if self.parse_errors == usize::MAX {
                    return false;
                }
                self.parse_errors = self.parse_errors + 1;
            },
            StatOp::Bump(k, key) => {
                if self.count_of(*k, key.as_str()) == usize::MAX {
                    return false;
                }
                self.bump(*k, key.as_str());
            },
            StatOp::AddTokens(k, n) => {
                let cur = self.token_field(*k);
                if cur > u64::MAX - *n {
                    return false;
                }
                self.set_token_field(*k, cur + *n);
            },
            StatOp::CountSidechain => {
                if self.sidechain_events == usize::MAX {
                    return false;
                }
                self.sidechain_events = self.sidechain_events + 1;
            },
            StatOp::NoteSession(v) => {
                if self.session_id.is_none() {
                    self.session_id = Some(v.clone());
                }
            },
            StatOp::NoteCwd(v) => {
                if self.cwd.is_none() {
                    self.cwd = Some(v.clone());
                }
            },
            StatOp::NoteTime(a, b) => {
                let t = (*a, *b);
                self.first_ts = Some(
                    match self.first_ts {
                        Some(x) => earlier(x, t),
                        None => t,
                    },
                );
                self.last_ts = Some(
                    match self.last_ts {
                        Some(x) => later(x, t),
                        None => t,
                    },
                );
            },
            StatOp::SetTitle(v) => {
                self.ai_title = Some(v.clone());
            },
            StatOp::SetSummary(v) => {
                self.summary = Some(v.clone());
            },
        }
        true
    }

    /// Takes a run of steps in order; `false` at the first step whose
    /// counter would leave its machine type (see [`run_ops`]).
    pub fn apply_all(&mut self, ops: &Vec<StatOp>) -> (r: bool)
        requires
            old(self).wf(),
        ensures
            final(self).wf(),
            r == run_ops(old(self)@, ops_view(ops@)) is Some,
            r ==> final(self)@ == run_ops(old(self)@, ops_view(ops@))->Some_0,
    {
        let ghost all = ops_view(ops@);
        let mut i: usize = 0;
        assert(all.skip(0) =~= all);
        while i < ops.len()
            invariant
                i <= ops@.len(),
                all == ops_view(ops@),
                all.len() == ops@.len(),
                self.wf(),
                run_ops(old(self)@, all) == run_ops(self@, all.skip(i as int)),
            decreases ops.len() - i,
        {
            let ghost rest = all.skip(i as int);
            assert(rest[0] == ops@[i as int]@);
            assert(rest.drop_first() =~= all.skip(i + 1));
            if !self.apply(&ops[i]) {
                return false;
            }
            i = i + 1;
        }
        assert(all.skip(i as int).len() == 0);
        true
    }
}


// ---------------------------------------------------------------------------
// Taking lines into the statistics
// ---------------------------------------------------------------------------

/// The steps of one line as the transcript reader takes it: an error for
/// text that is not JSON, else one more line and, for an object, its steps.
pub open spec fn update_ops(line: Seq<char>) -> Seq<OpView> {
    match json_parse_result(line) {
        None => seq![OpView::CountError],
        Some(v) => seq![OpView::CountLine] + if v.is_object() {
            object_ops(v)
        } else {
            Seq::empty()
        },
    }
}

/// Takes one (trimmed) line into the statistics; `false` where a counter
/// would leave its machine type (see [`update_ops`]).
pub fn update_stats(stats: &mut Stats, line: &str) -> (r: bool)
    requires
        old(stats).wf(),
    ensures
        final(stats).wf(),
        r == run_ops(old(stats)@, update_ops(line@)) is Some,
        r ==> final(stats)@ == run_ops(old(stats)@, update_ops(line@))->Some_0,
{
    let ops = match parse_json(line) {
        None => {
            let mut ops: Vec<StatOp> = Vec::new();
            push_op(&mut ops, StatOp::CountError);
            assert(ops_view(ops@) =~= update_ops(line@));
            ops
        },
        Some(v) => {
            let mut ops: Vec<StatOp> = Vec::new();
            push_op(&mut ops, StatOp::CountLine);
            if v.is_object() {
                let mut rest = collect_object_ops(&v);
                let ghost before = ops_view(ops@);
                ops.append(&mut rest);
                assert(ops_view(ops@) =~= before + object_ops(v@));
            }
            assert(ops_view(ops@) =~= update_ops(line@));
            ops
        },
    };
    stats.apply_all(&ops)
}

/// The whole minutes from the first to the last event time, where both are
/// known (see [`minutes_between_of`]).
pub fn duration_minutes(stats: &Stats) -> (r: Option<i64>)
    ensures
        r == match (stats.first_ts, stats.last_ts) {
            (Some(a), Some(b)) => minutes_between_of(a, b),
            _ => None,
        },
{
    match (stats.first_ts, stats.last_ts) {
        (Some(a), Some(b)) => minutes_between(a, b),
        _ => None,
    }
}

/// Why a line was not taken into the statistics.
#[derive(Debug, Clone, Copy, PartialEq, Eq, Structural)]
pub enum StatsLineError {
    /// The line is not one JSON document.
    InvalidJson,
    /// The line is JSON, but not an object (it was still counted as a line).
    NotAnObject,
    /// A counter would leave its machine type.
    Overflow,
}

/// The statistics after taking a line with [`process_line`], or the error.
pub open spec fn process_outcome(st: StatsView, line: Seq<char>) -> (StatsView, Result<(), StatsLineError>) {
    match json_parse_result(line) {
        None => (st, Err(StatsLineError::InvalidJson)),
        Some(v) => match run_ops(
            st,
            seq![OpView::CountLine] + if v.is_object() {
                object_ops(v)
            } else {
                Seq::empty()
            },
        ) {
            None => (st, Err(StatsLineError::Overflow)),
            Some(st2) => (st2, if v.is_object() {
                Ok(())
            } else {
                Err(StatsLineError::NotAnObject)
            }),
        },
    }
}

/// Takes one line into the statistics, reporting lines that are not JSON
/// objects (see [`process_outcome`]; on `Overflow` the statistics are left
/// part-way).
pub fn process_line(stats: &mut Stats, line: &str) -> (r: Result<(), StatsLineError>)
    requires
        old(stats).wf(),
    ensures
        final(stats).wf(),
        r == process_outcome(old(stats)@, line@).1,
        r != Err::<(), StatsLineError>(StatsLineError::Overflow) ==> final(stats)@ == process_outcome(
            old(stats)@,
            line@,
        ).0,
{
    match parse_json(line) {
        None => Err(StatsLineError::InvalidJson),
        Some(v) => {
            let mut ops: Vec<StatOp> = Vec::new();
            push_op(&mut ops, StatOp::CountLine);
            let is_obj = v.is_object();
            if is_obj {
                let mut rest = collect_object_ops(&v);
                let ghost before = ops_view(ops@);
                ops.append(&mut rest);
                assert(ops_view(ops@) =~= before + object_ops(v@));
            }
            assert(ops_view(ops@) =~= seq![OpView::CountLine] + if v@.is_object() {
                object_ops(v@)
            } else {
                Seq::<OpView>::empty()
            });
            if !stats.apply_all(&ops) {
                return Err(StatsLineError::Overflow);
            }
            if is_obj {
                Ok(())
            } else {
                Err(StatsLineError::NotAnObject)
            }
        },
    }
}

/// The statistics of a whole transcript as the line-report tool reads it:
/// blank lines are passed over, and a line that is not a JSON object counts
/// as an error; `None` where a counter would leave its machine type.
pub open spec fn report_stats(lines: Seq<Seq<char>>) -> Option<StatsView>
    decreases lines.len(),
{
    if lines.len() == 0 {
        Some(empty_stats())
    } else {
        match report_stats(lines.drop_last()) {
            None => None,
            Some(st) => if crate::text::trim_of(lines.last()).len() == 0 {
                Some(st)
            } else {
                let (st2, res) = process_outcome(st, lines.last());
                match res {
                    Ok(()) => Some(st2),
                    Err(StatsLineError::Overflow) => None,
                    Err(_) => run_ops(st2, seq![OpView::CountError]),
                }
            },
        }
    }
}

/// Reads the statistics of a transcript's lines (see [`report_stats`]).
pub fn run_lines(lines: &Vec<String>) -> (r: Option<Stats>)
    ensures
        r is Some <==> report_stats(crate::parser::lines_view(lines@)) is Some,
        r matches Some(st) ==> st.wf() && st@ == report_stats(
            crate::parser::lines_view(lines@),
        )->Some_0,
{
    let ghost all = crate::parser::lines_view(lines@);
    let mut stats = Stats::new();
    let mut i: usize = 0;
    assert(all.take(0) =~= Seq::<Seq<char>>::empty());
    while i < lines.len()
        invariant
            i <= lines@.len(),
            all == crate::parser::lines_view(lines@),
            all.len() == lines@.len(),
            stats.wf(),
            report_stats(all.take(i as int)) == Some(stats@),
        decreases lines.len() - i,
    {
        let ghost next = all.take(i + 1);
        assert(next.drop_last() =~= all.take(i as int));
        assert(next.last() == lines@[i as int]@);
        let t = crate::text::trim(lines[i].as_str());
        let ghost prev = stats@;
        if !crate::text::is_empty_str(t.as_str()) {
            match process_line(&mut stats, lines[i].as_str()) {
                Ok(()) => {
                    assert(report_stats(next) == Some(stats@));
                },
                Err(StatsLineError::Overflow) => {
                    proof {
                        lemma_report_none_stays(all, i + 1);
                    }
                    return None;
                },
                Err(e) => {
                    let ghost mid = stats@;
                    assert(mid == process_outcome(prev, next.last()).0);
                    if !stats.apply(&StatOp::CountError) {
                        proof {
                            lemma_report_none_stays(all, i + 1);
                        }
                        return None;
                    }
                    assert(seq![OpView::CountError].drop_first() =~= Seq::<OpView>::empty());
                    assert(seq![OpView::CountError][0] == OpView::CountError);
                    assert(run_ops(mid, seq![OpView::CountError]) == Some(stats@)) by {
                        reveal_with_fuel(run_ops, 2);
                    }
                    assert(report_stats(next) == Some(stats@));
                },
            }
        }
        i = i + 1;
    }
    assert(all.take(i as int) =~= all);
    Some(stats)
}

proof fn lemma_report_none_stays(lines: Seq<Seq<char>>, k: int)
    requires
        0 <= k <= lines.len(),
        report_stats(lines.take(k)) is None,
    ensures
        report_stats(lines) is None,
    decreases lines.len() - k,
{
    if k < lines.len() {
        let next = lines.take(k + 1);
        assert(next.drop_last() =~= lines.take(k));
        lemma_report_none_stays(lines, k + 1);
    } else {
        assert(lines.take(k) =~= lines);
    }
}


/// The statistics of a transcript as the importer reads it: each line is
/// trimmed, blank ones are passed over, the rest taken with [`update_ops`];
/// `None` where a counter would leave its machine type.
pub open spec fn file_stats(lines: Seq<Seq<char>>) -> Option<StatsView>
    decreases lines.len(),
{
    if lines.len() == 0 {
        Some(empty_stats())
    } else {
        match file_stats(lines.drop_last()) {
            None => None,
            Some(st) => {
                let t = crate::text::trim_of(lines.last());
                if t.len() == 0 {
                    Some(st)
                } else {
                    run_ops(st, update_ops(t))
                }
            },
        }
    }
}

proof fn lemma_file_none_stays(lines: Seq<Seq<char>>, k: int)
    requires
        0 <= k <= lines.len(),
        file_stats(lines.take(k)) is None,
    ensures
        file_stats(lines) is None,
    decreases lines.len() - k,
{
    if k < lines.len() {
        let next = lines.take(k + 1);
        assert(next.drop_last() =~= lines.take(k));
        lemma_file_none_stays(lines, k + 1);
    } else {
        assert(lines.take(k) =~= lines);
    }
}

fn file_stats_of(lines: &Vec<String>) -> (r: Option<Stats>)
    ensures
        r is Some <==> file_stats(crate::parser::lines_view(lines@)) is Some,
        r matches Some(st) ==> st.wf() && st@ == file_stats(crate::parser::lines_view(lines@))->Some_0,
{
    let ghost all = crate::parser::lines_view(lines@);
    let mut stats = Stats::new();
    let mut i: usize = 0;
    assert(all.take(0) =~= Seq::<Seq<char>>::empty());
    while i < lines.len()
        invariant
            i <= lines@.len(),
            all == crate::parser::lines_view(lines@),
            all.len() == lines@.len(),
            stats.wf(),
            file_stats(all.take(i as int)) == Some(stats@),
        decreases lines.len() - i,
    {
        let ghost next = all.take(i + 1);
        assert(next.drop_last() =~= all.take(i as int));
        assert(next.last() == lines@[i as int]@);
        let t = crate::text::trim(lines[i].as_str());
        if !crate::text::is_empty_str(t.as_str()) {
            if !update_stats(&mut stats, t.as_str()) {
                proof {
                    lemma_file_none_stays(all, i + 1);
                }
                return None;
            }
        }
        i = i + 1;
    }
    assert(all.take(i as int) =~= all);
    Some(stats)
}

/// Reads a whole transcript's lines for the importer: the statistics (see
/// [`file_stats`], with the line and error totals then set from the batch)
/// and the batch of events (see [`crate::parser::batch_of`]), the batch's
/// offset being the file's length; `None` where a counter would leave its
/// machine type.
pub fn parse_file_lines(lines: &Vec<String>, file_len: u64) -> (r: Option<(Stats, crate::parser::ParseBatch)>)
    ensures
        r is Some <==> (file_stats(crate::parser::lines_view(lines@)) is Some
            && crate::parser::batch_in_range(crate::parser::lines_view(lines@))),
        r matches Some((st, b)) ==> {
            let all = crate::parser::lines_view(lines@);
            let bv = crate::parser::batch_of(all);
            &&& st.wf()
            &&& st@ == StatsView {
                total_lines: (bv.events.len() + bv.parse_errors) as int,
                parse_errors: bv.parse_errors as int,
                ..file_stats(all)->Some_0
            }
            &&& crate::parser::events_view(b.events@) == bv.events
            &&& b.meta@ == bv.meta
            &&& b.parse_errors == bv.parse_errors
            &&& b.new_offset == file_len
        },
{
    let n = lines.len();
    let stats = file_stats_of(lines);
    let batch = crate::parser::parse_lines_checked(lines, file_len);
    match (stats, batch) {
        (Some(mut st), Some(b)) => {
            assert(crate::parser::events_view(b.events@) == crate::parser::batch_of(crate::parser::lines_view(lines@)).events);
            proof {
                crate::parser::lemma_batch_size(crate::parser::lines_view(lines@));
            }
            assert(b.events@.len() == crate::parser::events_view(b.events@).len());
            assert(crate::parser::lines_view(lines@).len() == lines@.len());
            st.total_lines = b.events.len() + b.parse_errors;
            st.parse_errors = b.parse_errors;
            Some((st, b))
        },
        _ => None,
    }
}


// ---------------------------------------------------------------------------
// What a run of lines adds up to
// ---------------------------------------------------------------------------

/// The statistics after taking each line in turn with [`update_stats`],
/// from empty ones; `None` once a counter would leave its machine type.
pub open spec fn update_run(lines: Seq<Seq<char>>) -> Option<StatsView>
    decreases lines.len(),
{
    if lines.len() == 0 {
        Some(empty_stats())
    } else {
        match update_run(lines.drop_last()) {
            None => None,
            Some(st) => run_ops(st, update_ops(lines.last())),
        }
    }
}

/// Whether a line is a JSON object.
pub open spec fn is_object_line(line: Seq<char>) -> bool {
    match json_parse_result(line) {
        Some(v) => v.is_object(),
        None => false,
    }
}

/// How many of the lines are JSON.
pub open spec fn json_count(lines: Seq<Seq<char>>) -> nat
    decreases lines.len(),
{
    if lines.len() == 0 {
        0
    } else {
        json_count(lines.drop_last()) + if json_parse_result(lines.last()) is Some {
            1nat
        } else {
            0nat
        }
    }
}

/// How many of the lines are JSON objects.
pub open spec fn object_count(lines: Seq<Seq<char>>) -> nat
    decreases lines.len(),
{
    if lines.len() == 0 {
        0
    } else {
        object_count(lines.drop_last()) + if is_object_line(lines.last()) {
            1nat
        } else {
            0nat
        }
    }
}

/// The time of an object line whose timestamp reads as one.
pub open spec fn line_time(line: Seq<char>) -> Option<(i64, u32)> {
    match json_parse_result(line) {
        Some(v) => if v.is_object() {
            match str_member(v, "timestamp"@) {
                Some(t) => utc_instant_of(t),
                None => None,
            }
        } else {
            None
        },
        None => None,
    }
}

/// What the statistics of a run of lines add up to: the line total counts
/// the lines that are JSON and the error total the others; the type tally
/// adds up to the object lines; the first and last times are there exactly
/// when some line has a time, and are the earliest and the latest of them.
pub open spec fn run_facts(lines: Seq<Seq<char>>, st: StatsView) -> bool {
    &&& st.total_lines == json_count(lines)
    &&& st.parse_errors == lines.len() - json_count(lines)
    &&& tally_total(st.types) == object_count(lines)
    &&& (st.first_ts is Some <==> st.last_ts is Some)
    &&& (st.first_ts is Some <==> exists|i: int| 0 <= i < lines.len() && (#[trigger] line_time(lines[i])) is Some)
    &&& forall|i: int| 0 <= i < lines.len() && (#[trigger] line_time(lines[i])) is Some ==> {
        &&& !instant_lt(line_time(lines[i])->Some_0, st.first_ts->Some_0)
        &&& !instant_lt(st.last_ts->Some_0, line_time(lines[i])->Some_0)
    }
    &&& (st.first_ts matches Some(f) ==> exists|i: int| 0 <= i < lines.len() && #[trigger] line_time(lines[i]) == Some(f))
    &&& (st.last_ts matches Some(l) ==> exists|i: int| 0 <= i < lines.len() && #[trigger] line_time(lines[i]) == Some(l))
}

/// A step that leaves the line and error totals, the type tally and the
/// times alone.
spec fn is_side_op(op: OpView) -> bool {
    match op {
        OpView::CountLine => false,
        OpView::CountError => false,
        OpView::NoteTime(_) => false,
        OpView::Bump(k, _) => k != StatKey::Types,
        _ => true,
    }
}

spec fn all_side(ops: Seq<OpView>) -> bool {
    forall|i: int| 0 <= i < ops.len() ==> is_side_op(#[trigger] ops[i])
}

proof fn lemma_run_append(st: StatsView, a: Seq<OpView>, b: Seq<OpView>)
    ensures
        run_ops(st, a + b) == match run_ops(st, a) {
            Some(s) => run_ops(s, b),
            None => None,
        },
    decreases a.len(),
{
    if a.len() > 0 {
        assert((a + b)[0] == a[0]);
        assert((a + b).drop_first() =~= a.drop_first() + b);
        if op_fits(st, a[0]) {
            lemma_run_append(apply_op(st, a[0]), a.drop_first(), b);
        }
    } else {
        assert(a + b =~= b);
    }
}

proof fn lemma_run_side(st: StatsView, ops: Seq<OpView>)
    requires
        all_side(ops),
    ensures
        run_ops(st, ops) matches Some(s) ==> s.total_lines == st.total_lines && s.parse_errors == st.parse_errors
            && s.types == st.types && s.first_ts == st.first_ts && s.last_ts == st.last_ts,
    decreases ops.len(),
{
    if ops.len() > 0 {
        assert(is_side_op(ops[0]));
        let d = ops.drop_first();
        assert forall|i: int| 0 <= i < d.len() implies is_side_op(#[trigger] d[i]) by {
            assert(d[i] == ops[i + 1]);
        }
        let s1 = apply_op(st, ops[0]);
        match ops[0] {
            OpView::Bump(k, key) => {
                assert(k != StatKey::Types);
                assert(s1.types == st.types);
            },
            OpView::AddTokens(k, n) => {
                assert(s1.types == st.types);
            },
            _ => {},
        }
        lemma_run_side(s1, d);
    }
}

proof fn lemma_side_add(a: Seq<OpView>, b: Seq<OpView>)
    requires
        all_side(a),
        all_side(b),
    ensures
        all_side(a + b),
{
    assert forall|i: int| 0 <= i < (a + b).len() implies is_side_op(#[trigger] (a + b)[i]) by {
        if i < a.len() {
            assert((a + b)[i] == a[i]);
        } else {
            assert((a + b)[i] == b[i - a.len()]);
        }
    }
}

proof fn lemma_side_one(op: OpView)
    requires
        is_side_op(op),
    ensures
        all_side(seq![op]),
{
    assert forall|i: int| 0 <= i < seq![op].len() implies is_side_op(#[trigger] seq![op][i]) by {
        assert(seq![op][i] == op);
    }
}

proof fn lemma_side_unknown(ms: Seq<(Seq<char>, Json)>)
    ensures
        all_side(unknown_key_ops(ms)),
    decreases ms.len(),
{
    if ms.len() > 0 {
        lemma_side_unknown(ms.drop_last());
        if is_known_key(ms.last().0) {
            lemma_side_add(unknown_key_ops(ms.drop_last()), Seq::empty());
        } else {
            lemma_side_one(OpView::Bump(StatKey::UnknownTopKeys, ms.last().0));
            lemma_side_add(
                unknown_key_ops(ms.drop_last()),
                seq![OpView::Bump(StatKey::UnknownTopKeys, ms.last().0)],
            );
        }
    }
}

proof fn lemma_side_blocks(bs: Seq<Json>)
    ensures
        all_side(blocks_ops(bs)),
    decreases bs.len(),
{
    if bs.len() > 0 {
        lemma_side_blocks(bs.drop_last());
        let b = bs.last();
        let kind = match str_member(b, "type"@) {
            Some(k) => k,
            None => "unknown"@,
        };
        let head = seq![OpView::Bump(StatKey::ContentKinds, kind)];
        lemma_side_one(OpView::Bump(StatKey::ContentKinds, kind));
        let tail = if kind == "tool_use"@ {
            opt_op(str_member(b, "name"@), |n: Seq<char>| OpView::Bump(StatKey::Tools, n))
        } else if kind == "tool_result"@ && bool_member(b, "is_error"@) == Some(true) {
            seq![OpView::Bump(StatKey::ToolErrors, "(unnamed)"@)]
        } else {
            Seq::empty()
        };
        if kind == "tool_use"@ {
            match str_member(b, "name"@) {
                Some(n) => lemma_side_one(OpView::Bump(StatKey::Tools, n)),
                None => {},
            }
        } else if kind == "tool_result"@ && bool_member(b, "is_error"@) == Some(true) {
            lemma_side_one(OpView::Bump(StatKey::ToolErrors, "(unnamed)"@));
        }
        assert(all_side(tail));
        lemma_side_add(head, tail);
        assert(block_ops(b) == head + tail);
        lemma_side_add(blocks_ops(bs.drop_last()), block_ops(b));
    }
}

proof fn lemma_side_opt(s: Option<Seq<char>>, f: spec_fn(Seq<char>) -> OpView)
    requires
        forall|t: Seq<char>| is_side_op(#[trigger] f(t)),
    ensures
        all_side(opt_op(s, f)),
{
    match s {
        Some(t) => lemma_side_one(f(t)),
        None => {},
    }
}

proof fn lemma_side_message(msg: Json)
    ensures
        all_side(message_ops(msg)),
{
    let models = opt_op(str_member(msg, "model"@), |m: Seq<char>| OpView::Bump(StatKey::Models, m));
    lemma_side_opt(str_member(msg, "model"@), |m: Seq<char>| OpView::Bump(StatKey::Models, m));
    let tokens = match msg.get("usage"@) {
        Some(u) => if u.is_object() {
            seq![
                OpView::AddTokens(TokenKind::Input, tokens_of(u, "input_tokens"@)),
                OpView::AddTokens(TokenKind::Output, tokens_of(u, "output_tokens"@)),
                OpView::AddTokens(TokenKind::CacheCreation, tokens_of(u, "cache_creation_input_tokens"@)),
                OpView::AddTokens(TokenKind::CacheRead, tokens_of(u, "cache_read_input_tokens"@)),
            ]
        } else {
            Seq::empty()
        },
        None => Seq::empty(),
    };
    assert(all_side(tokens)) by {
        assert forall|i: int| 0 <= i < tokens.len() implies is_side_op(#[trigger] tokens[i]) by {
            assert(tokens[i] is AddTokens);
        }
    }
    let content = content_ops(msg);
    assert(all_side(content)) by {
        match msg.get("content"@) {
            Some(Json::Array(blocks)) => lemma_side_blocks(blocks),
            Some(Json::Str(_)) => lemma_side_one(OpView::Bump(StatKey::ContentKinds, "text"@)),
            _ => {},
        }
    }
    lemma_side_add(models, tokens);
    lemma_side_add(models + tokens, content);
    assert(message_ops(msg) == models + tokens + content);
}

proof fn lemma_side_kind(ty: Seq<char>, o: Json)
    ensures
        all_side(kind_ops(ty, o)),
{
    if ty == "ai-title"@ {
        lemma_side_opt(str_member(o, "aiTitle"@), |t: Seq<char>| OpView::SetTitle(t));
    } else if ty == "summary"@ {
        lemma_side_opt(str_member(o, "summary"@), |t: Seq<char>| OpView::SetSummary(t));
    } else if ty == "permission-mode"@ {
        lemma_side_opt(str_member(o, "permissionMode"@), |m: Seq<char>| OpView::Bump(StatKey::PermissionModes, m));
    } else if ty == "attachment"@ {
        match o.get("attachment"@) {
            Some(a) => if a.is_object() {
                lemma_side_one(
                    OpView::Bump(
                        StatKey::AttachmentKinds,
                        match str_member(a, "type"@) {
                            Some(k) => k,
                            None => "?"@,
                        },
                    ),
                );
            },
            None => {},
        }
    } else if ty == "assistant"@ || ty == "user"@ {
        match o.get("message"@) {
            Some(msg) => lemma_side_message(msg),
            None => {},
        }
    }
}

proof fn lemma_side_detail(o: Json)
    ensures
        all_side(detail_ops(o)),
{
    let b = branch_op(o);
    match str_member(o, "gitBranch"@) {
        Some(x) => if x.len() > 0 {
            lemma_side_one(OpView::Bump(StatKey::GitBranches, x));
        },
        None => {},
    }
    let v = opt_op(str_member(o, "version"@), |v: Seq<char>| OpView::Bump(StatKey::Versions, v));
    lemma_side_opt(str_member(o, "version"@), |v: Seq<char>| OpView::Bump(StatKey::Versions, v));
    let sc = sidechain_op(o);
    if bool_member(o, "isSidechain"@) == Some(true) {
        lemma_side_one(OpView::CountSidechain);
    }
    let k = kind_ops(type_of(o), o);
    lemma_side_kind(type_of(o), o);
    lemma_side_add(b, v);
    lemma_side_add(b + v, sc);
    lemma_side_add(b + v + sc, k);
    assert(detail_ops(o) == b + v + sc + k);
}

/// What taking one line does to the totals, the type tally and the times.
spec fn line_effect(st: StatsView, line: Seq<char>, s: StatsView) -> bool {
    &&& s.total_lines == st.total_lines + if json_parse_result(line) is Some {
        1int
    } else {
        0int
    }
    &&& s.parse_errors == st.parse_errors + if json_parse_result(line) is Some {
        0int
    } else {
        1int
    }
    &&& tally_total(s.types) == tally_total(st.types) + if is_object_line(line) {
        1int
    } else {
        0int
    }
    &&& s.first_ts == match line_time(line) {
        Some(t) => Some(
            match st.first_ts {
                Some(x) => instant_min(x, t),
                None => t,
            },
        ),
        None => st.first_ts,
    }
    &&& s.last_ts == match line_time(line) {
        Some(t) => Some(
            match st.last_ts {
                Some(x) => instant_max(x, t),
                None => t,
            },
        ),
        None => st.last_ts,
    }
}

proof fn lemma_run_one(st: StatsView, op: OpView)
    ensures
        run_ops(st, seq![op]) == if op_fits(st, op) {
            Some(apply_op(st, op))
        } else {
            None
        },
{
    assert(seq![op].drop_first() =~= Seq::<OpView>::empty());
    assert(seq![op][0] == op);
    reveal_with_fuel(run_ops, 2);
}

proof fn lemma_line_run(st: StatsView, line: Seq<char>)
    requires
        run_ops(st, update_ops(line)) is Some,
    ensures
        line_effect(st, line, run_ops(st, update_ops(line))->Some_0),
{
    let s = run_ops(st, update_ops(line))->Some_0;
    match json_parse_result(line) {
        None => {
            lemma_run_one(st, OpView::CountError);
        },
        Some(v) => {
            let head = seq![OpView::CountLine];
            let rest = if v.is_object() {
                object_ops(v)
            } else {
                Seq::empty()
            };
            assert(update_ops(line) == head + rest);
            lemma_run_append(st, head, rest);
            lemma_run_one(st, OpView::CountLine);
            let s1 = apply_op(st, OpView::CountLine);
            assert(run_ops(s1, rest) == Some(s));
            if v.is_object() {
                let u = unknown_key_ops(members_of(v));
                let t = seq![OpView::Bump(StatKey::Types, type_of(v))];
                let se = opt_op(str_member(v, "sessionId"@), |s: Seq<char>| OpView::NoteSession(s));
                let c = opt_op(str_member(v, "cwd"@), |s: Seq<char>| OpView::NoteCwd(s));
                let tm = time_op(v);
                let det = detail_ops(v);
                assert(note_ops(v) == u + t + se + c + tm);
                assert(object_ops(v) == note_ops(v) + det);
                lemma_run_append(s1, note_ops(v), det);
                lemma_run_append(s1, u + t + se + c, tm);
                lemma_run_append(s1, u + t + se, c);
                lemma_run_append(s1, u + t, se);
                lemma_run_append(s1, u, t);
                assert(run_ops(s1, u) is Some);
                let s2 = run_ops(s1, u)->Some_0;
                lemma_side_unknown(members_of(v));
                lemma_run_side(s1, u);
                lemma_run_one(s2, OpView::Bump(StatKey::Types, type_of(v)));
                assert(run_ops(s2, t) is Some);
                let s3 = run_ops(s2, t)->Some_0;
                lemma_bumped_total(s2.types, type_of(v));
                assert(tally_total(s3.types) == tally_total(s2.types) + 1);
                lemma_side_opt(str_member(v, "sessionId"@), |s: Seq<char>| OpView::NoteSession(s));
                lemma_run_side(s3, se);
                assert(run_ops(s3, se) is Some);
                let s4 = run_ops(s3, se)->Some_0;
                lemma_side_opt(str_member(v, "cwd"@), |s: Seq<char>| OpView::NoteCwd(s));
                lemma_run_side(s4, c);
                assert(run_ops(s4, c) is Some);
                let s5 = run_ops(s4, c)->Some_0;
                assert(run_ops(s5, tm) is Some);
                let s6 = run_ops(s5, tm)->Some_0;
                match str_member(v, "timestamp"@) {
                    Some(ts) => match utc_instant_of(ts) {
                        Some(i) => {
                            lemma_run_one(s5, OpView::NoteTime(i));
                            assert(s6 == apply_op(s5, OpView::NoteTime(i)));
                        },
                        None => {
                            assert(s6 == s5);
                        },
                    },
                    None => {
                        assert(s6 == s5);
                    },
                }
                lemma_side_detail(v);
                lemma_run_side(s6, det);
                assert(run_ops(s6, det) == Some(s));
            } else {
                assert(rest =~= Seq::<OpView>::empty());
                assert(s == s1);
            }
        },
    }
}

/// Over a run of lines taken one by one with [`update_stats`] from empty
/// statistics, with no counter leaving its machine type: the line total
/// counts the lines that are JSON, the error total the others, the type
/// tally adds up to the object lines, and the first and last times are
/// there exactly when some object line has a readable timestamp, and are
/// then the earliest and the latest of those times (see [`run_facts`]).
pub proof fn law_update_run(lines: Seq<Seq<char>>)
    requires
        update_run(lines) is Some,
    ensures
        run_facts(lines, update_run(lines)->Some_0),
    decreases lines.len(),
{
    if lines.len() == 0 {
        assert(tally_total(Seq::<(Seq<char>, nat)>::empty()) == 0);
    } else {
        let d = lines.drop_last();
        let line = lines.last();
        let n = d.len() as int;
        assert(update_run(d) is Some);
        law_update_run(d);
        let st = update_run(d)->Some_0;
        lemma_line_run(st, line);
        let s = update_run(lines)->Some_0;
        assert(s == run_ops(st, update_ops(line))->Some_0);
        assert(lines[n] == line);
        assert forall|i: int| 0 <= i < n implies lines[i] == d[i] by {}
        match line_time(line) {
            Some(t) => {
                assert(line_time(lines[n]) is Some);
                assert forall|i: int| 0 <= i < lines.len() && (#[trigger] line_time(lines[i])) is Some implies {
                    &&& !instant_lt(line_time(lines[i])->Some_0, s.first_ts->Some_0)
                    &&& !instant_lt(s.last_ts->Some_0, line_time(lines[i])->Some_0)
                } by {
                    if i < n {
                        assert(lines[i] == d[i]);
                        assert(line_time(d[i]) is Some);
                    }
                }
                let f = s.first_ts->Some_0;
                if f == t {
                    assert(line_time(lines[n]) == Some(f));
                } else {
                    let x = st.first_ts->Some_0;
                    assert(f == x);
                    let j = choose|j: int| 0 <= j < d.len() && #[trigger] line_time(d[j]) == Some(x);
                    assert(lines[j] == d[j]);
                    assert(line_time(lines[j]) == Some(f));
                }
                let l = s.last_ts->Some_0;
                if l == t {
                    assert(line_time(lines[n]) == Some(l));
                } else {
                    let x = st.last_ts->Some_0;
                    assert(l == x);
                    let j = choose|j: int| 0 <= j < d.len() && #[trigger] line_time(d[j]) == Some(x);
                    assert(lines[j] == d[j]);
                    assert(line_time(lines[j]) == Some(l));
                }
            },
            None => {
                assert(s.first_ts == st.first_ts && s.last_ts == st.last_ts);
                assert((exists|i: int| 0 <= i < lines.len() && (#[trigger] line_time(lines[i])) is Some) == (exists|i: int|
                    0 <= i < d.len() && (#[trigger] line_time(d[i])) is Some)) by {
                    if exists|i: int| 0 <= i < lines.len() && (#[trigger] line_time(lines[i])) is Some {
                        let i = choose|i: int| 0 <= i < lines.len() && (#[trigger] line_time(lines[i])) is Some;
                        assert(i != n);
                        assert(lines[i] == d[i]);
                        assert(line_time(d[i]) is Some);
                    }
                    if exists|i: int| 0 <= i < d.len() && (#[trigger] line_time(d[i])) is Some {
                        let i = choose|i: int| 0 <= i < d.len() && (#[trigger] line_time(d[i])) is Some;
                        assert(lines[i] == d[i]);
                        assert(line_time(lines[i]) is Some);
                    }
                }
                assert forall|i: int| 0 <= i < lines.len() && (#[trigger] line_time(lines[i])) is Some implies {
                    &&& !instant_lt(line_time(lines[i])->Some_0, s.first_ts->Some_0)
                    &&& !instant_lt(s.last_ts->Some_0, line_time(lines[i])->Some_0)
                } by {
                    assert(i != n);
                    assert(lines[i] == d[i]);
                    assert(line_time(d[i]) is Some);
                }
                if s.first_ts is Some {
                    let x = s.first_ts->Some_0;
                    let j = choose|j: int| 0 <= j < d.len() && #[trigger] line_time(d[j]) == Some(x);
                    assert(lines[j] == d[j]);
                    assert(line_time(lines[j]) == Some(x));
                }
                if s.last_ts is Some {
                    let x = s.last_ts->Some_0;
                    let j = choose|j: int| 0 <= j < d.len() && #[trigger] line_time(d[j]) == Some(x);
                    assert(lines[j] == d[j]);
                    assert(line_time(lines[j]) == Some(x));
                }
            },
        }
    }
}

// ---------------------------------------------------------------------------
// When a run of lines fits the counters
// ---------------------------------------------------------------------------

/// Every count of the statistics added up: lines, errors, each tally and
/// the side-chain events.
pub open spec fn counted(st: StatsView) -> int {
    st.total_lines + st.parse_errors + tally_total(st.types) + tally_total(st.content_kinds) + tally_total(st.tools)
        + tally_total(st.tool_errors) + tally_total(st.models) + tally_total(st.git_branches) + tally_total(
        st.versions,
    ) + tally_total(st.permission_modes) + tally_total(st.attachment_kinds) + tally_total(st.unknown_top_keys)
        + st.sidechain_events
}

/// The tokens of one kind that a run of steps adds.
pub open spec fn ops_tokens(ops: Seq<OpView>, k: TokenKind) -> int
    decreases ops.len(),
{
    if ops.len() == 0 {
        0
    } else {
        (match ops[0] {
            OpView::AddTokens(k2, n) => if k2 == k {
                n as int
            } else {
                0
            },
            _ => 0,
        }) + ops_tokens(ops.drop_first(), k)
    }
}

/// The steps of all the lines together.
pub open spec fn step_total(lines: Seq<Seq<char>>) -> nat
    decreases lines.len(),
{
    if lines.len() == 0 {
        0
    } else {
        step_total(lines.drop_last()) + update_ops(lines.last()).len()
    }
}

/// The tokens of one kind that all the lines add.
pub open spec fn token_sum(lines: Seq<Seq<char>>, k: TokenKind) -> int
    decreases lines.len(),
{
    if lines.len() == 0 {
        0
    } else {
        token_sum(lines.drop_last(), k) + ops_tokens(update_ops(lines.last()), k)
    }
}

spec fn counts_ok(st: StatsView) -> bool {
    &&& st.total_lines >= 0
    &&& st.parse_errors >= 0
    &&& st.sidechain_events >= 0
    &&& forall|k: TokenKind| #[trigger] token_total(st, k) >= 0
}

proof fn lemma_ops_tokens_nonneg(ops: Seq<OpView>, k: TokenKind)
    ensures
        ops_tokens(ops, k) >= 0,
    decreases ops.len(),
{
    if ops.len() > 0 {
        lemma_ops_tokens_nonneg(ops.drop_first(), k);
    }
}

/// One step fits where the counts leave room for it and its tokens.
proof fn lemma_op_fits(st: StatsView, op: OpView, rest: Seq<OpView>)
    requires
        counts_ok(st),
        counted(st) + 1 <= usize::MAX,
        forall|k: TokenKind| #[trigger] token_total(st, k) + ops_tokens(seq![op] + rest, k) <= u64::MAX,
    ensures
        op_fits(st, op),
        counts_ok(apply_op(st, op)),
        counted(apply_op(st, op)) <= counted(st) + 1,
        forall|k: TokenKind| #[trigger] token_total(apply_op(st, op), k) + ops_tokens(rest, k) <= u64::MAX,
        forall|k: TokenKind| #[trigger] token_total(apply_op(st, op), k) == token_total(st, k) + ops_tokens(
            seq![op] + rest,
            k,
        ) - ops_tokens(rest, k),
{
    let all = seq![op] + rest;
    assert(all[0] == op);
    assert(all.drop_first() =~= rest);
    assert forall|k: TokenKind| ops_tokens(all, k) == (match op {
        OpView::AddTokens(k2, n) => if k2 == k {
            n as int
        } else {
            0
        },
        _ => 0,
    }) + ops_tokens(rest, k) by {}
    assert forall|k: TokenKind| ops_tokens(rest, k) >= 0 by {
        lemma_ops_tokens_nonneg(rest, k);
    }
    match op {
        OpView::Bump(k, key) => {
            lemma_count_le_total(tally(st, k), key);
            lemma_bumped_total(tally(st, k), key);
        },
        OpView::AddTokens(k, n) => {
            assert(token_total(st, k) + ops_tokens(all, k) <= u64::MAX);
        },
        _ => {},
    }
    let s1 = apply_op(st, op);
    assert forall|k: TokenKind| #[trigger] token_total(s1, k) == token_total(st, k) + ops_tokens(all, k) - ops_tokens(
        rest,
        k,
    ) by {}
}

proof fn lemma_run_fits(st: StatsView, ops: Seq<OpView>)
    requires
        counts_ok(st),
        counted(st) + ops.len() <= usize::MAX,
        forall|k: TokenKind| #[trigger] token_total(st, k) + ops_tokens(ops, k) <= u64::MAX,
    ensures
        run_ops(st, ops) is Some,
        counts_ok(run_ops(st, ops)->Some_0),
        counted(run_ops(st, ops)->Some_0) <= counted(st) + ops.len(),
        forall|k: TokenKind| #[trigger] token_total(run_ops(st, ops)->Some_0, k) == token_total(st, k) + ops_tokens(
            ops,
            k,
        ),
    decreases ops.len(),
{
    if ops.len() == 0 {
        assert forall|k: TokenKind| #[trigger] token_total(run_ops(st, ops)->Some_0, k) == token_total(st, k)
            + ops_tokens(ops, k) by {}
    } else {
        let op = ops[0];
        let rest = ops.drop_first();
        assert(seq![op] + rest =~= ops);
        lemma_op_fits(st, op, rest);
        let s1 = apply_op(st, op);
        lemma_run_fits(s1, rest);
        let s = run_ops(st, ops)->Some_0;
        assert(run_ops(st, ops) == run_ops(s1, rest));
        assert forall|k: TokenKind| #[trigger] token_total(s, k) == token_total(st, k) + ops_tokens(ops, k) by {
            assert(token_total(s, k) == token_total(s1, k) + ops_tokens(rest, k));
            assert(token_total(s1, k) == token_total(st, k) + ops_tokens(seq![op] + rest, k) - ops_tokens(rest, k));
        }
    }
}

proof fn lemma_update_run_fits(lines: Seq<Seq<char>>)
    requires
        step_total(lines) <= usize::MAX,
        forall|k: TokenKind| #[trigger] token_sum(lines, k) <= u64::MAX,
    ensures
        update_run(lines) is Some,
        counts_ok(update_run(lines)->Some_0),
        counted(update_run(lines)->Some_0) <= step_total(lines),
        forall|k: TokenKind| #[trigger] token_total(update_run(lines)->Some_0, k) == token_sum(lines, k),
    decreases lines.len(),
{
    if lines.len() == 0 {
        assert(tally_total(Seq::<(Seq<char>, nat)>::empty()) == 0);
        assert forall|k: TokenKind| #[trigger] token_total(update_run(lines)->Some_0, k) == token_sum(lines, k) by {}
        assert(counts_ok(empty_stats())) by {
            assert forall|k: TokenKind| #[trigger] token_total(empty_stats(), k) >= 0 by {}
        }
    } else {
        let d = lines.drop_last();
        let ops = update_ops(lines.last());
        assert forall|k: TokenKind| #[trigger] token_sum(d, k) <= u64::MAX by {
            lemma_ops_tokens_nonneg(ops, k);
            assert(token_sum(lines, k) == token_sum(d, k) + ops_tokens(ops, k));
        }
        lemma_update_run_fits(d);
        let st = update_run(d)->Some_0;
        assert forall|k: TokenKind| #[trigger] token_total(st, k) + ops_tokens(ops, k) <= u64::MAX by {
            assert(token_sum(lines, k) == token_sum(d, k) + ops_tokens(ops, k));
        }
        lemma_run_fits(st, ops);
        assert(update_run(lines) == run_ops(st, ops));
        assert forall|k: TokenKind| #[trigger] token_total(update_run(lines)->Some_0, k) == token_sum(lines, k) by {
            assert(token_sum(lines, k) == token_sum(d, k) + ops_tokens(ops, k));
        }
    }
}

/// No counter overflows over a run of lines whose steps, all lines
/// together, number at most `usize::MAX` and whose tokens of each kind add
/// up to at most `u64::MAX`; what the run adds up to is then as
/// [`run_facts`] says.
pub proof fn law_update_run_fits(lines: Seq<Seq<char>>)
    requires
        step_total(lines) <= usize::MAX,
        forall|k: TokenKind| #[trigger] token_sum(lines, k) <= u64::MAX,
    ensures
        update_run(lines) is Some,
        run_facts(lines, update_run(lines)->Some_0),
{
    lemma_update_run_fits(lines);
    law_update_run(lines);
}

// ---------------------------------------------------------------------------
// The title and summary of a run
// ---------------------------------------------------------------------------

proof fn lemma_ends_with_kind_ops(o: Json)
    ensures
        update_ops_of_object(o) == (seq![OpView::CountLine] + note_ops(o) + (branch_op(o) + opt_op(
            str_member(o, "version"@),
            |v: Seq<char>| OpView::Bump(StatKey::Versions, v),
        ) + sidechain_op(o))) + kind_ops(type_of(o), o),
{
    let n = note_ops(o);
    let b = branch_op(o);
    let v = opt_op(str_member(o, "version"@), |v: Seq<char>| OpView::Bump(StatKey::Versions, v));
    let sc = sidechain_op(o);
    let k = kind_ops(type_of(o), o);
    assert(seq![OpView::CountLine] + (n + (b + v + sc + k)) =~= (seq![OpView::CountLine] + n + (b + v + sc)) + k);
}

/// The steps of a line that is a JSON object.
pub open spec fn update_ops_of_object(o: Json) -> Seq<OpView> {
    seq![OpView::CountLine] + object_ops(o)
}

/// The step that a line of the given kind ends with sets what it names,
/// whatever came before.
proof fn lemma_last_step(st: StatsView, line: Seq<char>, o: Json, last: OpView)
    requires
        json_parse_result(line) == Some(o),
        o.is_object(),
        kind_ops(type_of(o), o) == seq![last],
        run_ops(st, update_ops(line)) is Some,
    ensures
        run_ops(st, update_ops(line))->Some_0 == apply_op(
            run_ops(st, update_ops(line).drop_last())->Some_0,
            last,
        ),
        run_ops(st, update_ops(line).drop_last()) is Some,
{
    lemma_ends_with_kind_ops(o);
    let ops = update_ops(line);
    assert(ops == update_ops_of_object(o));
    let pre = seq![OpView::CountLine] + note_ops(o) + (branch_op(o) + opt_op(
        str_member(o, "version"@),
        |v: Seq<char>| OpView::Bump(StatKey::Versions, v),
    ) + sidechain_op(o));
    assert(ops == pre + seq![last]);
    assert(ops.drop_last() =~= pre);
    lemma_run_append(st, pre, seq![last]);
    assert(run_ops(st, pre) is Some);
    lemma_run_one(run_ops(st, pre)->Some_0, last);
}

/// Taking a line of type `summary` whose `summary` is the text `s` leaves
/// `s` as the statistics' summary, whatever they held before.
pub proof fn law_summary_line_sets_summary(st: StatsView, line: Seq<char>, o: Json, s: Seq<char>)
    requires
        json_parse_result(line) == Some(o),
        o.is_object(),
        str_member(o, "type"@) == Some("summary"@),
        str_member(o, "summary"@) == Some(s),
        run_ops(st, update_ops(line)) is Some,
    ensures
        run_ops(st, update_ops(line))->Some_0.summary == Some(s),
{
    lemma_stat_kind_names();
    assert(kind_ops(type_of(o), o) == seq![OpView::SetSummary(s)]);
    lemma_last_step(st, line, o, OpView::SetSummary(s));
}

/// Taking a line of type `ai-title` whose `aiTitle` is the text `t` leaves
/// `t` as the statistics' title, whatever they held before.
pub proof fn law_title_line_sets_title(st: StatsView, line: Seq<char>, o: Json, t: Seq<char>)
    requires
        json_parse_result(line) == Some(o),
        o.is_object(),
        str_member(o, "type"@) == Some("ai-title"@),
        str_member(o, "aiTitle"@) == Some(t),
        run_ops(st, update_ops(line)) is Some,
    ensures
        run_ops(st, update_ops(line))->Some_0.ai_title == Some(t),
{
    assert(kind_ops(type_of(o), o) == seq![OpView::SetTitle(t)]);
    lemma_last_step(st, line, o, OpView::SetTitle(t));
}

proof fn lemma_stat_kind_names()
    ensures
        "summary"@ != "ai-title"@,
{
    reveal_strlit("summary");
    reveal_strlit("ai-title");
    assert("summary"@.len() != "ai-title"@.len());
}

// ---------------------------------------------------------------------------
// The tokens a line adds
// ---------------------------------------------------------------------------

proof fn lemma_ops_tokens_append(a: Seq<OpView>, b: Seq<OpView>, k: TokenKind)
    ensures
        ops_tokens(a + b, k) == ops_tokens(a, k) + ops_tokens(b, k),
    decreases a.len(),
{
    if a.len() == 0 {
        assert(a + b =~= b);
    } else {
        assert((a + b)[0] == a[0]);
        assert((a + b).drop_first() =~= a.drop_first() + b);
        lemma_ops_tokens_append(a.drop_first(), b, k);
    }
}

proof fn lemma_ops_tokens_one(op: OpView, k: TokenKind)
    ensures
        ops_tokens(seq![op], k) == (match op {
            OpView::AddTokens(k2, n) => if k2 == k {
                n as int
            } else {
                0
            },
            _ => 0,
        }),
{
    assert(seq![op][0] == op);
    assert(seq![op].drop_first() =~= Seq::<OpView>::empty());
    reveal_with_fuel(ops_tokens, 2);
}

proof fn lemma_tokens_unknown(ms: Seq<(Seq<char>, Json)>, k: TokenKind)
    ensures
        ops_tokens(unknown_key_ops(ms), k) == 0,
    decreases ms.len(),
{
    if ms.len() > 0 {
        lemma_tokens_unknown(ms.drop_last(), k);
        let tail = if is_known_key(ms.last().0) {
            Seq::<OpView>::empty()
        } else {
            seq![OpView::Bump(StatKey::UnknownTopKeys, ms.last().0)]
        };
        lemma_ops_tokens_append(unknown_key_ops(ms.drop_last()), tail, k);
        lemma_ops_tokens_one(OpView::Bump(StatKey::UnknownTopKeys, ms.last().0), k);
    }
}

proof fn lemma_tokens_opt(s: Option<Seq<char>>, f: spec_fn(Seq<char>) -> OpView, k: TokenKind)
    requires
        forall|t: Seq<char>| !(#[trigger] f(t) is AddTokens),
    ensures
        ops_tokens(opt_op(s, f), k) == 0,
{
    match s {
        Some(t) => lemma_ops_tokens_one(f(t), k),
        None => {},
    }
}

proof fn lemma_tokens_blocks(bs: Seq<Json>, k: TokenKind)
    ensures
        ops_tokens(blocks_ops(bs), k) == 0,
    decreases bs.len(),
{
    if bs.len() > 0 {
        lemma_tokens_blocks(bs.drop_last(), k);
        let b = bs.last();
        let kind = match str_member(b, "type"@) {
            Some(x) => x,
            None => "unknown"@,
        };
        let head = seq![OpView::Bump(StatKey::ContentKinds, kind)];
        let tail = if kind == "tool_use"@ {
            opt_op(str_member(b, "name"@), |n: Seq<char>| OpView::Bump(StatKey::Tools, n))
        } else if kind == "tool_result"@ && bool_member(b, "is_error"@) == Some(true) {
            seq![OpView::Bump(StatKey::ToolErrors, "(unnamed)"@)]
        } else {
            Seq::empty()
        };
        lemma_ops_tokens_one(OpView::Bump(StatKey::ContentKinds, kind), k);
        lemma_tokens_opt(str_member(b, "name"@), |n: Seq<char>| OpView::Bump(StatKey::Tools, n), k);
        lemma_ops_tokens_one(OpView::Bump(StatKey::ToolErrors, "(unnamed)"@), k);
        lemma_ops_tokens_append(head, tail, k);
        assert(block_ops(b) == head + tail);
        lemma_ops_tokens_append(blocks_ops(bs.drop_last()), block_ops(b), k);
    }
}

/// A token count that a usage object gives for `key`: the count where it
/// is a `u64`, else none.
pub open spec fn usage_count(u: Json, key: Seq<char>) -> int {
    match u64_member(u, key) {
        Some(n) => n as int,
        None => 0,
    }
}

/// The amount a kind of token has in a usage object.
pub open spec fn usage_amount(u: Json, k: TokenKind) -> int {
    match k {
        TokenKind::Input => usage_count(u, "input_tokens"@),
        TokenKind::Output => usage_count(u, "output_tokens"@),
        TokenKind::CacheCreation => usage_count(u, "cache_creation_input_tokens"@),
        TokenKind::CacheRead => usage_count(u, "cache_read_input_tokens"@),
    }
}

proof fn lemma_tokens_message(msg: Json, k: TokenKind)
    ensures
        ops_tokens(message_ops(msg), k) == match msg.get("usage"@) {
            Some(u) => if u.is_object() {
                usage_amount(u, k)
            } else {
                0
            },
            None => 0,
        },
{
    let models = opt_op(str_member(msg, "model"@), |m: Seq<char>| OpView::Bump(StatKey::Models, m));
    lemma_tokens_opt(str_member(msg, "model"@), |m: Seq<char>| OpView::Bump(StatKey::Models, m), k);
    let tokens = match msg.get("usage"@) {
        Some(u) => if u.is_object() {
            seq![
                OpView::AddTokens(TokenKind::Input, tokens_of(u, "input_tokens"@)),
                OpView::AddTokens(TokenKind::Output, tokens_of(u, "output_tokens"@)),
                OpView::AddTokens(TokenKind::CacheCreation, tokens_of(u, "cache_creation_input_tokens"@)),
                OpView::AddTokens(TokenKind::CacheRead, tokens_of(u, "cache_read_input_tokens"@)),
            ]
        } else {
            Seq::empty()
        },
        None => Seq::empty(),
    };
    match msg.get("usage"@) {
        Some(u) => if u.is_object() {
            let a = OpView::AddTokens(TokenKind::Input, tokens_of(u, "input_tokens"@));
            let b = OpView::AddTokens(TokenKind::Output, tokens_of(u, "output_tokens"@));
            let c = OpView::AddTokens(TokenKind::CacheCreation, tokens_of(u, "cache_creation_input_tokens"@));
            let d = OpView::AddTokens(TokenKind::CacheRead, tokens_of(u, "cache_read_input_tokens"@));
            assert(tokens =~= seq![a] + seq![b] + seq![c] + seq![d]);
            lemma_ops_tokens_one(a, k);
            lemma_ops_tokens_one(b, k);
            lemma_ops_tokens_one(c, k);
            lemma_ops_tokens_one(d, k);
            lemma_ops_tokens_append(seq![a], seq![b], k);
            lemma_ops_tokens_append(seq![a] + seq![b], seq![c], k);
            lemma_ops_tokens_append(seq![a] + seq![b] + seq![c], seq![d], k);
        },
        None => {},
    }
    let content = content_ops(msg);
    assert(ops_tokens(content, k) == 0) by {
        match msg.get("content"@) {
            Some(Json::Array(blocks)) => lemma_tokens_blocks(blocks, k),
            Some(Json::Str(_)) => lemma_ops_tokens_one(OpView::Bump(StatKey::ContentKinds, "text"@), k),
            _ => {},
        }
    }
    lemma_ops_tokens_append(models, tokens, k);
    lemma_ops_tokens_append(models + tokens, content, k);
    assert(message_ops(msg) == models + tokens + content);
}

proof fn lemma_run_tokens(st: StatsView, ops: Seq<OpView>)
    ensures
        run_ops(st, ops) matches Some(s) ==> forall|k: TokenKind| #[trigger] token_total(s, k) == token_total(st, k)
            + ops_tokens(ops, k),
    decreases ops.len(),
{
    if ops.len() > 0 && op_fits(st, ops[0]) {
        let s1 = apply_op(st, ops[0]);
        lemma_run_tokens(s1, ops.drop_first());
        assert forall|k: TokenKind| #[trigger] token_total(s1, k) == token_total(st, k) + (match ops[0] {
            OpView::AddTokens(k2, n) => if k2 == k {
                n as int
            } else {
                0
            },
            _ => 0,
        }) by {}
    }
}

/// Taking a user or assistant line whose message has a usage object adds
/// that object's input tokens to the input total, its output tokens to the
/// output total, and each cache count to its own total.
pub proof fn law_usage_adds_tokens(st: StatsView, line: Seq<char>, o: Json, msg: Json, u: Json)
    requires
        json_parse_result(line) == Some(o),
        o.is_object(),
        str_member(o, "type"@) == Some("user"@) || str_member(o, "type"@) == Some("assistant"@),
        o.get("message"@) == Some(msg),
        msg.get("usage"@) == Some(u),
        u.is_object(),
        run_ops(st, update_ops(line)) is Some,
    ensures
        ({
            let s = run_ops(st, update_ops(line))->Some_0;
            &&& s.input_tokens == st.input_tokens + usage_count(u, "input_tokens"@)
            &&& s.output_tokens == st.output_tokens + usage_count(u, "output_tokens"@)
            &&& s.cache_creation_tokens == st.cache_creation_tokens + usage_count(u, "cache_creation_input_tokens"@)
            &&& s.cache_read_tokens == st.cache_read_tokens + usage_count(u, "cache_read_input_tokens"@)
        }),
{
    lemma_stat_line_names();
    let ops = update_ops(line);
    lemma_run_tokens(st, ops);
    assert forall|k: TokenKind| #[trigger] ops_tokens(ops, k) == usage_amount(u, k) by {
        let head = seq![OpView::CountLine];
        let u0 = unknown_key_ops(members_of(o));
        let t = seq![OpView::Bump(StatKey::Types, type_of(o))];
        let se = opt_op(str_member(o, "sessionId"@), |s: Seq<char>| OpView::NoteSession(s));
        let c = opt_op(str_member(o, "cwd"@), |s: Seq<char>| OpView::NoteCwd(s));
        let tm = time_op(o);
        let b = branch_op(o);
        let v = opt_op(str_member(o, "version"@), |v: Seq<char>| OpView::Bump(StatKey::Versions, v));
        let sc = sidechain_op(o);
        let kd = kind_ops(type_of(o), o);
        assert(kd == message_ops(msg));
        lemma_tokens_message(msg, k);
        assert(ops == head + (u0 + t + se + c + tm + (b + v + sc + kd)));
        lemma_ops_tokens_one(OpView::CountLine, k);
        lemma_tokens_unknown(members_of(o), k);
        lemma_ops_tokens_one(OpView::Bump(StatKey::Types, type_of(o)), k);
        lemma_tokens_opt(str_member(o, "sessionId"@), |s: Seq<char>| OpView::NoteSession(s), k);
        lemma_tokens_opt(str_member(o, "cwd"@), |s: Seq<char>| OpView::NoteCwd(s), k);
        match str_member(o, "timestamp"@) {
            Some(ts) => match utc_instant_of(ts) {
                Some(i) => lemma_ops_tokens_one(OpView::NoteTime(i), k),
                None => {},
            },
            None => {},
        }
        match str_member(o, "gitBranch"@) {
            Some(x) => if x.len() > 0 {
                lemma_ops_tokens_one(OpView::Bump(StatKey::GitBranches, x), k);
            },
            None => {},
        }
        lemma_tokens_opt(str_member(o, "version"@), |v: Seq<char>| OpView::Bump(StatKey::Versions, v), k);
        if bool_member(o, "isSidechain"@) == Some(true) {
            lemma_ops_tokens_one(OpView::CountSidechain, k);
        }
        lemma_ops_tokens_append(u0, t, k);
        lemma_ops_tokens_append(u0 + t, se, k);
        lemma_ops_tokens_append(u0 + t + se, c, k);
        lemma_ops_tokens_append(u0 + t + se + c, tm, k);
        lemma_ops_tokens_append(b, v, k);
        lemma_ops_tokens_append(b + v, sc, k);
        lemma_ops_tokens_append(b + v + sc, kd, k);
        lemma_ops_tokens_append(u0 + t + se + c + tm, b + v + sc + kd, k);
        lemma_ops_tokens_append(head, u0 + t + se + c + tm + (b + v + sc + kd), k);
    }
    let s = run_ops(st, ops)->Some_0;
    assert(token_total(s, TokenKind::Input) == token_total(st, TokenKind::Input) + ops_tokens(ops, TokenKind::Input));
    assert(token_total(s, TokenKind::Output) == token_total(st, TokenKind::Output) + ops_tokens(ops, TokenKind::Output));
    assert(token_total(s, TokenKind::CacheCreation) == token_total(st, TokenKind::CacheCreation) + ops_tokens(
        ops,
        TokenKind::CacheCreation,
    ));
    assert(token_total(s, TokenKind::CacheRead) == token_total(st, TokenKind::CacheRead) + ops_tokens(
        ops,
        TokenKind::CacheRead,
    ));
}

proof fn lemma_stat_line_names()
    ensures
        "user"@ != "ai-title"@, "user"@ != "summary"@, "user"@ != "permission-mode"@, "user"@ != "attachment"@,
        "assistant"@ != "ai-title"@, "assistant"@ != "summary"@, "assistant"@ != "permission-mode"@,
        "assistant"@ != "attachment"@,
{
    reveal_strlit("user");
    reveal_strlit("assistant");
    reveal_strlit("ai-title");
    reveal_strlit("summary");
    reveal_strlit("permission-mode");
    reveal_strlit("attachment");
    assert("user"@.len() != "ai-title"@.len());
    assert("user"@.len() != "summary"@.len());
    assert("user"@.len() != "permission-mode"@.len());
    assert("user"@[0] != "attachment"@[0]);
    assert("assistant"@.len() != "ai-title"@.len());
    assert("assistant"@.len() != "summary"@.len());
    assert("assistant"@.len() != "permission-mode"@.len());
    assert("assistant"@[1] != "attachment"@[1]);
}

} // verus!
