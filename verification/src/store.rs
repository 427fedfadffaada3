use vstd::prelude::*;

use crate::json::str_eq;
use crate::paths::{file_name, file_name_of};
use crate::parser::{line_outcome, merged};
use crate::types::{opt_chars, MetaView, SessionMeta};

verus! {

// ---------------------------------------------------------------------------
// What is written to the sessions table
// ---------------------------------------------------------------------------

/// The values bound to the upsert of one session row.
#[derive(Debug, Clone)]
pub struct SessionUpsert {
    pub id: String,
    pub cwd: String,
    pub project_name: String,
    pub ai_title: Option<String>,
    pub summary: Option<String>,
    pub started_at: i64,
    pub last_event_at: i64,
    pub jsonl_path: String,
    pub input_tokens: i64,
    pub output_tokens: i64,
    pub cache_creation_tokens: i64,
    pub cache_read_tokens: i64,
    pub model: Option<String>,
    pub cli_version: Option<String>,
    pub git_branch: Option<String>,
    pub permission_mode: Option<String>,
    pub total_events: i64,
    pub hook_success_count: i64,
    pub hook_error_count: i64,
}

/// The session id a row is stored under: the id given by the caller (the
/// transcript's file name) unless it is empty or `unknown`, then the id the
/// transcript names, then `unknown`.
pub open spec fn session_key(meta: MetaView, override_id: Seq<char>) -> Seq<char> {
    if override_id.len() > 0 && override_id != "unknown"@ {
        override_id
    } else {
        match meta.session_id {
            Some(s) => s,
            None => "unknown"@,
        }
    }
}

/// The project a working directory names: its last component, or nothing.
pub open spec fn project_of(cwd_name: Option<Seq<char>>) -> Seq<char> {
    match cwd_name {
        Some(n) => n,
        None => Seq::empty(),
    }
}

/// The text of an optional value, or the empty text.
pub open spec fn text_or_empty(s: Option<Seq<char>>) -> Seq<char> {
    match s {
        Some(t) => t,
        None => Seq::empty(),
    }
}

/// The upsert row for merged session facts, where `cwd_name` is the last
/// component of the working directory and `now_ms` the time of the write.
pub open spec fn upsert_ok(
    r: SessionUpsert,
    meta: MetaView,
    jsonl_path: Seq<char>,
    override_id: Seq<char>,
    cwd_name: Option<Seq<char>>,
    now_ms: i64,
) -> bool {
    &&& r.id@ == session_key(meta, override_id)
    &&& r.cwd@ == text_or_empty(meta.cwd)
    &&& r.project_name@ == match meta.project_name {
        Some(p) => p,
        None => project_of(cwd_name),
    }
    &&& opt_chars(r.ai_title) == meta.ai_title
    &&& opt_chars(r.summary) == meta.summary
    &&& r.started_at == match meta.started_at {
        Some(t) => t,
        None => now_ms,
    }
    &&& r.last_event_at == match meta.last_event_at {
        Some(t) => t,
        None => now_ms,
    }
    &&& r.jsonl_path@ == jsonl_path
    &&& r.input_tokens == meta.input_tokens_delta
    &&& r.output_tokens == meta.output_tokens_delta
    &&& r.cache_creation_tokens == meta.cache_creation_delta
    &&& r.cache_read_tokens == meta.cache_read_delta
    &&& opt_chars(r.model) == meta.model
    &&& opt_chars(r.cli_version) == meta.cli_version
    &&& opt_chars(r.git_branch) == meta.git_branch
    &&& opt_chars(r.permission_mode) == meta.permission_mode
    &&& r.total_events == meta.event_count as i64
    &&& r.hook_success_count == meta.hook_success_delta
    &&& r.hook_error_count == meta.hook_error_delta
}

fn copy_opt(s: &Option<String>) -> (r: Option<String>)
    ensures
        opt_chars(r) == opt_chars(*s),
{
    match s {
        Some(t) => Some(t.clone()),
        None => None,
    }
}

/// The session id a row is stored under (see [`session_key`]).
pub fn session_key_of(meta: &SessionMeta, override_id: &str) -> (r: String)
    ensures
        r@ == session_key(meta@, override_id@),
{
    if override_id.unicode_len() > 0 && !str_eq(override_id, "unknown") {
        override_id.to_owned()
    } else {
        match &meta.session_id {
            Some(s) => s.clone(),
            None => "unknown".to_owned(),
        }
    }
}

/// The upsert row for merged session facts, given the last component of
/// the working directory.
pub fn session_upsert_with(
    meta: &SessionMeta,
    jsonl_path: &str,
    override_id: &str,
    cwd_name: Option<String>,
    now_ms: i64,
) -> (r: SessionUpsert)
    ensures
        upsert_ok(r, meta@, jsonl_path@, override_id@, opt_chars(cwd_name), now_ms),
{
    let project_name = match &meta.project_name {
        Some(p) => p.clone(),
        None => match cwd_name {
            Some(n) => n,
            None => String::new(),
        },
    };
    SessionUpsert {
        id: session_key_of(meta, override_id),
        cwd: match &meta.cwd {
            Some(c) => c.clone(),
            None => String::new(),
        },
        project_name,
        ai_title: copy_opt(&meta.ai_title),
        summary: copy_opt(&meta.summary),
        started_at: match meta.started_at {
            Some(t) => t,
            None => now_ms,
        },
        last_event_at: match meta.last_event_at {
            Some(t) => t,
            None => now_ms,
        },
        jsonl_path: jsonl_path.to_owned(),
        input_tokens: meta.input_tokens_delta,
        output_tokens: meta.output_tokens_delta,
        cache_creation_tokens: meta.cache_creation_delta,
        cache_read_tokens: meta.cache_read_delta,
        model: copy_opt(&meta.model),
        cli_version: copy_opt(&meta.cli_version),
        git_branch: copy_opt(&meta.git_branch),
        permission_mode: copy_opt(&meta.permission_mode),
        total_events: meta.event_count as i64,
        hook_success_count: meta.hook_success_delta,
        hook_error_count: meta.hook_error_delta,
    }
}

/// The upsert row for merged session facts, written at `now_ms`: the
/// project name falls back on the last component of the working directory.
pub fn session_upsert(meta: &SessionMeta, jsonl_path: &str, override_id: &str, now_ms: i64) -> (r: SessionUpsert)
    ensures
        upsert_ok(r, meta@, jsonl_path@, override_id@, file_name_of(text_or_empty(meta@.cwd)), now_ms),
{
    let cwd = match &meta.cwd {
        Some(c) => c.as_str(),
        None => "",
    };
    proof {
        reveal_strlit("");
    }
    assert(cwd@ == text_or_empty(meta@.cwd));
    let name = file_name(cwd);
    session_upsert_with(meta, jsonl_path, override_id, name, now_ms)
}

/// The project name stored for a session a hook announces: the last
/// component of its working directory, or nothing.
pub fn project_name_of(cwd: &str) -> (r: String)
    ensures
        r@ == project_of(file_name_of(cwd@)),
{
    match file_name(cwd) {
        Some(n) => n,
        None => String::new(),
    }
}

// ---------------------------------------------------------------------------
// Counting the events a batch stored
// ---------------------------------------------------------------------------

/// How many inserts changed exactly one row.
pub open spec fn stored_count(rows: Seq<usize>) -> nat
    decreases rows.len(),
{
    if rows.len() == 0 {
        0
    } else {
        stored_count(rows.drop_last()) + if rows.last() == 1 { 1nat } else { 0nat }
    }
}

proof fn lemma_stored_count_bound(rows: Seq<usize>)
    ensures
        stored_count(rows) <= rows.len(),
    decreases rows.len(),
{
    if rows.len() > 0 {
        lemma_stored_count_bound(rows.drop_last());
    }
}

/// Tallies the rows each insert changed: inserted (one row) and skipped as
/// duplicates (none), which together count every insert.
pub fn insert_tally(rows: &[usize]) -> (r: (usize, usize))
    ensures
        r.0 == stored_count(rows@),
        r.0 + r.1 == rows@.len(),
{
    let mut inserted: usize = 0;
    let mut dups: usize = 0;
    let mut i: usize = 0;
    while i < rows.len()
        invariant
            i <= rows@.len(),
            inserted == stored_count(rows@.take(i as int)),
            inserted + dups == i,
        decreases rows@.len() - i,
    {
        assert(rows@.take(i + 1).drop_last() =~= rows@.take(i as int));
        if rows[i] == 1 {
            inserted = inserted + 1;
        } else {
            dups = dups + 1;
        }
        i = i + 1;
    }
    assert(rows@.take(i as int) =~= rows@);
    (inserted, dups)
}

// ---------------------------------------------------------------------------
// The read cursor of a transcript
// ---------------------------------------------------------------------------

/// The cursor stored for a session, or the start of the file where the
/// session has no row yet.
pub fn cursor_or_start(row: Option<(i64, Option<i64>)>) -> (r: (i64, Option<i64>))
    ensures
        r == match row {
            Some(c) => c,
            None => (0i64, None::<i64>),
        },
{
    match row {
        Some(c) => c,
        None => (0, None),
    }
}

/// The values stored as the cursor after a read: the offset reached and the
/// file's inode, both as SQLite integers (cast as the driver is handed them).
pub fn cursor_values(new_offset: u64, inode: Option<u64>) -> (r: (i64, Option<i64>))
    ensures
        r.0 == new_offset as i64,
        r.1 == match inode {
            Some(i) => Some(i as i64),
            None => None::<i64>,
        },
{
    (new_offset as i64, match inode {
        Some(i) => Some(i as i64),
        None => None,
    })
}

// ---------------------------------------------------------------------------
// What the session row carries
// ---------------------------------------------------------------------------

/// A token count of an event, or nothing.
pub open spec fn or_zero(n: Option<i64>) -> int {
    match n {
        Some(k) => k as int,
        None => 0,
    }
}

/// The row stored for the session facts of one line carries the event's
/// token counts, each in its own column (input as input, output as
/// output, and each cache count as itself), counts one event, and names
/// the line's title and summary.
pub proof fn law_upsert_of_line(
    line: Seq<char>,
    r: SessionUpsert,
    jsonl_path: Seq<char>,
    override_id: Seq<char>,
    cwd_name: Option<Seq<char>>,
    now_ms: i64,
)
    requires
        line_outcome(line) is Ok,
        upsert_ok(r, line_outcome(line)->Ok_0.1, jsonl_path, override_id, cwd_name, now_ms),
    ensures
        ({
            let ev = line_outcome(line)->Ok_0.0;
            let m = line_outcome(line)->Ok_0.1;
            &&& r.input_tokens == or_zero(ev.input_tokens)
            &&& r.output_tokens == or_zero(ev.output_tokens)
            &&& r.cache_creation_tokens == or_zero(ev.cache_creation_tokens)
            &&& r.cache_read_tokens == or_zero(ev.cache_read_tokens)
            &&& r.total_events == 1
            &&& opt_chars(r.ai_title) == m.ai_title
            &&& opt_chars(r.summary) == m.summary
            &&& r.jsonl_path@ == jsonl_path
        }),
{
}

/// The row stored for the facts of two runs merged carries, in each
/// count column, the sum of the two runs' counts (input with input, output
/// with output, each cache count with itself, events, hook outcomes); its
/// title and summary are the second run's where it has one, else the
/// first's.
pub proof fn law_upsert_of_merged(
    r: SessionUpsert,
    a: MetaView,
    b: MetaView,
    jsonl_path: Seq<char>,
    override_id: Seq<char>,
    cwd_name: Option<Seq<char>>,
    now_ms: i64,
)
    requires
        upsert_ok(r, merged(a, b), jsonl_path, override_id, cwd_name, now_ms),
        0 <= a.event_count + b.event_count <= i64::MAX,
    ensures
        r.input_tokens == a.input_tokens_delta + b.input_tokens_delta,
        r.output_tokens == a.output_tokens_delta + b.output_tokens_delta,
        r.cache_creation_tokens == a.cache_creation_delta + b.cache_creation_delta,
        r.cache_read_tokens == a.cache_read_delta + b.cache_read_delta,
        r.total_events == a.event_count + b.event_count,
        r.hook_success_count == a.hook_success_delta + b.hook_success_delta,
        r.hook_error_count == a.hook_error_delta + b.hook_error_delta,
        opt_chars(r.ai_title) == (if b.ai_title is Some { b.ai_title } else { a.ai_title }),
        opt_chars(r.summary) == (if b.summary is Some { b.summary } else { a.summary }),
        opt_chars(r.model) == (if b.model is Some { b.model } else { a.model }),
{
}

} // verus!
