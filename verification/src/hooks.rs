use vstd::prelude::*;

use crate::install::hook_events;
use crate::json::str_eq;
use crate::text::push_str;
use crate::types::{opt_chars, HookPayload};

verus! {

// ---------------------------------------------------------------------------
// Who may post to the hook endpoints
// ---------------------------------------------------------------------------

/// The `Authorization` header a request must carry.
pub open spec fn bearer(token: Seq<char>) -> Seq<char> {
    "Bearer "@ + token
}

/// Whether a request's `Authorization` header (absent, or not readable as
/// text, counts as empty) carries the server's token.
pub fn is_authorized(header: Option<&str>, token: &str) -> (r: bool)
    ensures
        r == (match header {
            Some(h) => h@,
            None => ""@,
        } == bearer(token@)),
{
    let mut expected = "Bearer ".to_owned();
    push_str(&mut expected, token);
    match header {
        Some(h) => str_eq(h, expected.as_str()),
        None => str_eq("", expected.as_str()),
    }
}

// ---------------------------------------------------------------------------
// The hook endpoints
// ---------------------------------------------------------------------------

/// The hooks the server answers.
#[derive(Debug, Clone, Copy, PartialEq, Eq, Structural)]
pub enum HookKind {
    SessionStart,
    UserPromptSubmit,
    Stop,
    SessionEnd,
}

/// The endpoint name of a hook (served under `/hooks/`).
pub open spec fn endpoint_name(k: HookKind) -> Seq<char> {
    match k {
        HookKind::SessionStart => "session-start"@,
        HookKind::UserPromptSubmit => "user-prompt-submit"@,
        HookKind::Stop => "stop"@,
        HookKind::SessionEnd => "session-end"@,
    }
}

/// The hook served under an endpoint name.
pub open spec fn kind_of_endpoint(name: Seq<char>) -> Option<HookKind> {
    if name == "session-start"@ {
        Some(HookKind::SessionStart)
    } else if name == "user-prompt-submit"@ {
        Some(HookKind::UserPromptSubmit)
    } else if name == "stop"@ {
        Some(HookKind::Stop)
    } else if name == "session-end"@ {
        Some(HookKind::SessionEnd)
    } else {
        None
    }
}

impl HookKind {
    /// The endpoint name of the hook.
    pub fn endpoint(&self) -> (r: &'static str)
        ensures
            r@ == endpoint_name(*self),
    {
        match self {
            HookKind::SessionStart => "session-start",
            HookKind::UserPromptSubmit => "user-prompt-submit",
            HookKind::Stop => "stop",
            HookKind::SessionEnd => "session-end",
        }
    }
}

/// The hook served under an endpoint name (see [`kind_of_endpoint`]).
pub fn hook_kind_of(name: &str) -> (r: Option<HookKind>)
    ensures
        r == kind_of_endpoint(name@),
{
    if str_eq(name, "session-start") {
        Some(HookKind::SessionStart)
    } else if str_eq(name, "user-prompt-submit") {
        Some(HookKind::UserPromptSubmit)
    } else if str_eq(name, "stop") {
        Some(HookKind::Stop)
    } else if str_eq(name, "session-end") {
        Some(HookKind::SessionEnd)
    } else {
        None
    }
}

/// Every hook that installing writes into the settings posts to an
/// endpoint the server answers, and each endpoint names its hook back.
pub proof fn law_installed_hooks_are_served()
    ensures
        forall|k: int| 0 <= k < hook_events().len() ==> (#[trigger] kind_of_endpoint(hook_events()[k].1)) is Some,
        forall|h: HookKind| kind_of_endpoint(#[trigger] endpoint_name(h)) == Some(h),
{
    reveal_strlit("session-start");
    reveal_strlit("user-prompt-submit");
    reveal_strlit("stop");
    reveal_strlit("session-end");
    assert("session-start"@.len() == 13);
    assert("user-prompt-submit"@.len() == 18);
    assert("stop"@.len() == 4);
    assert("session-end"@.len() == 11);
    assert forall|k: int| 0 <= k < hook_events().len() implies (#[trigger] kind_of_endpoint(hook_events()[k].1)) is Some by {
        assert(k == 0 || k == 1 || k == 2 || k == 3);
    }
}

// ---------------------------------------------------------------------------
// What each hook does
// ---------------------------------------------------------------------------

/// One piece of work a hook asks for.
#[derive(Debug, Clone)]
pub enum HookAction {
    /// Create or touch the session row a hook announces.
    UpsertSession { session_id: String, jsonl_path: String, cwd: String },
    /// Queue the transcript for reading at once.
    Refresh(String),
    /// Read the transcript now, where the file exists.
    ProcessNow(String),
    /// Mark the session ended.
    MarkEnded(String),
}

/// The view of a [`HookAction`].
pub enum ActionView {
    UpsertSession { session_id: Seq<char>, jsonl_path: Seq<char>, cwd: Seq<char> },
    Refresh(Seq<char>),
    ProcessNow(Seq<char>),
    MarkEnded(Seq<char>),
}

pub open spec fn action_view(a: HookAction) -> ActionView {
    match a {
        HookAction::UpsertSession { session_id, jsonl_path, cwd } => ActionView::UpsertSession {
            session_id: session_id@,
            jsonl_path: jsonl_path@,
            cwd: cwd@,
        },
        HookAction::Refresh(p) => ActionView::Refresh(p@),
        HookAction::ProcessNow(p) => ActionView::ProcessNow(p@),
        HookAction::MarkEnded(s) => ActionView::MarkEnded(s@),
    }
}

pub open spec fn actions_view(v: Seq<HookAction>) -> Seq<ActionView> {
    Seq::new(v.len(), |i: int| action_view(v[i]))
}

pub open spec fn or_text(s: Option<Seq<char>>, dflt: Seq<char>) -> Seq<char> {
    match s {
        Some(t) => t,
        None => dflt,
    }
}

/// The work a hook asks for.
/// - session start: the session row, then, where a transcript is named,
///   a refresh of it;
/// - prompt submitted: a refresh of the transcript, where one is named;
/// - stop: where a transcript is named, reading it now, then a refresh;
/// - session end: marking the session ended.
pub open spec fn hook_plan(kind: HookKind, session_id: Option<Seq<char>>, path: Option<Seq<char>>, cwd: Option<Seq<char>>) -> Seq<ActionView> {
    let sid = or_text(session_id, "unknown"@);
    match kind {
        HookKind::SessionStart => {
            let p = or_text(path, Seq::empty());
            let up = ActionView::UpsertSession { session_id: sid, jsonl_path: p, cwd: or_text(cwd, Seq::empty()) };
            if p.len() > 0 {
                seq![up, ActionView::Refresh(p)]
            } else {
                seq![up]
            }
        },
        HookKind::UserPromptSubmit => match path {
            Some(p) => seq![ActionView::Refresh(p)],
            None => Seq::empty(),
        },
        HookKind::Stop => match path {
            Some(p) => seq![ActionView::ProcessNow(p), ActionView::Refresh(p)],
            None => Seq::empty(),
        },
        HookKind::SessionEnd => seq![ActionView::MarkEnded(sid)],
    }
}

fn text_or(s: &Option<String>, dflt: &str) -> (r: String)
    ensures
        r@ == or_text(opt_chars(*s), dflt@),
{
    match s {
        Some(t) => t.clone(),
        None => dflt.to_owned(),
    }
}

/// The work a hook asks for (see [`hook_plan`]).
pub fn plan_hook(kind: HookKind, payload: &HookPayload) -> (r: Vec<HookAction>)
    ensures
        actions_view(r@) == hook_plan(
            kind,
            opt_chars(payload.session_id),
            opt_chars(payload.transcript_path),
            opt_chars(payload.cwd),
        ),
{
    let mut out: Vec<HookAction> = Vec::new();
    proof {
        reveal_strlit("");
    }
    match kind {
        HookKind::SessionStart => {
            let sid = text_or(&payload.session_id, "unknown");
            let path = text_or(&payload.transcript_path, "");
            let cwd = text_or(&payload.cwd, "");
            let refresh = path.unicode_len() > 0;
            let again = path.clone();
            assert(""@ == Seq::<char>::empty());
            assert(path@ == or_text(opt_chars(payload.transcript_path), Seq::empty()));
            assert(refresh == (path@.len() > 0));
            out.push(HookAction::UpsertSession { session_id: sid, jsonl_path: path, cwd });
            if refresh {
                out.push(HookAction::Refresh(again));
            }
            assert(actions_view(out@) =~= hook_plan(
                kind,
                opt_chars(payload.session_id),
                opt_chars(payload.transcript_path),
                opt_chars(payload.cwd),
            ));
        },
        HookKind::UserPromptSubmit => {
            match &payload.transcript_path {
                Some(p) => out.push(HookAction::Refresh(p.clone())),
                None => {},
            }
            assert(actions_view(out@) =~= hook_plan(
                kind,
                opt_chars(payload.session_id),
                opt_chars(payload.transcript_path),
                opt_chars(payload.cwd),
            ));
        },
        HookKind::Stop => {
            match &payload.transcript_path {
                Some(p) => {
                    out.push(HookAction::ProcessNow(p.clone()));
                    out.push(HookAction::Refresh(p.clone()));
                },
                None => {},
            }
            assert(actions_view(out@) =~= hook_plan(
                kind,
                opt_chars(payload.session_id),
                opt_chars(payload.transcript_path),
                opt_chars(payload.cwd),
            ));
        },
        HookKind::SessionEnd => {
            out.push(HookAction::MarkEnded(text_or(&payload.session_id, "unknown")));
            assert(actions_view(out@) =~= hook_plan(
                kind,
                opt_chars(payload.session_id),
                opt_chars(payload.transcript_path),
                opt_chars(payload.cwd),
            ));
        },
    }
    out
}

} // verus!
