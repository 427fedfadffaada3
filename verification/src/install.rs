use vstd::prelude::*;

use crate::json::{
    bool_member, find_member, items_view, last_index_of, lemma_array_view, lemma_last_index,
    json_parse_result, json_pretty_text, json_to_pretty_text, lemma_object_view, members_view,
    member_value, parse_json, put_member, str_eq, Json, JsonNumber, JsonValue, Num,
};
use crate::text::{decimal, push_decimal, push_str};

verus! {

// ---------------------------------------------------------------------------
// The hook entries written into the settings
// ---------------------------------------------------------------------------

/// The member that marks an entry as one of this tool's.
pub open spec fn marker() -> Seq<char> {
    "_c2_tracker"@
}

/// The address a hook posts to.
pub open spec fn hook_url(port: u16, endpoint: Seq<char>) -> Seq<char> {
    "http://127.0.0.1:"@ + decimal(port as nat) + "/hooks/"@ + endpoint
}

/// An HTTP hook entry (the assistant at 2.0 and later), members in the order
/// they are written, the marker last.
pub open spec fn http_hook(port: u16, endpoint: Seq<char>) -> Json {
    Json::Object(
        seq![
            ("type"@, Json::Str("http"@)),
            ("url"@, Json::Str(hook_url(port, endpoint))),
            ("headers"@, Json::Object(seq![("Authorization"@, Json::Str("Bearer ${CT_TOKEN}"@))])),
            ("allowedEnvVars"@, Json::Array(seq![Json::Str("CT_TOKEN"@)])),
            ("timeout"@, Json::Number(Num::PosInt(5))),
            (marker(), Json::Bool(true)),
        ],
    )
}

/// The shell command of a command hook: it posts its input with `curl`.
pub open spec fn hook_command(port: u16, endpoint: Seq<char>) -> Seq<char> {
    "source ~/.c2-tracker/env && curl -s -X POST -H \"Authorization: Bearer $CT_TOKEN\" -H 'Content-Type: application/json' --max-time 5 "@
        + hook_url(port, endpoint) + " -d @-"@
}

/// A command hook entry (the fallback for the assistant before 2.0).
pub open spec fn command_hook(port: u16, endpoint: Seq<char>) -> Json {
    Json::Object(
        seq![
            ("type"@, Json::Str("command"@)),
            ("command"@, Json::Str(hook_command(port, endpoint))),
            (marker(), Json::Bool(true)),
        ],
    )
}

fn owned(s: &str) -> (r: String)
    ensures
        r@ == s@,
{
    s.to_owned()
}

fn url_text(port: u16, endpoint: &str) -> (r: String)
    ensures
        r@ == hook_url(port, endpoint@),
{
    let mut url = String::new();
    push_str(&mut url, "http://127.0.0.1:");
    push_decimal(&mut url, port as u64);
    push_str(&mut url, "/hooks/");
    push_str(&mut url, endpoint);
    assert(url@ =~= hook_url(port, endpoint@));
    url
}

/// The HTTP hook entry for one endpoint.
pub fn build_http_hook(port: u16, endpoint: &str) -> (r: JsonValue)
    ensures
        r@ == http_hook(port, endpoint@),
{
    let mut headers: Vec<(String, JsonValue)> = Vec::new();
    headers.push((owned("Authorization"), JsonValue::Str(owned("Bearer ${CT_TOKEN}"))));
    let mut env: Vec<JsonValue> = Vec::new();
    env.push(JsonValue::Str(owned("CT_TOKEN")));
    let mut ms: Vec<(String, JsonValue)> = Vec::new();
    ms.push((owned("type"), JsonValue::Str(owned("http"))));
    ms.push((owned("url"), JsonValue::Str(url_text(port, endpoint))));
    ms.push((owned("headers"), JsonValue::Object(headers)));
    ms.push((owned("allowedEnvVars"), JsonValue::Array(env)));
    ms.push((owned("timeout"), JsonValue::Number(JsonNumber::PosInt(5))));
    ms.push((owned("_c2_tracker"), JsonValue::Bool(true)));
    proof {
        lemma_object_view(headers);
        lemma_array_view(env);
        lemma_object_view(ms);
        assert(members_view(headers@) =~= seq![("Authorization"@, Json::Str("Bearer ${CT_TOKEN}"@))]);
        assert(items_view(env@) =~= seq![Json::Str("CT_TOKEN"@)]);
        assert(members_view(ms@) =~= http_hook(port, endpoint@)->Object_0);
    }
    JsonValue::Object(ms)
}

/// The command hook entry for one endpoint.
pub fn build_command_hook(port: u16, endpoint: &str) -> (r: JsonValue)
    ensures
        r@ == command_hook(port, endpoint@),
{
    let mut cmd = String::new();
    push_str(
        &mut cmd,
        "source ~/.c2-tracker/env && curl -s -X POST -H \"Authorization: Bearer $CT_TOKEN\" -H 'Content-Type: application/json' --max-time 5 ",
    );
    let url = url_text(port, endpoint);
    push_str(&mut cmd, url.as_str());
    push_str(&mut cmd, " -d @-");
    assert(cmd@ =~= hook_command(port, endpoint@));
    let mut ms: Vec<(String, JsonValue)> = Vec::new();
    ms.push((owned("type"), JsonValue::Str(owned("command"))));
    ms.push((owned("command"), JsonValue::Str(cmd)));
    ms.push((owned("_c2_tracker"), JsonValue::Bool(true)));
    proof {
        lemma_object_view(ms);
        assert(members_view(ms@) =~= command_hook(port, endpoint@)->Object_0);
    }
    JsonValue::Object(ms)
}

// ---------------------------------------------------------------------------
// Finding this tool's entries among the hooks
// ---------------------------------------------------------------------------

/// A hook entry that carries the marker set to `true`.
pub open spec fn is_marked(hook: Json) -> bool {
    bool_member(hook, marker()) == Some(true)
}

/// A matcher whose `hooks` list holds a marked entry.
pub open spec fn matcher_marked(m: Json) -> bool {
    match m.get("hooks"@) {
        Some(Json::Array(hooks)) => exists|k: int| 0 <= k < hooks.len() && is_marked(#[trigger] hooks[k]),
        _ => false,
    }
}

/// An event's list of matchers, one of them marked.
pub open spec fn event_marked(e: Json) -> bool {
    match e {
        Json::Array(ms) => exists|j: int| 0 <= j < ms.len() && matcher_marked(#[trigger] ms[j]),
        _ => false,
    }
}

/// Whether the `hooks` object holds an entry of this tool's under any event.
pub open spec fn has_entry(hooks: Json) -> bool {
    match hooks {
        Json::Object(events) => exists|i: int| 0 <= i < events.len() && event_marked(#[trigger] events[i].1),
        _ => false,
    }
}

proof fn lemma_matcher_marked(m: Json, hv: Seq<Json>, k: int)
    requires
        m.get("hooks"@) == Some(Json::Array(hv)),
        0 <= k < hv.len(),
        is_marked(hv[k]),
    ensures
        matcher_marked(m),
{
    assert(is_marked(m.get("hooks"@)->Some_0->Array_0[k]));
}

fn hook_is_marked(hook: &JsonValue) -> (r: bool)
    ensures
        r == is_marked(hook@),
{
    match hook.bool_member("_c2_tracker") {
        Some(b) => b,
        None => false,
    }
}

fn matcher_is_marked(m: &JsonValue) -> (r: bool)
    ensures
        r == matcher_marked(m@),
{
    match m.get("hooks") {
        Some(h) => match h.as_array() {
            Some(items) => {
                let ghost hv = h@->Array_0;
                assert(m@.get("hooks"@) == Some(Json::Array(hv)));
                let mut k: usize = 0;
                while k < items.len()
                    invariant
                        m@.get("hooks"@) == Some(Json::Array(hv)),
                        k <= items@.len(),
                        hv.len() == items@.len(),
                        forall|q: int| 0 <= q < items@.len() ==> #[trigger] hv[q] == items@[q]@,
                        forall|q: int| 0 <= q < k ==> !is_marked(#[trigger] hv[q]),
                    decreases items@.len() - k,
                {
                    if hook_is_marked(&items[k]) {
                        assert(is_marked(hv[k as int]));
                        proof { lemma_matcher_marked(m@, hv, k as int); }
                        return true;
                    }
                    k = k + 1;
                }
                false
            },
            None => false,
        },
        None => false,
    }
}

fn event_is_marked(e: &JsonValue) -> (r: bool)
    ensures
        r == event_marked(e@),
{
    match e.as_array() {
        Some(ms) => {
            let ghost ev = e@->Array_0;
            assert(e@ == Json::Array(ev));
            let mut j: usize = 0;
            while j < ms.len()
                invariant
                    e@ == Json::Array(ev),
                    j <= ms@.len(),
                    ev.len() == ms@.len(),
                    forall|q: int| 0 <= q < ms@.len() ==> #[trigger] ev[q] == ms@[q]@,
                    forall|q: int| 0 <= q < j ==> !matcher_marked(#[trigger] ev[q]),
                decreases ms@.len() - j,
            {
                if matcher_is_marked(&ms[j]) {
                    assert(matcher_marked(ev[j as int]));
                    assert(e@ == Json::Array(ev));
                    assert(matcher_marked(e@->Array_0[j as int]));
                    return true;
                }
                j = j + 1;
            }
            false
        },
        None => false,
    }
}

/// Whether the `hooks` object already holds an entry of this tool's.
pub fn has_c2_tracker_entry(hooks: &JsonValue) -> (r: bool)
    ensures
        r == has_entry(hooks@),
{
    match hooks {
        JsonValue::Object(events) => {
            proof {
                lemma_object_view(*events);
            }
            let ghost mv = members_view(events@);
            assert(hooks@ == Json::Object(mv));
            let mut i: usize = 0;
            while i < events.len()
                invariant
                    i <= events@.len(),
                    mv == members_view(events@),
                    hooks@ == Json::Object(mv),
                    forall|q: int| 0 <= q < i ==> !event_marked(#[trigger] mv[q].1),
                decreases events@.len() - i,
            {
                if event_is_marked(&events[i].1) {
                    assert(event_marked(mv[i as int].1));
                    assert(event_marked(hooks@->Object_0[i as int].1));
                    return true;
                }
                i = i + 1;
            }
            false
        },
        _ => false,
    }
}

// ---------------------------------------------------------------------------
// Taking this tool's entries out of the hooks
// ---------------------------------------------------------------------------

/// The entries of a `hooks` list that are not marked, in their order.
pub open spec fn unmarked(hooks: Seq<Json>) -> Seq<Json>
    decreases hooks.len(),
{
    if hooks.len() == 0 {
        hooks
    } else {
        let rest = unmarked(hooks.drop_last());
        if is_marked(hooks.last()) {
            rest
        } else {
            rest.push(hooks.last())
        }
    }
}

/// A matcher with the marked entries taken out of its `hooks` list (where
/// that member is a list).
pub open spec fn clean_matcher(m: Json) -> Json {
    match m {
        Json::Object(ms) => {
            let i = last_index_of(ms, "hooks"@);
            if i >= 0 && ms[i].1 is Array {
                Json::Object(ms.update(i, (ms[i].0, Json::Array(unmarked(ms[i].1->Array_0)))))
            } else {
                m
            }
        },
        _ => m,
    }
}

/// A matcher is kept unless its `hooks` member is an empty list.
pub open spec fn keeps_matcher(m: Json) -> bool {
    match m.get("hooks"@) {
        Some(Json::Array(hooks)) => hooks.len() > 0,
        _ => true,
    }
}

/// The matchers of an event, each cleaned; a matcher that held entries of
/// this tool's and is left with an empty list is dropped (one that was
/// empty already stays).
pub open spec fn clean_matchers(ms: Seq<Json>) -> Seq<Json>
    decreases ms.len(),
{
    if ms.len() == 0 {
        ms
    } else {
        let rest = clean_matchers(ms.drop_last());
        let c = clean_matcher(ms.last());
        if !matcher_marked(ms.last()) || keeps_matcher(c) {
            rest.push(c)
        } else {
            rest
        }
    }
}

/// An event's value with its matchers cleaned (where it is a list).
pub open spec fn clean_event(e: Json) -> Json {
    match e {
        Json::Array(ms) => Json::Array(clean_matchers(ms)),
        _ => e,
    }
}

/// An event whose list held entries of this tool's and is left empty once
/// they are taken out.
pub open spec fn emptied(e: Json) -> bool {
    event_marked(e) && clean_event(e) == Json::Array(Seq::empty())
}

/// The events with their matchers cleaned; an event that taking this tool's
/// entries out leaves empty is dropped.
pub open spec fn removed_events(events: Seq<(Seq<char>, Json)>) -> Seq<(Seq<char>, Json)>
    decreases events.len(),
{
    if events.len() == 0 {
        events
    } else {
        let rest = removed_events(events.drop_last());
        let last = events.last();
        if emptied(last.1) {
            rest
        } else {
            rest.push((last.0, clean_event(last.1)))
        }
    }
}

/// The `hooks` object with this tool's entries taken out of every event.
pub open spec fn removed(hooks: Json) -> Json {
    match hooks {
        Json::Object(events) => Json::Object(removed_events(events)),
        _ => hooks,
    }
}

/// Every event left after the removal is an event of before, cleaned.
proof fn lemma_removed_from(events: Seq<(Seq<char>, Json)>)
    ensures
        forall|k: int| 0 <= k < removed_events(events).len() ==> exists|j: int|
            0 <= j < events.len() && #[trigger] removed_events(events)[k] == (events[j].0, clean_event(events[j].1)),
    decreases events.len(),
{
    if events.len() > 0 {
        let d = events.drop_last();
        let rest = removed_events(d);
        lemma_removed_from(d);
        assert forall|k: int| 0 <= k < removed_events(events).len() implies exists|j: int|
            0 <= j < events.len() && #[trigger] removed_events(events)[k] == (events[j].0, clean_event(events[j].1)) by {
            if k < rest.len() {
                assert(removed_events(events)[k] == rest[k]);
                let j = choose|j: int| 0 <= j < d.len() && rest[k] == (d[j].0, clean_event(d[j].1));
                assert(events[j] == d[j]);
            } else {
                assert(removed_events(events)[k] == (events[events.len() - 1].0, clean_event(events[events.len() - 1].1)));
            }
        }
    }
}

/// The value of member `key` where `i` is its last occurrence.
pub proof fn lemma_member_at(ms: Seq<(Seq<char>, Json)>, key: Seq<char>, i: int)
    requires
        0 <= i < ms.len(),
        ms[i].0 == key,
        forall|j: int| i < j < ms.len() ==> (#[trigger] ms[j]).0 != key,
    ensures
        member_value(ms, key) == Some(ms[i].1),
        last_index_of(ms, key) == i,
    decreases ms.len(),
{
    if i < ms.len() - 1 {
        let d = ms.drop_last();
        assert forall|j: int| i < j < d.len() implies (#[trigger] d[j]).0 != key by {
            assert(d[j] == ms[j]);
        }
        lemma_member_at(d, key, i);
    }
}

/// Setting a member gives it back.
pub proof fn lemma_put_member(ms: Seq<(Seq<char>, Json)>, key: Seq<char>, v: Json)
    ensures
        member_value(put_member(ms, key, v), key) == Some(v),
        last_index_of(put_member(ms, key, v), key) >= 0,
{
    lemma_last_index(ms, key);
    let i = last_index_of(ms, key);
    let p = put_member(ms, key, v);
    if i >= 0 {
        assert forall|j: int| i < j < p.len() implies (#[trigger] p[j]).0 != key by {
            assert(p[j] == ms[j]);
        }
        lemma_member_at(p, key, i);
    } else {
        lemma_member_at(p, key, ms.len() as int);
    }
}

proof fn lemma_unmarked_clean(hooks: Seq<Json>)
    ensures
        forall|k: int| 0 <= k < unmarked(hooks).len() ==> !is_marked(#[trigger] unmarked(hooks)[k]),
    decreases hooks.len(),
{
    if hooks.len() > 0 {
        let rest = unmarked(hooks.drop_last());
        lemma_unmarked_clean(hooks.drop_last());
        assert forall|k: int| 0 <= k < unmarked(hooks).len() implies !is_marked(#[trigger] unmarked(hooks)[k]) by {
            if k < rest.len() {
                assert(unmarked(hooks)[k] == rest[k]);
            }
        }
    }
}

proof fn lemma_clean_matcher(m: Json)
    ensures
        !matcher_marked(clean_matcher(m)),
{
    match m {
        Json::Object(ms) => {
            lemma_last_index(ms, "hooks"@);
            let i = last_index_of(ms, "hooks"@);
            if i >= 0 && ms[i].1 is Array {
                let u = unmarked(ms[i].1->Array_0);
                let p = ms.update(i, (ms[i].0, Json::Array(u)));
                assert forall|j: int| i < j < p.len() implies (#[trigger] p[j]).0 != "hooks"@ by {
                    assert(p[j] == ms[j]);
                }
                lemma_member_at(p, "hooks"@, i);
                lemma_unmarked_clean(ms[i].1->Array_0);
            }
        },
        _ => {},
    }
}

proof fn lemma_clean_matchers(ms: Seq<Json>)
    ensures
        forall|j: int| 0 <= j < clean_matchers(ms).len() ==> !matcher_marked(#[trigger] clean_matchers(ms)[j]),
    decreases ms.len(),
{
    if ms.len() > 0 {
        let rest = clean_matchers(ms.drop_last());
        lemma_clean_matchers(ms.drop_last());
        lemma_clean_matcher(ms.last());
        assert forall|j: int| 0 <= j < clean_matchers(ms).len() implies !matcher_marked(#[trigger] clean_matchers(ms)[j]) by {
            if j < rest.len() {
                assert(clean_matchers(ms)[j] == rest[j]);
            }
        }
    }
}

/// Once this tool's entries are taken out, none is left.
pub proof fn law_removed_has_no_entry(hooks: Json)
    ensures
        !has_entry(removed(hooks)),
{
    match hooks {
        Json::Object(events) => {
            let r = removed(hooks)->Object_0;
            lemma_removed_from(events);
            assert forall|i: int| 0 <= i < r.len() implies !event_marked(#[trigger] r[i].1) by {
                let j = choose|j: int| 0 <= j < events.len() && #[trigger] r[i] == (events[j].0, clean_event(events[j].1));
                match events[j].1 {
                    Json::Array(ms) => {
                        lemma_clean_matchers(ms);
                    },
                    _ => {},
                }
            }
        },
        _ => {},
    }
}

proof fn lemma_items_rest(before: Seq<JsonValue>, after: Seq<JsonValue>, orig: Seq<Json>, k: int)
    requires
        0 <= k < orig.len(),
        before.len() == orig.len() - k,
        after == before.remove(0),
        items_view(before) == orig.skip(k),
    ensures
        items_view(after) == orig.skip(k + 1),
        before[0]@ == orig[k],
{
    assert(items_view(before)[0] == orig.skip(k)[0]);
    assert forall|q: int| 0 <= q < after.len() implies #[trigger] items_view(after)[q] == orig.skip(k + 1)[q] by {
        assert(after[q] == before[q + 1]);
        assert(items_view(before)[q + 1] == orig.skip(k)[q + 1]);
    }
    assert(items_view(after) =~= orig.skip(k + 1));
}

proof fn lemma_members_rest(
    before: Seq<(String, JsonValue)>,
    after: Seq<(String, JsonValue)>,
    orig: Seq<(Seq<char>, Json)>,
    k: int,
)
    requires
        0 <= k < orig.len(),
        before.len() == orig.len() - k,
        after == before.remove(0),
        members_view(before) == orig.skip(k),
    ensures
        members_view(after) == orig.skip(k + 1),
        (before[0].0@, before[0].1@) == orig[k],
{
    assert(members_view(before)[0] == orig.skip(k)[0]);
    assert forall|q: int| 0 <= q < after.len() implies #[trigger] members_view(after)[q] == orig.skip(k + 1)[q] by {
        assert(after[q] == before[q + 1]);
        assert(members_view(before)[q + 1] == orig.skip(k)[q + 1]);
    }
    assert(members_view(after) =~= orig.skip(k + 1));
}

fn keep_unmarked(items: Vec<JsonValue>) -> (r: Vec<JsonValue>)
    ensures
        items_view(r@) == unmarked(items_view(items@)),
{
    let ghost orig = items_view(items@);
    let mut rest = items;
    let mut out: Vec<JsonValue> = Vec::new();
    let ghost mut k: int = 0;
    assert(items_view(out@) =~= unmarked(orig.take(0)));
    assert(items_view(rest@) =~= orig.skip(0));
    while rest.len() > 0
        invariant
            0 <= k <= orig.len(),
            rest@.len() == orig.len() - k,
            items_view(rest@) == orig.skip(k),
            items_view(out@) == unmarked(orig.take(k)),
        decreases rest@.len(),
    {
        let ghost before = rest@;
        let h = rest.remove(0);
        proof {
            lemma_items_rest(before, rest@, orig, k);
            assert(orig.take(k + 1).drop_last() =~= orig.take(k));
            assert(orig.take(k + 1).last() == h@);
        }
        if !hook_is_marked(&h) {
            out.push(h);
            assert(items_view(out@) =~= unmarked(orig.take(k + 1)));
        }
        proof {
            k = k + 1;
        }
    }
    assert(orig.take(k) =~= orig);
    out
}

fn keeps_matcher_value(m: &JsonValue) -> (r: bool)
    ensures
        r == keeps_matcher(m@),
{
    match m.get("hooks") {
        Some(h) => match h.as_array() {
            Some(a) => a.len() > 0,
            None => true,
        },
        None => true,
    }
}

fn clean_matcher_value(m: JsonValue) -> (r: JsonValue)
    ensures
        r@ == clean_matcher(m@),
{
    match m {
        JsonValue::Object(ms) => {
            let mut ms = ms;
            proof {
                lemma_object_view(ms);
            }
            let ghost mv = members_view(ms@);
            match find_member(&ms, "hooks") {
                Some(i) => {
                    proof {
                        lemma_last_index(mv, "hooks"@);
                    }
                    if matches!(ms[i].1, JsonValue::Array(_)) {
                        let (key, v) = ms.remove(i);
                        match v {
                            JsonValue::Array(items) => {
                                proof {
                                    lemma_array_view(items);
                                }
                                let cleaned = keep_unmarked(items);
                                let ghost cv = JsonValue::Array(cleaned)@;
                                proof {
                                    lemma_array_view(cleaned);
                                }
                                ms.insert(i, (key, JsonValue::Array(cleaned)));
                                proof {
                                    lemma_object_view(ms);
                                    assert(members_view(ms@) =~= mv.update(
                                        i as int,
                                        (mv[i as int].0, Json::Array(unmarked(mv[i as int].1->Array_0))),
                                    ));
                                }
                                JsonValue::Object(ms)
                            },
                            other => {
                                ms.insert(i, (key, other));
                                proof {
                                    lemma_object_view(ms);
                                    assert(members_view(ms@) =~= mv);
                                }
                                JsonValue::Object(ms)
                            },
                        }
                    } else {
                        JsonValue::Object(ms)
                    }
                },
                None => JsonValue::Object(ms),
            }
        },
        other => other,
    }
}

fn clean_matchers_vec(ms: Vec<JsonValue>) -> (r: Vec<JsonValue>)
    ensures
        items_view(r@) == clean_matchers(items_view(ms@)),
{
    let ghost orig = items_view(ms@);
    let mut rest = ms;
    let mut out: Vec<JsonValue> = Vec::new();
    let ghost mut k: int = 0;
    assert(items_view(out@) =~= clean_matchers(orig.take(0)));
    assert(items_view(rest@) =~= orig.skip(0));
    while rest.len() > 0
        invariant
            0 <= k <= orig.len(),
            rest@.len() == orig.len() - k,
            items_view(rest@) == orig.skip(k),
            items_view(out@) == clean_matchers(orig.take(k)),
        decreases rest@.len(),
    {
        let ghost before = rest@;
        let m = rest.remove(0);
        proof {
            lemma_items_rest(before, rest@, orig, k);
            assert(orig.take(k + 1).drop_last() =~= orig.take(k));
            assert(orig.take(k + 1).last() == m@);
        }
        let marked = matcher_is_marked(&m);
        let c = clean_matcher_value(m);
        if !marked || keeps_matcher_value(&c) {
            out.push(c);
            assert(items_view(out@) =~= clean_matchers(orig.take(k + 1)));
        }
        proof {
            k = k + 1;
        }
    }
    assert(orig.take(k) =~= orig);
    out
}

fn clean_event_value(e: JsonValue) -> (r: JsonValue)
    ensures
        r@ == clean_event(e@),
{
    match e {
        JsonValue::Array(ms) => {
            proof {
                lemma_array_view(ms);
            }
            let cleaned = clean_matchers_vec(ms);
            proof {
                lemma_array_view(cleaned);
            }
            JsonValue::Array(cleaned)
        },
        other => other,
    }
}

fn removed_value(hooks: JsonValue) -> (r: JsonValue)
    ensures
        r@ == removed(hooks@),
{
    match hooks {
        JsonValue::Object(events) => {
            proof {
                lemma_object_view(events);
            }
            let ghost orig = members_view(events@);
            let mut rest = events;
            let mut out: Vec<(String, JsonValue)> = Vec::new();
            let ghost mut k: int = 0;
            assert(members_view(out@) =~= removed_events(orig.take(0)));
            assert(members_view(rest@) =~= orig.skip(0));
            while rest.len() > 0
                invariant
                    0 <= k <= orig.len(),
                    rest@.len() == orig.len() - k,
                    members_view(rest@) == orig.skip(k),
                    members_view(out@) == removed_events(orig.take(k)),
                decreases rest@.len(),
            {
                let ghost before = rest@;
                let (key, v) = rest.remove(0);
                proof {
                    lemma_members_rest(before, rest@, orig, k);
                    assert(orig.take(k + 1).drop_last() =~= orig.take(k));
                    assert(orig.take(k + 1).last() == orig[k]);
                }
                let marked = event_is_marked(&v);
                let c = clean_event_value(v);
                let empty_list = match &c {
                    JsonValue::Array(items) => {
                        proof {
                            lemma_array_view(*items);
                            if items@.len() == 0 {
                                assert(items_view(items@) =~= Seq::<Json>::empty());
                            } else {
                                assert(items_view(items@).len() != Seq::<Json>::empty().len());
                            }
                        }
                        assert((items.len() == 0) == (c@ == Json::Array(Seq::empty())));
                        items.len() == 0
                    },
                    _ => {
                        assert(!(c@ is Array));
                        false
                    },
                };
                assert(empty_list == (c@ == Json::Array(Seq::empty())));
                if !(marked && empty_list) {
                    let ghost out_before = out@;
                    out.push((key, c));
                    proof {
                        assert(members_view(out@) =~= members_view(out_before).push((key@, c@)));
                    }
                }
                proof {
                    k = k + 1;
                }
            }
            proof {
                assert(orig.take(k) =~= orig);
                lemma_object_view(out);
            }
            JsonValue::Object(out)
        },
        other => other,
    }
}

/// Takes every entry of this tool's out of a `hooks` object, and every
/// matcher and event that held such entries and is left empty.
pub fn remove_c2_tracker_entries(hooks_obj: &mut JsonValue)
    ensures
        final(hooks_obj)@ == removed(old(hooks_obj)@),
{
    let mut taken = JsonValue::Null;
    std::mem::swap(&mut taken, hooks_obj);
    *hooks_obj = removed_value(taken);
}

// ---------------------------------------------------------------------------
// Installing and removing the hooks in the settings document
// ---------------------------------------------------------------------------

/// The hook events this tool listens to, each with the endpoint it posts to.
pub open spec fn hook_events() -> Seq<(Seq<char>, Seq<char>)> {
    seq![
        ("SessionStart"@, "session-start"@),
        ("UserPromptSubmit"@, "user-prompt-submit"@),
        ("Stop"@, "stop"@),
        ("SessionEnd"@, "session-end"@),
    ]
}

/// The entry installed for one endpoint.
pub open spec fn hook_entry(shim: bool, port: u16, endpoint: Seq<char>) -> Json {
    if shim {
        command_hook(port, endpoint)
    } else {
        http_hook(port, endpoint)
    }
}

/// A matcher that holds one entry.
pub open spec fn matcher_of(hook: Json) -> Json {
    Json::Object(seq![("hooks"@, Json::Array(seq![hook]))])
}

/// The matchers listed under an event (none where it is absent).
pub open spec fn event_list(events: Seq<(Seq<char>, Json)>, name: Seq<char>) -> Seq<Json> {
    match member_value(events, name) {
        Some(Json::Array(ms)) => ms,
        _ => Seq::empty(),
    }
}

/// The events with one matcher added at the end of `name`'s list (a new
/// list where the event is absent).
pub open spec fn add_matcher(events: Seq<(Seq<char>, Json)>, name: Seq<char>, m: Json) -> Seq<(Seq<char>, Json)> {
    put_member(events, name, Json::Array(event_list(events, name).push(m)))
}

/// The events with a matcher added for each of the first `n` hook events.
pub open spec fn add_hooks(events: Seq<(Seq<char>, Json)>, shim: bool, port: u16, n: nat) -> Seq<(Seq<char>, Json)>
    decreases n,
{
    if n == 0 {
        events
    } else {
        let prev = add_hooks(events, shim, port, (n - 1) as nat);
        let ev = hook_events()[n - 1];
        add_matcher(prev, ev.0, matcher_of(hook_entry(shim, port, ev.1)))
    }
}

/// The `hooks` object of a settings document (an empty one where absent).
pub open spec fn hooks_of(root: Json) -> Json {
    match root.get("hooks"@) {
        Some(h) => h,
        None => Json::Object(Seq::empty()),
    }
}

pub open spec fn list_or_absent(v: Option<Json>) -> bool {
    match v {
        Some(e) => e is Array,
        None => true,
    }
}

/// Whether a member name is one of the hook events.
pub open spec fn is_hook_event(name: Seq<char>) -> bool {
    name == "SessionStart"@ || name == "UserPromptSubmit"@ || name == "Stop"@ || name == "SessionEnd"@
}

/// Every member named by a hook event holds a list.
pub open spec fn events_are_lists(events: Seq<(Seq<char>, Json)>) -> bool {
    forall|j: int| 0 <= j < events.len() && is_hook_event((#[trigger] events[j]).0) ==> events[j].1 is Array
}

/// Where every member named by a hook event holds a list, each hook event
/// is absent or holds a list.
proof fn lemma_lists_member(events: Seq<(Seq<char>, Json)>, k: int)
    requires
        events_are_lists(events),
        0 <= k < 4,
    ensures
        list_or_absent(member_value(events, hook_events()[k].0)),
{
    let name = hook_events()[k].0;
    lemma_last_index(events, name);
    let i = last_index_of(events, name);
    if i >= 0 {
        assert(is_hook_event(events[i].0));
    }
}

/// The settings documents on which installing goes through: an object
/// whose hooks are an object with a list under each hook event, unless the
/// hooks are found installed and no reinstall is asked for.
pub open spec fn install_ok(root: Json, force: bool) -> bool {
    &&& root is Object
    &&& (!force && has_entry(hooks_of(root))) || (hooks_of(root) is Object && events_are_lists(hooks_of(root)->Object_0))
}

/// The settings document with the hooks installed: with `force` the old
/// entries of this tool are first taken out.
pub open spec fn installed(root: Json, force: bool, shim: bool, port: u16) -> Json {
    let h0 = hooks_of(root);
    let h1 = if force { removed(h0) } else { h0 };
    Json::Object(put_member(root->Object_0, "hooks"@, Json::Object(add_hooks(h1->Object_0, shim, port, 4))))
}

/// The members other than those named `key`, in their order.
pub open spec fn without_member(ms: Seq<(Seq<char>, Json)>, key: Seq<char>) -> Seq<(Seq<char>, Json)>
    decreases ms.len(),
{
    if ms.len() == 0 {
        ms
    } else {
        let rest = without_member(ms.drop_last(), key);
        if ms.last().0 == key {
            rest
        } else {
            rest.push(ms.last())
        }
    }
}

/// The settings document with this tool's hooks taken out; where that
/// leaves the `hooks` object empty, the member goes too.
pub open spec fn uninstalled(root: Json) -> Json {
    let r = removed(hooks_of(root));
    if r == Json::Object(Seq::empty()) {
        Json::Object(without_member(root->Object_0, "hooks"@))
    } else {
        Json::Object(put_member(root->Object_0, "hooks"@, r))
    }
}

/// Once the members named `key` are dropped, none is left.
proof fn lemma_without_member_none(ms: Seq<(Seq<char>, Json)>, key: Seq<char>)
    ensures
        member_value(without_member(ms, key), key) is None,
    decreases ms.len(),
{
    if ms.len() > 0 {
        lemma_without_member_none(ms.drop_last(), key);
        let rest = without_member(ms.drop_last(), key);
        if ms.last().0 != key {
            assert(rest.push(ms.last()).drop_last() =~= rest);
        }
    }
}

/// Where no member is named `key`, dropping them changes nothing.
proof fn lemma_without_member_id(ms: Seq<(Seq<char>, Json)>, key: Seq<char>)
    requires
        forall|j: int| 0 <= j < ms.len() ==> (#[trigger] ms[j]).0 != key,
    ensures
        without_member(ms, key) == ms,
    decreases ms.len(),
{
    if ms.len() > 0 {
        let d = ms.drop_last();
        assert forall|j: int| 0 <= j < d.len() implies (#[trigger] d[j]).0 != key by {
            assert(d[j] == ms[j]);
        }
        lemma_without_member_id(d, key);
        assert(ms[ms.len() - 1].0 != key);
        assert(d.push(ms.last()) =~= ms);
    }
}

/// Taking out one member named `key` first makes no difference.
proof fn lemma_without_member_remove(ms: Seq<(Seq<char>, Json)>, key: Seq<char>, i: int)
    requires
        0 <= i < ms.len(),
        ms[i].0 == key,
    ensures
        without_member(ms.remove(i), key) == without_member(ms, key),
    decreases ms.len(),
{
    let r = ms.remove(i);
    if i == ms.len() - 1 {
        assert(r =~= ms.drop_last());
    } else {
        assert(r.drop_last() =~= ms.drop_last().remove(i));
        assert(r.last() == ms.last());
        lemma_without_member_remove(ms.drop_last(), key, i);
    }
}

/// What installing did.
pub enum InstallOutcome {
    /// The hooks were found installed; nothing is to be written.
    AlreadyInstalled,
    /// The settings document to write.
    Updated(JsonValue),
}

/// What removing did.
pub enum UninstallOutcome {
    /// No entry of this tool's was found; nothing is to be written.
    NotInstalled,
    /// The settings document to write.
    Updated(JsonValue),
}

proof fn lemma_update_other(ms: Seq<(Seq<char>, Json)>, i: int, p: (Seq<char>, Json), key: Seq<char>)
    requires
        0 <= i < ms.len(),
        ms[i].0 != key,
        p.0 != key,
    ensures
        member_value(ms.update(i, p), key) == member_value(ms, key),
    decreases ms.len(),
{
    let u = ms.update(i, p);
    if i < ms.len() - 1 {
        assert(u.drop_last() =~= ms.drop_last().update(i, p));
        lemma_update_other(ms.drop_last(), i, p, key);
    } else {
        assert(u.drop_last() =~= ms.drop_last());
    }
}

/// Setting one member leaves the others as they were.
pub proof fn lemma_put_member_other(ms: Seq<(Seq<char>, Json)>, k1: Seq<char>, v: Json, k2: Seq<char>)
    requires
        k1 != k2,
    ensures
        member_value(put_member(ms, k1, v), k2) == member_value(ms, k2),
{
    lemma_last_index(ms, k1);
    let i = last_index_of(ms, k1);
    if i >= 0 {
        lemma_update_other(ms, i, (k1, v), k2);
    } else {
        assert(ms.push((k1, v)).drop_last() =~= ms);
    }
}

proof fn lemma_removed_lists(events: Seq<(Seq<char>, Json)>)
    requires
        events_are_lists(events),
    ensures
        events_are_lists(removed(Json::Object(events))->Object_0),
{
    let r = removed(Json::Object(events))->Object_0;
    lemma_removed_from(events);
    assert forall|i: int| 0 <= i < r.len() && is_hook_event((#[trigger] r[i]).0) implies r[i].1 is Array by {
        let j = choose|j: int| 0 <= j < events.len() && #[trigger] r[i] == (events[j].0, clean_event(events[j].1));
        assert(is_hook_event(events[j].0));
    }
}

proof fn lemma_event_names()
    ensures
        hook_events()[0].0 != hook_events()[1].0,
        hook_events()[0].0 != hook_events()[2].0,
        hook_events()[0].0 != hook_events()[3].0,
        hook_events()[1].0 != hook_events()[2].0,
        hook_events()[1].0 != hook_events()[3].0,
        hook_events()[2].0 != hook_events()[3].0,
{
    reveal_strlit("SessionStart");
    reveal_strlit("UserPromptSubmit");
    reveal_strlit("Stop");
    reveal_strlit("SessionEnd");
    assert("SessionStart"@.len() == 12);
    assert("UserPromptSubmit"@.len() == 16);
    assert("Stop"@.len() == 4);
    assert("SessionEnd"@.len() == 10);
}

fn add_matcher_vec(events: &mut Vec<(String, JsonValue)>, name: &str, m: JsonValue)
    requires
        list_or_absent(member_value(members_view(old(events)@), name@)),
    ensures
        members_view(final(events)@) == add_matcher(members_view(old(events)@), name@, m@),
{
    let ghost mv = members_view(events@);
    proof {
        lemma_last_index(mv, name@);
    }
    match find_member(events, name) {
        Some(i) => {
            let (key, v) = events.remove(i);
            match v {
                JsonValue::Array(list) => {
                    let mut list = list;
                    proof {
                        lemma_array_view(list);
                    }
                    let ghost lv = items_view(list@);
                    list.push(m);
                    proof {
                        lemma_array_view(list);
                        assert(items_view(list@) =~= lv.push(m@));
                    }
                    events.insert(i, (key, JsonValue::Array(list)));
                    assert(members_view(events@) =~= add_matcher(mv, name@, m@));
                },
                other => {
                    events.insert(i, (key, other));
                    assert(false);
                },
            }
        },
        None => {
            let mut list: Vec<JsonValue> = Vec::new();
            list.push(m);
            proof {
                lemma_array_view(list);
                assert(items_view(list@) =~= Seq::<Json>::empty().push(m@));
            }
            events.push((owned(name), JsonValue::Array(list)));
            assert(members_view(events@) =~= add_matcher(mv, name@, m@));
        },
    }
}

fn hook_matcher(shim: bool, port: u16, endpoint: &str) -> (r: JsonValue)
    ensures
        r@ == matcher_of(hook_entry(shim, port, endpoint@)),
{
    let hook = if shim {
        build_command_hook(port, endpoint)
    } else {
        build_http_hook(port, endpoint)
    };
    let mut list: Vec<JsonValue> = Vec::new();
    list.push(hook);
    let mut ms: Vec<(String, JsonValue)> = Vec::new();
    ms.push((owned("hooks"), JsonValue::Array(list)));
    proof {
        lemma_array_view(list);
        lemma_object_view(ms);
        assert(items_view(list@) =~= seq![hook@]);
        assert(members_view(ms@) =~= matcher_of(hook_entry(shim, port, endpoint@))->Object_0);
    }
    JsonValue::Object(ms)
}

fn hooks_present(root: &JsonValue) -> (r: bool)
    ensures
        r == has_entry(hooks_of(root@)),
{
    match root.get("hooks") {
        Some(h) => has_c2_tracker_entry(h),
        None => {
            assert(!has_entry(Json::Object(Seq::empty())));
            false
        },
    }
}

/// Takes member `hooks` out of the members of a settings document: where it
/// stood and under which key, and its value (an empty object where absent).
fn take_hooks(ms: &mut Vec<(String, JsonValue)>) -> (r: (Option<(usize, String)>, JsonValue))
    ensures
        r.1@ == hooks_of(Json::Object(members_view(old(ms)@))),
        match r.0 {
            Some((i, key)) => {
                &&& i as int == last_index_of(members_view(old(ms)@), "hooks"@)
                &&& key@ == "hooks"@
                &&& final(ms)@ == old(ms)@.remove(i as int)
            },
            None => {
                &&& last_index_of(members_view(old(ms)@), "hooks"@) == -1
                &&& final(ms)@ == old(ms)@
            },
        },
{
    let ghost mv = members_view(ms@);
    proof {
        lemma_last_index(mv, "hooks"@);
    }
    match find_member(ms, "hooks") {
        Some(i) => {
            let (key, h) = ms.remove(i);
            (Some((i, key)), h)
        },
        None => {
            let empty: Vec<(String, JsonValue)> = Vec::new();
            proof {
                lemma_object_view(empty);
                assert(members_view(empty@) =~= Seq::<(Seq<char>, Json)>::empty());
            }
            (None, JsonValue::Object(empty))
        },
    }
}

/// Puts member `hooks` back where [`take_hooks`] took it from, or at the end.
fn put_hooks(ms: &mut Vec<(String, JsonValue)>, slot: Option<(usize, String)>, hooks: JsonValue, Ghost(orig): Ghost<Seq<(String, JsonValue)>>)
    requires
        match slot {
            Some((i, key)) => {
                &&& 0 <= i < orig.len()
                &&& i as int == last_index_of(members_view(orig), "hooks"@)
                &&& key@ == "hooks"@
                &&& old(ms)@ == orig.remove(i as int)
            },
            None => {
                &&& last_index_of(members_view(orig), "hooks"@) == -1
                &&& old(ms)@ == orig
            },
        },
    ensures
        members_view(final(ms)@) == put_member(members_view(orig), "hooks"@, hooks@),
{
    let ghost hv = hooks@;
    match slot {
        Some((i, key)) => {
            ms.insert(i, (key, hooks));
            assert(members_view(ms@) =~= put_member(members_view(orig), "hooks"@, hv));
        },
        None => {
            ms.push((owned("hooks"), hooks));
            assert(members_view(ms@) =~= put_member(members_view(orig), "hooks"@, hv));
        },
    }
}

/// Whether installing can go through on this settings document (see
/// [`install_ok`]).
pub fn can_install(root: &JsonValue, force: bool) -> (r: bool)
    ensures
        r == install_ok(root@, force),
{
    if !root.is_object() {
        return false;
    }
    if !force && hooks_present(root) {
        return true;
    }
    let hooks = root.get("hooks");
    let ok = match hooks {
        None => true,
        Some(h) => match h {
            JsonValue::Object(events) => {
                proof {
                    lemma_object_view(*events);
                }
                all_events_lists(events)
            },
            _ => false,
        },
    };
    ok
}

fn is_hook_event_name(name: &str) -> (r: bool)
    ensures
        r == is_hook_event(name@),
{
    str_eq(name, "SessionStart") || str_eq(name, "UserPromptSubmit") || str_eq(name, "Stop") || str_eq(
        name,
        "SessionEnd",
    )
}

fn all_events_lists(events: &Vec<(String, JsonValue)>) -> (r: bool)
    ensures
        r == events_are_lists(members_view(events@)),
{
    let ghost mv = members_view(events@);
    let mut j: usize = 0;
    while j < events.len()
        invariant
            j <= events@.len(),
            mv == members_view(events@),
            forall|q: int| 0 <= q < j && is_hook_event((#[trigger] mv[q]).0) ==> mv[q].1 is Array,
        decreases events@.len() - j,
    {
        if is_hook_event_name(events[j].0.as_str()) && !matches!(events[j].1, JsonValue::Array(_)) {
            assert(is_hook_event(mv[j as int].0) && !(mv[j as int].1 is Array));
            return false;
        }
        j = j + 1;
    }
    true
}

/// Installs this tool's hooks into a settings document: one matcher per
/// hook event, each holding an HTTP hook, or a command hook where `shim` is
/// set.  Where the hooks are found installed and `force` is not set, nothing
/// changes; with `force` the old entries are taken out first.
pub fn install_hooks(root: JsonValue, port: u16, force: bool, shim: bool) -> (r: InstallOutcome)
    requires
        install_ok(root@, force),
    ensures
        match r {
            InstallOutcome::AlreadyInstalled => !force && has_entry(hooks_of(root@)),
            InstallOutcome::Updated(v) => {
                &&& force || !has_entry(hooks_of(root@))
                &&& v@ == installed(root@, force, shim, port)
            },
        },
{
    if !force && hooks_present(&root) {
        return InstallOutcome::AlreadyInstalled;
    }
    let ghost rv = root@;
    let mut ms = match root {
        JsonValue::Object(ms) => ms,
        _ => {
            proof {
                assert(false);
            }
            Vec::new()
        },
    };
    proof {
        lemma_object_view(ms);
    }
    let ghost orig = ms@;
    assert(rv == Json::Object(members_view(orig)));
    let (slot, hooks) = take_hooks(&mut ms);
    let ghost h0 = hooks@;
    let hooks = if force {
        removed_value(hooks)
    } else {
        hooks
    };
    let ghost h1 = hooks@;
    let mut events = match hooks {
        JsonValue::Object(events) => events,
        _ => {
            proof {
                assert(false);
            }
            Vec::new()
        },
    };
    proof {
        lemma_object_view(events);
        if force {
            lemma_removed_lists(h0->Object_0);
        }
        lemma_event_names();
    }
    let ghost e0 = members_view(events@);
    assert(events_are_lists(e0));
    proof {
        lemma_lists_member(e0, 0);
        lemma_lists_member(e0, 1);
        lemma_lists_member(e0, 2);
        lemma_lists_member(e0, 3);
    }

    add_matcher_vec(&mut events, "SessionStart", hook_matcher(shim, port, "session-start"));
    let ghost e1 = members_view(events@);
    proof {
        reveal_with_fuel(add_hooks, 2);
        assert(e1 == add_hooks(e0, shim, port, 1));
    }
    assert(list_or_absent(member_value(e1, hook_events()[1].0))) by {
        lemma_put_member_other(e0, hook_events()[0].0, Json::Array(event_list(e0, hook_events()[0].0).push(matcher_of(hook_entry(shim, port, hook_events()[0].1)))), hook_events()[1].0);
    }
    add_matcher_vec(&mut events, "UserPromptSubmit", hook_matcher(shim, port, "user-prompt-submit"));
    let ghost e2 = members_view(events@);
    proof {
        reveal_with_fuel(add_hooks, 3);
        assert(e2 == add_hooks(e0, shim, port, 2));
    }
    assert(list_or_absent(member_value(e2, hook_events()[2].0))) by {
        lemma_put_member_other(e0, hook_events()[0].0, Json::Array(event_list(e0, hook_events()[0].0).push(matcher_of(hook_entry(shim, port, hook_events()[0].1)))), hook_events()[2].0);
        lemma_put_member_other(e1, hook_events()[1].0, Json::Array(event_list(e1, hook_events()[1].0).push(matcher_of(hook_entry(shim, port, hook_events()[1].1)))), hook_events()[2].0);
    }
    add_matcher_vec(&mut events, "Stop", hook_matcher(shim, port, "stop"));
    let ghost e3 = members_view(events@);
    proof {
        reveal_with_fuel(add_hooks, 4);
        assert(e3 == add_hooks(e0, shim, port, 3));
    }
    assert(list_or_absent(member_value(e3, hook_events()[3].0))) by {
        lemma_put_member_other(e0, hook_events()[0].0, Json::Array(event_list(e0, hook_events()[0].0).push(matcher_of(hook_entry(shim, port, hook_events()[0].1)))), hook_events()[3].0);
        lemma_put_member_other(e1, hook_events()[1].0, Json::Array(event_list(e1, hook_events()[1].0).push(matcher_of(hook_entry(shim, port, hook_events()[1].1)))), hook_events()[3].0);
        lemma_put_member_other(e2, hook_events()[2].0, Json::Array(event_list(e2, hook_events()[2].0).push(matcher_of(hook_entry(shim, port, hook_events()[2].1)))), hook_events()[3].0);
    }
    add_matcher_vec(&mut events, "SessionEnd", hook_matcher(shim, port, "session-end"));
    let ghost e4 = members_view(events@);
    proof {
        reveal_with_fuel(add_hooks, 5);
        assert(e4 == add_hooks(e0, shim, port, 4));
        lemma_object_view(events);
    }
    let new_hooks = JsonValue::Object(events);
    assert(new_hooks@ == Json::Object(add_hooks(h1->Object_0, shim, port, 4)));
    proof {
        lemma_last_index(members_view(orig), "hooks"@);
    }
    put_hooks(&mut ms, slot, new_hooks, Ghost(orig));
    proof {
        lemma_object_view(ms);
    }
    InstallOutcome::Updated(JsonValue::Object(ms))
}

/// Takes this tool's hooks out of a settings document: a matcher or an
/// event that held entries of this tool's and is left empty goes too, and
/// so does the `hooks` object where nothing is left in it.  Where no entry
/// is found, nothing changes.
pub fn uninstall_hooks(root: JsonValue) -> (r: UninstallOutcome)
    ensures
        match r {
            UninstallOutcome::NotInstalled => !has_entry(hooks_of(root@)),
            UninstallOutcome::Updated(v) => {
                &&& has_entry(hooks_of(root@))
                &&& v@ == uninstalled(root@)
            },
        },
{
    if !hooks_present(&root) {
        return UninstallOutcome::NotInstalled;
    }
    let ghost rv = root@;
    let mut ms = match root {
        JsonValue::Object(ms) => ms,
        _ => {
            proof {
                assert(false);
            }
            Vec::new()
        },
    };
    proof {
        lemma_object_view(ms);
    }
    let ghost orig = ms@;
    assert(rv == Json::Object(members_view(orig)));
    let (slot, hooks) = take_hooks(&mut ms);
    let cleaned = removed_value(hooks);
    let all_gone = is_empty_object(&cleaned);
    proof {
        lemma_last_index(members_view(orig), "hooks"@);
    }
    if all_gone {
        proof {
            match slot {
                Some((i, _)) => {
                    assert(members_view(ms@) =~= members_view(orig).remove(i as int));
                    lemma_without_member_remove(members_view(orig), "hooks"@, i as int);
                },
                None => {},
            }
        }
        ms = drop_members(ms, "hooks");
    } else {
        put_hooks(&mut ms, slot, cleaned, Ghost(orig));
    }
    proof {
        lemma_object_view(ms);
    }
    UninstallOutcome::Updated(JsonValue::Object(ms))
}

fn is_empty_object(v: &JsonValue) -> (r: bool)
    ensures
        r == (v@ == Json::Object(Seq::empty())),
{
    match v {
        JsonValue::Object(members) => {
            proof {
                lemma_object_view(*members);
                if members@.len() == 0 {
                    assert(members_view(members@) =~= Seq::<(Seq<char>, Json)>::empty());
                } else {
                    assert(members_view(members@).len() != Seq::<(Seq<char>, Json)>::empty().len());
                }
            }
            members.len() == 0
        },
        _ => false,
    }
}

/// The members other than those named `key`, in their order.
fn drop_members(ms: Vec<(String, JsonValue)>, key: &str) -> (r: Vec<(String, JsonValue)>)
    ensures
        members_view(r@) == without_member(members_view(ms@), key@),
{
    let ghost orig = members_view(ms@);
    let mut rest = ms;
    let mut out: Vec<(String, JsonValue)> = Vec::new();
    let ghost mut k: int = 0;
    assert(members_view(out@) =~= without_member(orig.take(0), key@));
    assert(members_view(rest@) =~= orig.skip(0));
    while rest.len() > 0
        invariant
            0 <= k <= orig.len(),
            rest@.len() == orig.len() - k,
            members_view(rest@) == orig.skip(k),
            members_view(out@) == without_member(orig.take(k), key@),
        decreases rest@.len(),
    {
        let ghost before = rest@;
        let (name, v) = rest.remove(0);
        proof {
            lemma_members_rest(before, rest@, orig, k);
            assert(orig.take(k + 1).drop_last() =~= orig.take(k));
            assert(orig.take(k + 1).last() == orig[k]);
        }
        if !str_eq(name.as_str(), key) {
            let ghost out_before = out@;
            out.push((name, v));
            proof {
                assert(members_view(out@) =~= members_view(out_before).push((name@, v@)));
            }
        }
        proof {
            k = k + 1;
        }
    }
    assert(orig.take(k) =~= orig);
    out
}

// ---------------------------------------------------------------------------
// What installing and removing keep
// ---------------------------------------------------------------------------

proof fn lemma_matcher_of_marked(shim: bool, port: u16, endpoint: Seq<char>)
    ensures
        matcher_marked(matcher_of(hook_entry(shim, port, endpoint))),
{
    let h = hook_entry(shim, port, endpoint);
    assert(member_value(h->Object_0, marker()) == Some(Json::Bool(true)));
    assert(is_marked(h));
    lemma_matcher_marked(matcher_of(h), seq![h], 0);
}

/// Once the hooks are installed, the settings document holds an entry of
/// this tool's.
pub proof fn law_install_adds_entry(root: Json, force: bool, shim: bool, port: u16)
    requires
        install_ok(root, force),
    ensures
        has_entry(hooks_of(installed(root, force, shim, port))),
{
    let h0 = hooks_of(root);
    let h1 = if force { removed(h0) } else { h0 };
    let e3 = add_hooks(h1->Object_0, shim, port, 3);
    let name = hook_events()[3].0;
    let m = matcher_of(hook_entry(shim, port, hook_events()[3].1));
    let list = Json::Array(event_list(e3, name).push(m));
    let e4 = add_hooks(h1->Object_0, shim, port, 4);
    assert(e4 == put_member(e3, name, list));
    lemma_put_member(root->Object_0, "hooks"@, Json::Object(e4));
    assert(hooks_of(installed(root, force, shim, port)) == Json::Object(e4));
    lemma_put_member(e3, name, list);
    lemma_last_index(e4, name);
    let i = last_index_of(e4, name);
    assert(e4[i].1 == list);
    lemma_matcher_of_marked(shim, port, hook_events()[3].1);
    let ms = event_list(e3, name).push(m);
    assert(matcher_marked(ms[ms.len() - 1]));
    assert(e4[i].1->Array_0 == ms);
    assert(matcher_marked(e4[i].1->Array_0[ms.len() - 1]));
    assert(event_marked(e4[i].1));
    assert(event_marked(hooks_of(installed(root, force, shim, port))->Object_0[i].1));
}

/// Installing is idempotent: once installed, installing again without a
/// reinstall finds the hooks in place and changes nothing.
pub proof fn law_install_idempotent(root: Json, force: bool, shim: bool, port: u16)
    requires
        install_ok(root, force),
    ensures
        install_ok(installed(root, force, shim, port), false),
        has_entry(hooks_of(installed(root, force, shim, port))),
{
    law_install_adds_entry(root, force, shim, port);
}

/// Once the hooks are taken out, the settings document holds no entry of
/// this tool's.
pub proof fn law_uninstall_removes_entries(root: Json)
    requires
        root is Object,
    ensures
        !has_entry(hooks_of(uninstalled(root))),
{
    let r = removed(hooks_of(root));
    law_removed_has_no_entry(hooks_of(root));
    if r == Json::Object(Seq::empty()) {
        lemma_without_member_none(root->Object_0, "hooks"@);
        assert(!has_entry(Json::Object(Seq::<(Seq<char>, Json)>::empty())));
    } else {
        lemma_put_member(root->Object_0, "hooks"@, r);
    }
}

proof fn lemma_hook_entry_marked(shim: bool, port: u16, endpoint: Seq<char>)
    ensures
        is_marked(hook_entry(shim, port, endpoint)),
{
    let h = hook_entry(shim, port, endpoint);
    assert(member_value(h->Object_0, marker()) == Some(Json::Bool(true)));
}

/// A matcher that holds only an entry of this tool's is dropped once the
/// entry is taken out.
proof fn lemma_clean_push_ours(list: Seq<Json>, shim: bool, port: u16, endpoint: Seq<char>)
    ensures
        clean_matchers(list.push(matcher_of(hook_entry(shim, port, endpoint)))) == clean_matchers(list),
{
    let h = hook_entry(shim, port, endpoint);
    let m = matcher_of(h);
    lemma_hook_entry_marked(shim, port, endpoint);
    let ms = m->Object_0;
    assert(last_index_of(ms, "hooks"@) == 0) by {
        lemma_member_at(ms, "hooks"@, 0);
    }
    assert(unmarked(seq![h]) =~= Seq::<Json>::empty()) by {
        assert(seq![h].drop_last() =~= Seq::<Json>::empty());
        assert(seq![h].last() == h);
        assert(unmarked(Seq::<Json>::empty()) == Seq::<Json>::empty());
    }
    let c = clean_matcher(m);
    assert(c->Object_0 =~= seq![("hooks"@, Json::Array(Seq::empty()))]);
    lemma_member_at(c->Object_0, "hooks"@, 0);
    assert(!keeps_matcher(c));
    assert(list.push(m).drop_last() =~= list);
}

/// Changing one event's value to one that cleans the same way, and is
/// emptied or not alike, leaves the cleaned events as they were.
proof fn lemma_removed_update_same(s: Seq<(Seq<char>, Json)>, i: int, v: Json)
    requires
        0 <= i < s.len(),
        clean_event(v) == clean_event(s[i].1),
        emptied(v) == emptied(s[i].1),
    ensures
        removed_events(s.update(i, (s[i].0, v))) == removed_events(s),
    decreases s.len(),
{
    let t = s.update(i, (s[i].0, v));
    if i < s.len() - 1 {
        assert(t.drop_last() =~= s.drop_last().update(i, (s[i].0, v)));
        assert(s.drop_last()[i] == s[i]);
        lemma_removed_update_same(s.drop_last(), i, v);
        assert(t.last() == s.last());
    } else {
        assert(t.drop_last() =~= s.drop_last());
    }
}

proof fn lemma_unmarked_id(hooks: Seq<Json>)
    requires
        forall|k: int| 0 <= k < hooks.len() ==> !is_marked(#[trigger] hooks[k]),
    ensures
        unmarked(hooks) == hooks,
    decreases hooks.len(),
{
    if hooks.len() > 0 {
        let d = hooks.drop_last();
        assert forall|k: int| 0 <= k < d.len() implies !is_marked(#[trigger] d[k]) by {
            assert(d[k] == hooks[k]);
        }
        lemma_unmarked_id(d);
        assert(!is_marked(hooks[hooks.len() - 1]));
        assert(d.push(hooks.last()) =~= hooks);
    }
}

/// A matcher that holds no entry of this tool's is left as it is.
proof fn lemma_clean_matcher_id(m: Json)
    requires
        !matcher_marked(m),
    ensures
        clean_matcher(m) == m,
{
    match m {
        Json::Object(ms) => {
            lemma_last_index(ms, "hooks"@);
            let i = last_index_of(ms, "hooks"@);
            if i >= 0 && ms[i].1 is Array {
                let list = ms[i].1->Array_0;
                assert(m.get("hooks"@) == Some(Json::Array(list)));
                assert forall|k: int| 0 <= k < list.len() implies !is_marked(#[trigger] list[k]) by {
                    assert(is_marked(m.get("hooks"@)->Some_0->Array_0[k]) == is_marked(list[k]));
                }
                lemma_unmarked_id(list);
                assert(ms.update(i, (ms[i].0, Json::Array(list))) =~= ms);
            }
        },
        _ => {},
    }
}

proof fn lemma_clean_matchers_id(ms: Seq<Json>)
    requires
        forall|j: int| 0 <= j < ms.len() ==> !matcher_marked(#[trigger] ms[j]),
    ensures
        clean_matchers(ms) == ms,
    decreases ms.len(),
{
    if ms.len() > 0 {
        let d = ms.drop_last();
        assert forall|j: int| 0 <= j < d.len() implies !matcher_marked(#[trigger] d[j]) by {
            assert(d[j] == ms[j]);
        }
        lemma_clean_matchers_id(d);
        assert(!matcher_marked(ms[ms.len() - 1]));
        lemma_clean_matcher_id(ms.last());
        assert(d.push(ms.last()) =~= ms);
    }
}

/// An event that holds no entry of this tool's is left as it is.
proof fn lemma_clean_event_id(e: Json)
    requires
        !event_marked(e),
    ensures
        clean_event(e) == e,
        !emptied(e),
{
    match e {
        Json::Array(ms) => {
            assert forall|j: int| 0 <= j < ms.len() implies !matcher_marked(#[trigger] ms[j]) by {}
            lemma_clean_matchers_id(ms);
        },
        _ => {},
    }
}

proof fn lemma_no_entry_at(events: Seq<(Seq<char>, Json)>, i: int)
    requires
        !has_entry(Json::Object(events)),
        0 <= i < events.len(),
    ensures
        !event_marked(events[i].1),
{
    if event_marked(events[i].1) {
        let h = Json::Object(events);
        assert(h->Object_0 == events);
        assert(0 <= i < h->Object_0.len() && event_marked(h->Object_0[i].1));
        assert(has_entry(h));
    }
}

/// Hooks that hold no entry of this tool's are left as they are.
proof fn lemma_removed_events_id(events: Seq<(Seq<char>, Json)>)
    requires
        !has_entry(Json::Object(events)),
    ensures
        removed_events(events) == events,
    decreases events.len(),
{
    if events.len() > 0 {
        let d = events.drop_last();
        assert forall|i: int| 0 <= i < d.len() implies !event_marked(#[trigger] d[i].1) by {
            lemma_no_entry_at(events, i);
            assert(d[i] == events[i]);
        }
        lemma_removed_events_id(d);
        lemma_no_entry_at(events, events.len() - 1);
        lemma_clean_event_id(events.last().1);
        assert(d.push((events.last().0, events.last().1)) =~= events);
    }
}

/// A hook event that installing can add to and removing give back: absent,
/// or a list of matchers that is not empty.
pub open spec fn fits_undo(v: Option<Json>) -> bool {
    match v {
        None => true,
        Some(Json::Array(list)) => list.len() > 0,
        _ => false,
    }
}

/// Adding this tool's matchers to hooks that hold none of its entries, with
/// each hook event absent or holding matchers, is undone by taking the
/// entries out; the later hook events are left alone.
proof fn lemma_add_hooks_undone(e0: Seq<(Seq<char>, Json)>, shim: bool, port: u16, n: nat)
    requires
        n <= 4,
        !has_entry(Json::Object(e0)),
        removed_events(e0) == e0,
        forall|k: int| 0 <= k < 4 ==> fits_undo(#[trigger] member_value(e0, hook_events()[k].0)),
    ensures
        removed_events(add_hooks(e0, shim, port, n)) == e0,
        forall|k: int| n <= k < 4 ==> member_value(add_hooks(e0, shim, port, n), #[trigger] hook_events()[k].0)
            == member_value(e0, hook_events()[k].0),
    decreases n,
{
    if n > 0 {
        lemma_add_hooks_undone(e0, shim, port, (n - 1) as nat);
        lemma_event_names();
        let e = add_hooks(e0, shim, port, (n - 1) as nat);
        let ev = hook_events()[n - 1];
        let name = ev.0;
        let m = matcher_of(hook_entry(shim, port, ev.1));
        assert(member_value(e, hook_events()[n - 1].0) == member_value(e0, hook_events()[n - 1].0));
        assert(fits_undo(member_value(e0, hook_events()[n - 1].0)));
        let list = event_list(e, name);
        let e2 = add_matcher(e, name, m);
        assert(e2 == add_hooks(e0, shim, port, n));
        lemma_last_index(e, name);
        lemma_matcher_of_marked(shim, port, ev.1);
        let i = last_index_of(e, name);
        if i < 0 {
            assert(list == Seq::<Json>::empty());
            let v = Json::Array(list.push(m));
            assert(e2 == e.push((name, v)));
            assert(list.push(m)[0] == m);
            assert(matcher_marked(v->Array_0[0]));
            assert(event_marked(v));
            lemma_clean_push_ours(list, shim, port, ev.1);
            assert(clean_matchers(list) == list);
            assert(emptied(v));
            assert(e2.drop_last() =~= e);
        } else {
            lemma_last_index(e0, name);
            let i0 = last_index_of(e0, name);
            assert(e0[i0].1 == Json::Array(list));
            lemma_no_entry_at(e0, i0);
            lemma_clean_event_id(Json::Array(list));
            assert(clean_matchers(list) == list);
            lemma_clean_push_ours(list, shim, port, ev.1);
            let v = Json::Array(list.push(m));
            assert(clean_event(v) == Json::Array(list));
            assert(list.len() > 0);
            assert(Json::Array(list) != Json::Array(Seq::<Json>::empty())) by {
                assert(list.len() != Seq::<Json>::empty().len());
            }
            assert(!emptied(v));
            assert(e[i] == (name, Json::Array(list)));
            assert(e2 == e.update(i, (e[i].0, v)));
            lemma_removed_update_same(e, i, v);
        }
        assert forall|k: int| n <= k < 4 implies member_value(e2, #[trigger] hook_events()[k].0)
            == member_value(e0, hook_events()[k].0) by {
            lemma_put_member_other(e, name, Json::Array(list.push(m)), hook_events()[k].0);
        }
    }
}

/// Removing the hooks undoes installing them.  This holds of every settings
/// object whose hooks (where present) are an object that is not empty, hold
/// no entry of this tool's, and list matchers under each hook event they
/// name: removing after installing gives the settings back unchanged.  A
/// `hooks` object or a hook event's list that installing created is taken
/// out again; an empty one that was there before could not be told from it.
pub proof fn law_uninstall_undoes_install(root: Json, force: bool, shim: bool, port: u16)
    requires
        root is Object,
        hooks_of(root) is Object,
        events_are_lists(hooks_of(root)->Object_0),
        !has_entry(hooks_of(root)),
        root.get("hooks"@) != Some(Json::Object(Seq::empty())),
        forall|k: int| 0 <= k < 4 ==> member_value(hooks_of(root)->Object_0, #[trigger] hook_events()[k].0)
            != Some(Json::Array(Seq::empty())),
    ensures
        uninstalled(installed(root, force, shim, port)) == root,
{
    let ms = root->Object_0;
    let h0 = hooks_of(root);
    let e0 = h0->Object_0;
    lemma_removed_events_id(e0);
    assert(removed(h0) == h0);
    assert forall|k: int| 0 <= k < 4 implies fits_undo(#[trigger] member_value(e0, hook_events()[k].0)) by {
        lemma_lists_member(e0, k);
        match member_value(e0, hook_events()[k].0) {
            Some(Json::Array(l)) => {
                if l.len() == 0 {
                    assert(l =~= Seq::<Json>::empty());
                }
            },
            _ => {},
        }
    }
    lemma_add_hooks_undone(e0, shim, port, 4);
    let e4 = add_hooks(e0, shim, port, 4);
    let ms2 = put_member(ms, "hooks"@, Json::Object(e4));
    assert(installed(root, force, shim, port) == Json::Object(ms2));
    lemma_put_member(ms, "hooks"@, Json::Object(e4));
    assert(hooks_of(Json::Object(ms2)) == Json::Object(e4));
    assert(removed(Json::Object(e4)) == Json::Object(e0));
    lemma_last_index(ms, "hooks"@);
    let hi = last_index_of(ms, "hooks"@);
    if e0.len() == 0 {
        assert(e0 =~= Seq::<(Seq<char>, Json)>::empty());
        assert(root.get("hooks"@) is None);
        assert(hi < 0);
        assert(ms2 == ms.push(("hooks"@, Json::Object(e4))));
        assert(ms2.drop_last() =~= ms);
        assert(without_member(ms2, "hooks"@) == without_member(ms, "hooks"@));
        lemma_without_member_id(ms, "hooks"@);
    } else {
        assert(Json::Object(e0) != Json::Object(Seq::<(Seq<char>, Json)>::empty())) by {
            assert(e0.len() != Seq::<(Seq<char>, Json)>::empty().len());
        }
        assert(root.get("hooks"@) is Some);
        assert(hi >= 0);
        assert(ms[hi].1 == h0);
        assert(ms2 == ms.update(hi, ("hooks"@, Json::Object(e4))));
        assert forall|j: int| hi < j < ms2.len() implies (#[trigger] ms2[j]).0 != "hooks"@ by {
            assert(ms2[j] == ms[j]);
        }
        lemma_member_at(ms2, "hooks"@, hi);
        let ms3 = put_member(ms2, "hooks"@, Json::Object(e0));
        assert(ms3 =~= ms);
    }
}

/// Adding matchers for the first `n` hook events leaves any other member as
/// it was.
proof fn lemma_add_hooks_other(e: Seq<(Seq<char>, Json)>, shim: bool, port: u16, n: nat, key: Seq<char>)
    requires
        n <= 4,
        forall|j: int| 0 <= j < n ==> #[trigger] hook_events()[j].0 != key,
    ensures
        member_value(add_hooks(e, shim, port, n), key) == member_value(e, key),
    decreases n,
{
    if n > 0 {
        lemma_add_hooks_other(e, shim, port, (n - 1) as nat, key);
        let prev = add_hooks(e, shim, port, (n - 1) as nat);
        let ev = hook_events()[n - 1];
        assert(ev.0 != key);
        lemma_put_member_other(
            prev,
            ev.0,
            Json::Array(event_list(prev, ev.0).push(matcher_of(hook_entry(shim, port, ev.1)))),
            key,
        );
    }
}

/// After the matchers are added, hook event `k` lists what it listed before
/// with this tool's matcher at the end.
proof fn lemma_add_hooks_event(e: Seq<(Seq<char>, Json)>, shim: bool, port: u16, k: int)
    requires
        0 <= k < 4,
    ensures
        member_value(add_hooks(e, shim, port, 4), hook_events()[k].0) == Some(
            Json::Array(event_list(e, hook_events()[k].0).push(matcher_of(hook_entry(shim, port, hook_events()[k].1)))),
        ),
{
    lemma_event_names();
    let name = hook_events()[k].0;
    let m = matcher_of(hook_entry(shim, port, hook_events()[k].1));
    assert forall|j: int| 0 <= j < k implies #[trigger] hook_events()[j].0 != name by {}
    lemma_add_hooks_other(e, shim, port, k as nat, name);
    let before = add_hooks(e, shim, port, k as nat);
    let list = Json::Array(event_list(before, name).push(m));
    assert(add_hooks(e, shim, port, (k + 1) as nat) == put_member(before, name, list));
    lemma_put_member(before, name, list);
    assert forall|j: int| 0 <= j < 4 - (k + 1) implies #[trigger] hook_events()[j + k + 1].0 != name by {}
    lemma_add_hooks_tail(e, shim, port, (k + 1) as nat, 4, name);
}

/// Steps from `a` to `b` leave a member named by none of those steps alone.
proof fn lemma_add_hooks_tail(e: Seq<(Seq<char>, Json)>, shim: bool, port: u16, a: nat, b: nat, key: Seq<char>)
    requires
        a <= b <= 4,
        forall|j: int| 0 <= j < b - a ==> #[trigger] hook_events()[j + a].0 != key,
    ensures
        member_value(add_hooks(e, shim, port, b), key) == member_value(add_hooks(e, shim, port, a), key),
    decreases b - a,
{
    if a < b {
        lemma_add_hooks_tail(e, shim, port, a, (b - 1) as nat, key);
        let prev = add_hooks(e, shim, port, (b - 1) as nat);
        let ev = hook_events()[b - 1];
        assert(hook_events()[(b - 1 - a) + a].0 != key);
        lemma_put_member_other(
            prev,
            ev.0,
            Json::Array(event_list(prev, ev.0).push(matcher_of(hook_entry(shim, port, ev.1)))),
            key,
        );
    }
}

/// Reinstalling never doubles the hooks: after installing with `force`,
/// each hook event lists exactly one matcher of this tool's, the last one.
pub proof fn law_reinstall_single_entry(root: Json, shim: bool, port: u16, k: int)
    requires
        install_ok(root, true),
        0 <= k < 4,
    ensures
        member_value(hooks_of(installed(root, true, shim, port))->Object_0, hook_events()[k].0) matches Some(Json::Array(ms))
            && ms.len() > 0
            && matcher_marked(ms[ms.len() - 1])
            && forall|j: int| 0 <= j < ms.len() - 1 ==> !matcher_marked(#[trigger] ms[j]),
{
    let h0 = hooks_of(root);
    let e0 = h0->Object_0;
    let e1 = removed(h0)->Object_0;
    let name = hook_events()[k].0;
    let e4 = add_hooks(e1, shim, port, 4);
    lemma_put_member(root->Object_0, "hooks"@, Json::Object(e4));
    assert(hooks_of(installed(root, true, shim, port)) == Json::Object(e4));
    lemma_add_hooks_event(e1, shim, port, k);
    let cleaned = event_list(e1, name);
    assert(forall|j: int| 0 <= j < cleaned.len() ==> !matcher_marked(#[trigger] cleaned[j])) by {
        lemma_last_index(e1, name);
        let i = last_index_of(e1, name);
        if i >= 0 {
            lemma_removed_from(e0);
            let j = choose|j: int| 0 <= j < e0.len() && #[trigger] e1[i] == (e0[j].0, clean_event(e0[j].1));
            match e0[j].1 {
                Json::Array(l) => {
                    lemma_clean_matchers(l);
                },
                _ => {},
            }
        }
    }
    lemma_matcher_of_marked(shim, port, hook_events()[k].1);
    let ms = cleaned.push(matcher_of(hook_entry(shim, port, hook_events()[k].1)));
    assert forall|j: int| 0 <= j < ms.len() - 1 implies !matcher_marked(#[trigger] ms[j]) by {
        assert(ms[j] == cleaned[j]);
    }
}

// ---------------------------------------------------------------------------
// The settings file's text
// ---------------------------------------------------------------------------

/// The settings document of the file's text: an empty object where there
/// is no file or its text does not read as JSON.
pub open spec fn settings_of(text: Option<Seq<char>>) -> Json {
    match text {
        Some(t) => match json_parse_result(t) {
            Some(v) => v,
            None => Json::Object(Seq::empty()),
        },
        None => Json::Object(Seq::empty()),
    }
}

pub open spec fn opt_text_view(text: Option<&str>) -> Option<Seq<char>> {
    match text {
        Some(t) => Some(t@),
        None => None,
    }
}

/// Reads the settings document (see [`settings_of`]).
pub fn settings_doc(text: Option<&str>) -> (r: JsonValue)
    ensures
        r@ == settings_of(opt_text_view(text)),
{
    let parsed = match text {
        Some(t) => parse_json(t),
        None => None,
    };
    match parsed {
        Some(v) => v,
        None => {
            let empty: Vec<(String, JsonValue)> = Vec::new();
            proof {
                lemma_object_view(empty);
                assert(members_view(empty@) =~= Seq::<(Seq<char>, Json)>::empty());
            }
            JsonValue::Object(empty)
        },
    }
}

/// What installing into a settings file comes to.
pub enum InstallPlan {
    /// The hooks are installed already: nothing is written.
    AlreadyInstalled,
    /// The indented text to write back.
    Write(String),
    /// The settings cannot take the hooks (see [`install_ok`]): not an
    /// object, or hooks that are not an object of lists.
    Refused,
}

/// Installs the hooks into the settings file's text (absent where there is
/// no file).
pub fn install_settings(text: Option<&str>, port: u16, force: bool, shim: bool) -> (r: InstallPlan)
    ensures
        match r {
            InstallPlan::Refused => !install_ok(settings_of(opt_text_view(text)), force),
            InstallPlan::AlreadyInstalled => {
                &&& install_ok(settings_of(opt_text_view(text)), force)
                &&& !force && has_entry(hooks_of(settings_of(opt_text_view(text))))
            },
            InstallPlan::Write(t) => {
                &&& install_ok(settings_of(opt_text_view(text)), force)
                &&& force || !has_entry(hooks_of(settings_of(opt_text_view(text))))
                &&& t@ == json_pretty_text(installed(settings_of(opt_text_view(text)), force, shim, port))
            },
        },
{
    let root = settings_doc(text);
    if !can_install(&root, force) {
        return InstallPlan::Refused;
    }
    match install_hooks(root, port, force, shim) {
        InstallOutcome::AlreadyInstalled => InstallPlan::AlreadyInstalled,
        InstallOutcome::Updated(v) => InstallPlan::Write(json_to_pretty_text(&v)),
    }
}

/// What removing the hooks from a settings file comes to.
pub enum UninstallPlan {
    /// The text does not read as JSON.
    InvalidJson,
    /// No entry of this tool's was found: nothing is written.
    NotInstalled,
    /// The indented text to write back.
    Write(String),
}

/// Takes the hooks out of the settings file's text.
pub fn uninstall_settings(text: &str) -> (r: UninstallPlan)
    ensures
        match r {
            UninstallPlan::InvalidJson => json_parse_result(text@) is None,
            UninstallPlan::NotInstalled => json_parse_result(text@) matches Some(v) && !has_entry(hooks_of(v)),
            UninstallPlan::Write(t) => json_parse_result(text@) matches Some(v) && has_entry(hooks_of(v))
                && t@ == json_pretty_text(uninstalled(v)),
        },
{
    match parse_json(text) {
        None => UninstallPlan::InvalidJson,
        Some(root) => match uninstall_hooks(root) {
            UninstallOutcome::NotInstalled => UninstallPlan::NotInstalled,
            UninstallOutcome::Updated(v) => UninstallPlan::Write(json_to_pretty_text(&v)),
        },
    }
}

} // verus!
