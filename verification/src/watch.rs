use vstd::prelude::*;

use crate::json::str_eq;
use crate::paths::{extension, extension_of, file_stem, file_stem_of};
use crate::types::WsMessage;

verus! {

// ---------------------------------------------------------------------------
// Which file changes are transcripts
// ---------------------------------------------------------------------------

/// A transcript is a file whose extension is `jsonl`.
pub open spec fn is_transcript(path: Seq<char>) -> bool {
    extension_of(path) == Some("jsonl"@)
}

/// Whether a path names a transcript.
pub fn is_transcript_path(path: &str) -> (r: bool)
    ensures
        r == is_transcript(path@),
{
    match extension(path) {
        Some(e) => str_eq(e.as_str(), "jsonl"),
        None => false,
    }
}

/// The kind of a change the file watcher reports.
#[derive(Debug, Clone, Copy, PartialEq, Eq, Structural)]
pub enum FsChange {
    Create,
    Modify,
    Other,
}

/// The transcripts among the paths of a change, in order; only creations
/// and modifications count.
pub open spec fn changed_transcripts(change: FsChange, paths: Seq<Seq<char>>) -> Seq<Seq<char>>
    decreases paths.len(),
{
    if change == FsChange::Other || paths.len() == 0 {
        Seq::empty()
    } else {
        let rest = changed_transcripts(change, paths.drop_last());
        if is_transcript(paths.last()) {
            rest.push(paths.last())
        } else {
            rest
        }
    }
}

pub open spec fn strings_view(v: Seq<String>) -> Seq<Seq<char>> {
    Seq::new(v.len(), |i: int| v[i]@)
}

/// The transcripts among the paths of a change (see [`changed_transcripts`]).
pub fn transcripts_of_change(change: FsChange, paths: Vec<String>) -> (r: Vec<String>)
    ensures
        strings_view(r@) == changed_transcripts(change, strings_view(paths@)),
{
    let ghost all = strings_view(paths@);
    let mut out: Vec<String> = Vec::new();
    if change == FsChange::Other {
        return out;
    }
    let mut i: usize = 0;
    assert(strings_view(out@) =~= changed_transcripts(change, all.take(0)));
    while i < paths.len()
        invariant
            change != FsChange::Other,
            i <= paths@.len(),
            all == strings_view(paths@),
            strings_view(out@) == changed_transcripts(change, all.take(i as int)),
        decreases paths@.len() - i,
    {
        assert(all.take(i + 1).drop_last() =~= all.take(i as int));
        assert(all.take(i + 1).last() == paths@[i as int]@);
        if is_transcript_path(paths[i].as_str()) {
            out.push(paths[i].clone());
            assert(strings_view(out@) =~= changed_transcripts(change, all.take(i + 1)));
        }
        i = i + 1;
    }
    assert(all.take(i as int) =~= all);
    out
}

/// The session a transcript belongs to: its file name before `.jsonl`,
/// or `unknown`.
pub open spec fn session_of_path(stem: Option<Seq<char>>) -> Seq<char> {
    match stem {
        Some(s) => s,
        None => "unknown"@,
    }
}

/// The session a transcript belongs to (see [`session_of_path`]).
pub fn session_id_of(path: &str) -> (r: String)
    ensures
        r@ == session_of_path(file_stem_of(path@)),
{
    match file_stem(path) {
        Some(s) => s,
        None => "unknown".to_owned(),
    }
}

// ---------------------------------------------------------------------------
// Where to resume reading a transcript
// ---------------------------------------------------------------------------

/// What to do with a transcript whose size and inode were just read.
#[derive(Debug, Clone, Copy, PartialEq, Eq, Structural)]
pub enum ReadPlan {
    /// Nothing new was written since the cursor.
    UpToDate,
    /// Read from this offset to the end.
    ReadFrom(u64),
}

/// The offset to resume from: the stored one, or the start where the file
/// was replaced (another inode) or cut shorter than the cursor.
pub open spec fn resume_offset(size: u64, inode: u64, cursor: (i64, Option<i64>)) -> i64 {
    let inode_changed = match cursor.1 {
        Some(i) => i as u64 != inode,
        None => false,
    };
    if inode_changed || size < cursor.0 as u64 {
        0
    } else {
        cursor.0
    }
}

/// Reading resumes at [`resume_offset`] unless the file holds nothing past it.
pub open spec fn read_plan(size: u64, inode: u64, cursor: (i64, Option<i64>)) -> ReadPlan {
    let offset = resume_offset(size, inode, cursor);
    if size <= offset as u64 {
        ReadPlan::UpToDate
    } else {
        ReadPlan::ReadFrom(offset as u64)
    }
}

/// Decides where to resume reading a transcript (see [`read_plan`]).
pub fn plan_read(size: u64, inode: u64, cursor: (i64, Option<i64>)) -> (r: ReadPlan)
    ensures
        r == read_plan(size, inode, cursor),
{
    let inode_changed = match cursor.1 {
        Some(i) => i as u64 != inode,
        None => false,
    };
    let offset: i64 = if inode_changed || size < cursor.0 as u64 {
        0
    } else {
        cursor.0
    };
    if size <= offset as u64 {
        ReadPlan::UpToDate
    } else {
        ReadPlan::ReadFrom(offset as u64)
    }
}

/// What one pass over a transcript stored.
#[derive(Debug, Clone)]
pub struct ProcessReport {
    pub session_id: String,
    pub inserted: usize,
}

/// The messages announcing a pass: the session changed, and, where events
/// were stored, how many.
pub fn report_messages(report: &ProcessReport) -> (r: Vec<WsMessage>)
    ensures
        r@.len() == if report.inserted > 0 { 2int } else { 1int },
        r@[0] matches WsMessage::SessionUpsert { session_id } && session_id@ == report.session_id@,
        report.inserted > 0 ==> (r@[1] matches WsMessage::EventBatch { session_id, inserted }
            && session_id@ == report.session_id@ && inserted == report.inserted),
{
    let mut out: Vec<WsMessage> = Vec::new();
    out.push(WsMessage::SessionUpsert { session_id: report.session_id.clone() });
    if report.inserted > 0 {
        out.push(WsMessage::EventBatch { session_id: report.session_id.clone(), inserted: report.inserted });
    }
    out
}

// ---------------------------------------------------------------------------
// The queue of transcripts waiting to be read
// ---------------------------------------------------------------------------

/// How long a change waits before its transcript is read, in milliseconds.
pub const DEBOUNCE_MS: u64 = 100;

/// How often the queue is looked at, in milliseconds.
pub const POLL_MS: u64 = 50;

/// The queued paths and their due times, as plain values.
pub open spec fn entries_view(e: Seq<(String, u64)>) -> Seq<(Seq<char>, u64)> {
    Seq::new(e.len(), |i: int| (e[i].0@, e[i].1))
}

/// No path occurs twice.
pub open spec fn unique_keys(s: Seq<(Seq<char>, u64)>) -> bool {
    forall|i: int, j: int| 0 <= i < j < s.len() ==> (#[trigger] s[i]).0 != (#[trigger] s[j]).0
}

/// Where `p` is queued, or -1.
pub open spec fn key_index(s: Seq<(Seq<char>, u64)>, p: Seq<char>) -> int
    decreases s.len(),
{
    if s.len() == 0 {
        -1
    } else if s.last().0 == p {
        s.len() - 1
    } else {
        key_index(s.drop_last(), p)
    }
}

/// The queue with `p` due at `due`: its entry updated in place, or a new
/// entry at the end.
pub open spec fn queued(s: Seq<(Seq<char>, u64)>, p: Seq<char>, due: u64) -> Seq<(Seq<char>, u64)> {
    let i = key_index(s, p);
    if i >= 0 {
        s.update(i, (p, due))
    } else {
        s.push((p, due))
    }
}

/// The paths due at `now`, in queue order.
pub open spec fn due_keys(s: Seq<(Seq<char>, u64)>, now: u64) -> Seq<Seq<char>>
    decreases s.len(),
{
    if s.len() == 0 {
        Seq::empty()
    } else {
        let rest = due_keys(s.drop_last(), now);
        if s.last().1 <= now {
            rest.push(s.last().0)
        } else {
            rest
        }
    }
}

/// The entries not yet due at `now`, in queue order.
pub open spec fn pending(s: Seq<(Seq<char>, u64)>, now: u64) -> Seq<(Seq<char>, u64)>
    decreases s.len(),
{
    if s.len() == 0 {
        s
    } else {
        let rest = pending(s.drop_last(), now);
        if s.last().1 <= now {
            rest
        } else {
            rest.push(s.last())
        }
    }
}

/// Whether `p` is queued.
pub open spec fn has_key(s: Seq<(Seq<char>, u64)>, p: Seq<char>) -> bool {
    exists|i: int| 0 <= i < s.len() && (#[trigger] s[i]).0 == p
}

pub proof fn lemma_key_index(s: Seq<(Seq<char>, u64)>, p: Seq<char>)
    ensures
        -1 <= key_index(s, p) < s.len(),
        key_index(s, p) >= 0 ==> s[key_index(s, p)].0 == p,
        key_index(s, p) < 0 ==> !has_key(s, p),
        unique_keys(s) ==> forall|i: int| 0 <= i < s.len() && (#[trigger] s[i]).0 == p ==> key_index(s, p) == i,
    decreases s.len(),
{
    if s.len() > 0 {
        let d = s.drop_last();
        lemma_key_index(d, p);
        if s.last().0 != p {
            if key_index(s, p) < 0 {
                assert forall|i: int| 0 <= i < s.len() implies (#[trigger] s[i]).0 != p by {
                    if i < d.len() {
                        assert(s[i] == d[i]);
                        assert(!has_key(d, p));
                        if d[i].0 == p {
                            assert(has_key(d, p));
                        }
                    }
                }
            }
            if unique_keys(s) {
                assert(unique_keys(d)) by {
                    assert forall|i: int, j: int| 0 <= i < j < d.len() implies (#[trigger] d[i]).0 != (#[trigger] d[j]).0 by {
                        assert(s[i] == d[i] && s[j] == d[j]);
                    }
                }
                assert forall|i: int| 0 <= i < s.len() && (#[trigger] s[i]).0 == p implies key_index(s, p) == i by {
                    assert(s[i] == d[i]);
                }
            }
        } else if unique_keys(s) {
            assert forall|i: int| 0 <= i < s.len() && (#[trigger] s[i]).0 == p implies key_index(s, p) == i by {
                if i < s.len() - 1 {
                    assert(s[i].0 != s[s.len() - 1].0);
                }
            }
        }
    }
}

proof fn lemma_pending_from(s: Seq<(Seq<char>, u64)>, now: u64)
    ensures
        forall|k: int| 0 <= k < pending(s, now).len() ==> exists|i: int| 0 <= i < s.len() && #[trigger] s[i] == #[trigger] pending(s, now)[k] && s[i].1 > now,
        unique_keys(s) ==> unique_keys(pending(s, now)),
    decreases s.len(),
{
    if s.len() > 0 {
        let d = s.drop_last();
        let rest = pending(d, now);
        lemma_pending_from(d, now);
        assert forall|k: int| 0 <= k < pending(s, now).len() implies exists|i: int| 0 <= i < s.len() && #[trigger] s[i] == #[trigger] pending(s, now)[k] && s[i].1 > now by {
            if k < rest.len() {
                let i = choose|i: int| 0 <= i < d.len() && #[trigger] d[i] == #[trigger] rest[k] && d[i].1 > now;
                assert(s[i] == d[i]);
                assert(pending(s, now)[k] == rest[k]);
            } else {
                assert(pending(s, now)[k] == s[s.len() - 1]);
            }
        }
        if unique_keys(s) {
            assert(unique_keys(d)) by {
                assert forall|i: int, j: int| 0 <= i < j < d.len() implies (#[trigger] d[i]).0 != (#[trigger] d[j]).0 by {
                    assert(s[i] == d[i] && s[j] == d[j]);
                }
            }
            let r = pending(s, now);
            assert forall|a: int, b: int| 0 <= a < b < r.len() implies (#[trigger] r[a]).0 != (#[trigger] r[b]).0 by {
                if b < rest.len() {
                    assert(r[a] == rest[a] && r[b] == rest[b]);
                } else {
                    assert(r[a] == rest[a]);
                    let i = choose|i: int| 0 <= i < d.len() && #[trigger] d[i] == #[trigger] rest[a] && d[i].1 > now;
                    assert(s[i] == d[i]);
                    assert(r[b] == s[s.len() - 1]);
                }
            }
        }
    }
}

proof fn lemma_due_keys_from(s: Seq<(Seq<char>, u64)>, now: u64)
    ensures
        forall|k: int| 0 <= k < due_keys(s, now).len() ==> exists|i: int| 0 <= i < s.len() && (#[trigger] s[i]).0 == #[trigger] due_keys(s, now)[k] && s[i].1 <= now,
        forall|i: int| 0 <= i < s.len() && (#[trigger] s[i]).1 <= now ==> due_keys(s, now).contains(s[i].0),
    decreases s.len(),
{
    if s.len() == 0 {
        assert(due_keys(s, now).len() == 0);
    } else {
        let d = s.drop_last();
        let rest = due_keys(d, now);
        lemma_due_keys_from(d, now);
        assert forall|k: int| 0 <= k < due_keys(s, now).len() implies exists|i: int| 0 <= i < s.len() && (#[trigger] s[i]).0 == #[trigger] due_keys(s, now)[k] && s[i].1 <= now by {
            if k < rest.len() {
                let i = choose|i: int| 0 <= i < d.len() && (#[trigger] d[i]).0 == #[trigger] rest[k] && d[i].1 <= now;
                assert(s[i] == d[i]);
                assert(due_keys(s, now)[k] == rest[k]);
            } else {
                assert(due_keys(s, now)[k] == s[s.len() - 1].0);
            }
        }
        assert forall|i: int| 0 <= i < s.len() && (#[trigger] s[i]).1 <= now implies due_keys(s, now).contains(s[i].0) by {
            if i < d.len() {
                assert(s[i] == d[i]);
                assert(rest.contains(d[i].0));
                let k = choose|k: int| 0 <= k < rest.len() && rest[k] == d[i].0;
                assert(due_keys(s, now)[k] == rest[k]);
            } else {
                assert(due_keys(s, now)[due_keys(s, now).len() - 1] == s[i].0);
            }
        }
    }
}

/// Transcripts waiting to be read, each with the time (in milliseconds)
/// from which it is due, in the order they were first queued.  A path is
/// queued at most once.
pub struct DebounceQueue {
    entries: Vec<(String, u64)>,
}

impl View for DebounceQueue {
    type V = Seq<(Seq<char>, u64)>;

    closed spec fn view(&self) -> Seq<(Seq<char>, u64)> {
        entries_view(self.entries@)
    }
}

impl DebounceQueue {
    /// No path is queued twice.
    pub open spec fn wf(&self) -> bool {
        unique_keys(self@)
    }

    /// The empty queue.
    pub fn new() -> (r: DebounceQueue)
        ensures
            r.wf(),
            r@ == Seq::<(Seq<char>, u64)>::empty(),
    {
        let r = DebounceQueue { entries: Vec::new() };
        assert(r@ =~= Seq::<(Seq<char>, u64)>::empty());
        r
    }

    /// How many paths are queued.
    pub fn len(&self) -> (r: usize)
        ensures
            r == self@.len(),
    {
        self.entries.len()
    }

    /// Queues `path`, due at `due`; a path already queued is due at the new
    /// time instead and keeps its place.
    pub fn insert(&mut self, path: String, due: u64)
        requires
            old(self).wf(),
        ensures
            final(self).wf(),
            final(self)@ == queued(old(self)@, path@, due),
    {
        let ghost before = self@;
        proof {
            lemma_key_index(before, path@);
        }
        let mut i: usize = 0;
        while i < self.entries.len()
            invariant
                i <= self.entries@.len(),
                self@ == before,
                before == old(self)@,
                unique_keys(before),
                forall|q: int| 0 <= q < i ==> (#[trigger] before[q]).0 != path@,
            decreases self.entries@.len() - i,
        {
            if str_eq(self.entries[i].0.as_str(), path.as_str()) {
                let key = self.entries[i].0.clone();
                self.entries.set(i, (key, due));
                proof {
                    lemma_key_index(before, path@);
                    assert(before[i as int].0 == path@);
                    assert(self@ =~= queued(before, path@, due));
                    assert forall|a: int, b: int| 0 <= a < b < self@.len() implies (#[trigger] self@[a]).0 != (#[trigger] self@[b]).0 by {
                        assert(before[a].0 != before[b].0);
                    }
                }
                return;
            }
            i = i + 1;
        }
        proof {
            assert forall|q: int| 0 <= q < before.len() implies (#[trigger] before[q]).0 != path@ by {}
            if key_index(before, path@) >= 0 {
                assert(before[key_index(before, path@)].0 == path@);
            }
        }
        self.entries.push((path, due));
        proof {
            assert(self@ =~= queued(before, path@, due));
        }
    }

    /// Queues a transcript the file watcher saw change: due a little later,
    /// so that a burst of writes is read once.
    pub fn queue_change(&mut self, path: String, now_ms: u64)
        requires
            old(self).wf(),
            now_ms + DEBOUNCE_MS <= u64::MAX,
        ensures
            final(self).wf(),
            final(self)@ == queued(old(self)@, path@, (now_ms + DEBOUNCE_MS) as u64),
    {
        self.insert(path, now_ms + DEBOUNCE_MS);
    }

    /// Queues a transcript a hook asked for: due at once.
    pub fn queue_now(&mut self, path: String, now_ms: u64)
        requires
            old(self).wf(),
        ensures
            final(self).wf(),
            final(self)@ == queued(old(self)@, path@, now_ms),
    {
        self.insert(path, now_ms);
    }

    /// Takes out every path due at `now_ms`, in queue order; the others stay.
    pub fn take_due(&mut self, now_ms: u64) -> (r: Vec<String>)
        requires
            old(self).wf(),
        ensures
            final(self).wf(),
            final(self)@ == pending(old(self)@, now_ms),
            strings_view(r@) == due_keys(old(self)@, now_ms),
    {
        let ghost before = self@;
        let mut ready: Vec<String> = Vec::new();
        let mut kept: Vec<(String, u64)> = Vec::new();
        let mut i: usize = 0;
        assert(strings_view(ready@) =~= due_keys(before.take(0), now_ms));
        assert(entries_view(kept@) =~= pending(before.take(0), now_ms));
        while i < self.entries.len()
            invariant
                i <= before.len(),
                self@ == before,
                self.entries@.len() == before.len(),
                strings_view(ready@) == due_keys(before.take(i as int), now_ms),
                entries_view(kept@) == pending(before.take(i as int), now_ms),
            decreases before.len() - i,
        {
            let path = self.entries[i].0.clone();
            let due = self.entries[i].1;
            assert(before.take(i + 1).drop_last() =~= before.take(i as int));
            assert(before.take(i + 1).last() == (path@, due));
            if due <= now_ms {
                ready.push(path);
                assert(strings_view(ready@) =~= due_keys(before.take(i + 1), now_ms));
                assert(entries_view(kept@) =~= pending(before.take(i + 1), now_ms));
            } else {
                kept.push((path, due));
                assert(strings_view(ready@) =~= due_keys(before.take(i + 1), now_ms));
                assert(entries_view(kept@) =~= pending(before.take(i + 1), now_ms));
            }
            i = i + 1;
        }
        assert(before.take(i as int) =~= before);
        self.entries = kept;
        proof {
            lemma_pending_from(before, now_ms);
        }
        ready
    }
}

/// A path taken out as due is no longer queued, and a path still queued
/// was not due.
pub proof fn law_taken_not_pending(s: Seq<(Seq<char>, u64)>, now: u64, p: Seq<char>)
    requires
        unique_keys(s),
        due_keys(s, now).contains(p),
    ensures
        !has_key(pending(s, now), p),
{
    lemma_due_keys_from(s, now);
    lemma_pending_from(s, now);
    let k = choose|k: int| 0 <= k < due_keys(s, now).len() && due_keys(s, now)[k] == p;
    let i = choose|i: int| 0 <= i < s.len() && (#[trigger] s[i]).0 == due_keys(s, now)[k] && s[i].1 <= now;
    if has_key(pending(s, now), p) {
        let m = choose|m: int| 0 <= m < pending(s, now).len() && (#[trigger] pending(s, now)[m]).0 == p;
        let j = choose|j: int| 0 <= j < s.len() && #[trigger] s[j] == #[trigger] pending(s, now)[m] && s[j].1 > now;
        if i < j {
            assert(s[i].0 != s[j].0);
        } else if j < i {
            assert(s[j].0 != s[i].0);
        }
    }
}

/// A transcript a hook asked for is read at the next look at the queue.
pub proof fn law_queued_now_is_due(s: Seq<(Seq<char>, u64)>, p: Seq<char>, now: u64)
    ensures
        due_keys(queued(s, p, now), now).contains(p),
{
    lemma_key_index(s, p);
    let q = queued(s, p, now);
    let i = if key_index(s, p) >= 0 { key_index(s, p) } else { s.len() as int };
    assert(q[i] == (p, now));
    lemma_due_keys_from(q, now);
}

/// A transcript the watcher saw change waits: it is not read at the time
/// of the change.
pub proof fn law_change_waits(s: Seq<(Seq<char>, u64)>, p: Seq<char>, now: u64)
    requires
        unique_keys(s),
        now + DEBOUNCE_MS <= u64::MAX,
    ensures
        !due_keys(queued(s, p, (now + DEBOUNCE_MS) as u64), now).contains(p),
{
    lemma_key_index(s, p);
    let due = (now + DEBOUNCE_MS) as u64;
    let q = queued(s, p, due);
    lemma_due_keys_from(q, now);
    if due_keys(q, now).contains(p) {
        let k = choose|k: int| 0 <= k < due_keys(q, now).len() && due_keys(q, now)[k] == p;
        let j = choose|j: int| 0 <= j < q.len() && (#[trigger] q[j]).0 == due_keys(q, now)[k] && q[j].1 <= now;
        let i = if key_index(s, p) >= 0 { key_index(s, p) } else { s.len() as int };
        assert(q[i] == (p, due));
        if j != i {
            assert(q[j] == s[j]);
            if key_index(s, p) >= 0 {
                if j < i {
                    assert(s[j].0 != s[i].0);
                } else {
                    assert(s[i].0 != s[j].0);
                }
            } else {
                assert(has_key(s, p));
            }
        }
    }
}

/// Where reading a transcript resumes: never at or past its end; at the
/// start where the file was replaced (another inode) or cut shorter than
/// the cursor; else at the cursor, where there is anything past it.
pub proof fn law_resume_where_left(size: u64, inode: u64, cursor: (i64, Option<i64>))
    requires
        0 <= cursor.0,
        cursor.1 matches Some(i) ==> i >= 0,
    ensures
        read_plan(size, inode, cursor) matches ReadPlan::ReadFrom(o) ==> o < size,
        (cursor.1 matches Some(i) && i != inode) ==> read_plan(size, inode, cursor) == if size > 0 {
            ReadPlan::ReadFrom(0)
        } else {
            ReadPlan::UpToDate
        },
        size < cursor.0 ==> read_plan(size, inode, cursor) == if size > 0 {
            ReadPlan::ReadFrom(0)
        } else {
            ReadPlan::UpToDate
        },
        ((cursor.1 matches Some(i) ==> i == inode) && cursor.0 <= size) ==> read_plan(size, inode, cursor) == if cursor.0
            < size {
            ReadPlan::ReadFrom(cursor.0 as u64)
        } else {
            ReadPlan::UpToDate
        },
{
}

} // verus!
