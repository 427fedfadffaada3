use vstd::prelude::*;

use crate::parser::{
    batch_in_range, batch_of, events_view, law_batch_split, lemma_batch_nonneg, lines_view, parse_lines_checked, BatchView, ParseBatch,
};
use crate::types::EventView;
use crate::stats::{file_stats, parse_file_lines, Stats, StatsView};

verus! {

// ---------------------------------------------------------------------------
// A transcript's bytes, cut into lines
// ---------------------------------------------------------------------------

/// The pieces of `c` between newline bytes, as splitting on `b'\n'` gives
/// them: there is always one more piece than there are newlines, and the
/// last piece is what follows the last newline (a line still being
/// written, or nothing).
pub open spec fn pieces(c: Seq<u8>) -> Seq<Seq<u8>>
    decreases c.len(),
{
    if c.len() == 0 {
        seq![Seq::empty()]
    } else {
        let p = pieces(c.drop_last());
        if c.last() == 10u8 {
            p.push(Seq::empty())
        } else {
            p.update(p.len() - 1, p.last().push(c.last()))
        }
    }
}

/// The complete lines of `c`: those ended by a newline, without it.
pub open spec fn complete_lines(c: Seq<u8>) -> Seq<Seq<u8>> {
    pieces(c).drop_last()
}

/// Where the complete lines end: just past the last newline (0 where there
/// is none).
pub open spec fn complete_end(c: Seq<u8>) -> int {
    c.len() - pieces(c).last().len()
}

/// Whether `c` ends where a line ends: it is empty or its last byte is a
/// newline.
pub open spec fn ends_lines(c: Seq<u8>) -> bool {
    pieces(c).last().len() == 0
}

/// The lines of a whole file as `str::lines` gives them: the complete
/// lines, and the last piece where it is not empty.
pub open spec fn file_lines(c: Seq<u8>) -> Seq<Seq<u8>> {
    if ends_lines(c) {
        complete_lines(c)
    } else {
        pieces(c)
    }
}

/// The basic facts of the pieces: there is a last one, it holds no
/// newline, it is what follows the complete lines, and cutting `c` where
/// the complete lines end leaves those lines and an empty last piece.
pub proof fn lemma_pieces(c: Seq<u8>)
    ensures
        pieces(c).len() >= 1,
        0 <= complete_end(c) <= c.len(),
        c.subrange(complete_end(c), c.len() as int) == pieces(c).last(),
        forall|i: int| 0 <= i < pieces(c).last().len() ==> pieces(c).last()[i] != 10u8,
        pieces(c.take(complete_end(c))) == complete_lines(c).push(Seq::<u8>::empty()),
    decreases c.len(),
{
    if c.len() == 0 {
        assert(c.take(0) =~= c);
        assert(c.subrange(0, 0) =~= Seq::<u8>::empty());
        assert(complete_lines(c).push(Seq::<u8>::empty()) =~= seq![Seq::<u8>::empty()]);
    } else {
        let d = c.drop_last();
        lemma_pieces(d);
        let p = pieces(d);
        if c.last() == 10u8 {
            assert(c.take(c.len() as int) =~= c);
            assert(c.subrange(c.len() as int, c.len() as int) =~= Seq::<u8>::empty());
            assert(pieces(c).drop_last() =~= p);
        } else {
            let e = complete_end(d);
            assert(pieces(c).last() == p.last().push(c.last()));
            assert(complete_end(c) == e);
            assert(c.subrange(e, c.len() as int) =~= d.subrange(e, d.len() as int).push(c.last()));
            assert forall|i: int| 0 <= i < pieces(c).last().len() implies pieces(c).last()[i] != 10u8 by {
                if i < p.last().len() {
                    assert(pieces(c).last()[i] == p.last()[i]);
                }
            }
            assert(c.take(e) =~= d.take(e));
            assert(pieces(c).drop_last() =~= p.drop_last());
        }
    }
}

/// Where `a` ends where a line ends, the pieces of `a` followed by `b` are
/// the complete lines of `a` and then the pieces of `b`.
pub proof fn lemma_pieces_append(a: Seq<u8>, b: Seq<u8>)
    requires
        ends_lines(a),
    ensures
        pieces(a + b) == complete_lines(a) + pieces(b),
    decreases b.len(),
{
    lemma_pieces(a);
    if b.len() == 0 {
        assert(a + b =~= a);
        assert(pieces(a).last() =~= Seq::<u8>::empty());
        assert(complete_lines(a) + pieces(b) =~= pieces(a));
    } else {
        let d = b.drop_last();
        lemma_pieces_append(a, d);
        lemma_pieces(d);
        assert((a + b).drop_last() =~= a + d);
        assert((a + b).last() == b.last());
        let l = complete_lines(a);
        let q = pieces(d);
        if b.last() == 10u8 {
            assert((l + q).push(Seq::<u8>::empty()) =~= l + q.push(Seq::<u8>::empty()));
        } else {
            assert((l + q).update((l + q).len() - 1, (l + q).last().push(b.last())) =~= l + q.update(
                q.len() - 1,
                q.last().push(b.last()),
            ));
        }
    }
}

/// Where `a` ends where a line ends, the complete lines of `a` followed by
/// `b` are those of `a` and then those of `b`, and they end after `a`
/// where those of `b` end.
pub proof fn lemma_lines_append(a: Seq<u8>, b: Seq<u8>)
    requires
        ends_lines(a),
    ensures
        complete_lines(a + b) == complete_lines(a) + complete_lines(b),
        complete_end(a + b) == a.len() + complete_end(b),
        ends_lines(a + b) == ends_lines(b),
{
    lemma_pieces_append(a, b);
    lemma_pieces(b);
    assert((complete_lines(a) + pieces(b)).drop_last() =~= complete_lines(a) + pieces(b).drop_last());
}

/// Cutting where the complete lines end keeps the same complete lines and
/// ends where a line ends.
pub proof fn lemma_cut_at_end(c: Seq<u8>)
    ensures
        ends_lines(c.take(complete_end(c))),
        complete_lines(c.take(complete_end(c))) == complete_lines(c),
        complete_end(c.take(complete_end(c))) == complete_end(c),
{
    lemma_pieces(c);
    let t = c.take(complete_end(c));
    assert(pieces(t).drop_last() =~= complete_lines(c));
}

// ---------------------------------------------------------------------------
// Decoding
// ---------------------------------------------------------------------------

/// The text of some bytes as `std::str::from_utf8` reads them; `None`
/// where they are not UTF-8.
pub uninterp spec fn utf8_of(bytes: Seq<u8>) -> Option<Seq<char>>;

/// The texts of lines, where every one of them is UTF-8.
pub open spec fn decoded(ls: Seq<Seq<u8>>) -> Option<Seq<Seq<char>>>
    decreases ls.len(),
{
    if ls.len() == 0 {
        Some(Seq::empty())
    } else {
        match (decoded(ls.drop_last()), utf8_of(ls.last())) {
            (Some(d), Some(t)) => Some(d.push(t)),
            _ => None,
        }
    }
}

/// Decoding two runs of lines one after the other decodes each.
pub proof fn lemma_decoded_append(a: Seq<Seq<u8>>, b: Seq<Seq<u8>>)
    ensures
        decoded(a + b) == match (decoded(a), decoded(b)) {
            (Some(x), Some(y)) => Some(x + y),
            _ => None,
        },
    decreases b.len(),
{
    if b.len() == 0 {
        assert(a + b =~= a);
        match decoded(a) {
            Some(x) => {
                assert(x + Seq::<Seq<char>>::empty() =~= x);
            },
            None => {},
        }
    } else {
        let d = b.drop_last();
        lemma_decoded_append(a, d);
        assert((a + b).drop_last() =~= a + d);
        assert((a + b).last() == b.last());
        match (decoded(a), decoded(d), utf8_of(b.last())) {
            (Some(x), Some(y), Some(t)) => {
                assert((x + y).push(t) =~= x + y.push(t));
            },
            _ => {},
        }
    }
}

/// Reads bytes as text with `std::str::from_utf8`; the result is named
/// [`utf8_of`].
#[verifier::external_body]
fn utf8_text(bytes: &[u8]) -> (r: Option<String>)
    ensures
        match r {
            Some(s) => utf8_of(bytes@) == Some(s@),
            None => utf8_of(bytes@) is None,
        },
{
    std::str::from_utf8(bytes).ok().map(|s| s.to_string())
}

proof fn lemma_decoded_none_stays(ls: Seq<Seq<u8>>, k: int)
    requires
        0 <= k <= ls.len(),
        decoded(ls.take(k)) is None,
    ensures
        decoded(ls) is None,
{
    lemma_decoded_append(ls.take(k), ls.skip(k));
    assert(ls.take(k) + ls.skip(k) =~= ls);
}

/// The bytes of each line.
pub open spec fn bytes_view(ls: Seq<Vec<u8>>) -> Seq<Seq<u8>> {
    ls.map_values(|v: Vec<u8>| v@)
}

/// Cuts bytes into the pieces between newlines (see [`pieces`]).
pub fn split_pieces(c: &[u8]) -> (r: Vec<Vec<u8>>)
    ensures
        bytes_view(r@) == pieces(c@),
{
    let mut done: Vec<Vec<u8>> = Vec::new();
    let mut cur: Vec<u8> = Vec::new();
    let mut i: usize = 0;
    assert(c@.take(0) =~= Seq::<u8>::empty());
    assert(bytes_view(done@).push(cur@) =~= pieces(c@.take(0)));
    while i < c.len()
        invariant
            i <= c@.len(),
            bytes_view(done@).push(cur@) == pieces(c@.take(i as int)),
        decreases c@.len() - i,
    {
        let b = c[i];
        assert(c@.take(i + 1).drop_last() =~= c@.take(i as int));
        assert(c@.take(i + 1).last() == b);
        let ghost before = bytes_view(done@);
        let ghost cv = cur@;
        if b == 10u8 {
            done.push(cur);
            cur = Vec::new();
            assert(bytes_view(done@) =~= before.push(cv));
            assert(bytes_view(done@).push(cur@) =~= before.push(cv).push(Seq::<u8>::empty()));
        } else {
            cur.push(b);
            assert(bytes_view(done@).push(cur@) =~= before.push(cv).update(before.len() as int, cv.push(b)));
        }
        i = i + 1;
    }
    assert(c@.take(c@.len() as int) =~= c@);
    let ghost before = bytes_view(done@);
    let ghost cv = cur@;
    done.push(cur);
    assert(bytes_view(done@) =~= before.push(cv));
    done
}

/// Reads each line as text; `None` where one of them is not UTF-8.
pub fn decode_lines(ls: &Vec<Vec<u8>>) -> (r: Option<Vec<String>>)
    ensures
        match r {
            Some(v) => decoded(bytes_view(ls@)) == Some(lines_view(v@)),
            None => decoded(bytes_view(ls@)) is None,
        },
{
    let ghost all = bytes_view(ls@);
    let mut out: Vec<String> = Vec::new();
    let mut i: usize = 0;
    assert(all.take(0) =~= Seq::<Seq<u8>>::empty());
    assert(lines_view(out@) =~= Seq::<Seq<char>>::empty());
    while i < ls.len()
        invariant
            i <= ls@.len(),
            all == bytes_view(ls@),
            all.len() == ls@.len(),
            decoded(all.take(i as int)) == Some(lines_view(out@)),
        decreases ls@.len() - i,
    {
        assert(all.take(i + 1).drop_last() =~= all.take(i as int));
        assert(all.take(i + 1).last() == ls@[i as int]@);
        match utf8_text(ls[i].as_slice()) {
            Some(s) => {
                let ghost o = lines_view(out@);
                out.push(s);
                assert(lines_view(out@) =~= o.push(s@));
            },
            None => {
                proof {
                    lemma_decoded_none_stays(all, i + 1);
                }
                return None;
            },
        }
        i = i + 1;
    }
    assert(all.take(i as int) =~= all);
    Some(out)
}

/// Why reading a transcript's bytes gave no batch.
#[derive(Debug, Clone, Copy, PartialEq, Eq, Structural)]
pub enum ReadError {
    /// A line to read is not UTF-8.
    InvalidUtf8,
    /// A counter would leave its machine type.
    Overflow,
}

/// Reading the bytes from `offset` to the end of a file as the watcher
/// does: only the complete lines are read, and the cursor moves to where
/// they end, so that a line still being written is read once it is
/// complete.  The batch and the new cursor, or why there is none.
pub open spec fn tail_outcome(tail: Seq<u8>, offset: int) -> Result<(BatchView, int), ReadError> {
    match decoded(complete_lines(tail)) {
        None => Err(ReadError::InvalidUtf8),
        Some(ls) => if batch_in_range(ls) {
            Ok((batch_of(ls), offset + complete_end(tail)))
        } else {
            Err(ReadError::Overflow)
        },
    }
}

/// Reading a whole file at once: every line is read, the last one too
/// where no newline ends it; the statistics (with the line and error
/// totals set from the batch), the batch, and the file's length.
pub open spec fn whole_outcome(c: Seq<u8>) -> Result<(StatsView, BatchView, int), ReadError> {
    match decoded(file_lines(c)) {
        None => Err(ReadError::InvalidUtf8),
        Some(ls) => if file_stats(ls) is Some && batch_in_range(ls) {
            Ok(
                (
                    StatsView {
                        total_lines: (batch_of(ls).events.len() + batch_of(ls).parse_errors) as int,
                        parse_errors: batch_of(ls).parse_errors as int,
                        ..file_stats(ls)->Some_0
                    },
                    batch_of(ls),
                    c.len() as int,
                ),
            )
        } else {
            Err(ReadError::Overflow)
        },
    }
}

/// The view of a batch.
pub open spec fn batch_view(b: ParseBatch) -> BatchView {
    BatchView { events: events_view(b.events@), meta: b.meta@, parse_errors: b.parse_errors as nat }
}

/// Reads the bytes of a transcript from `offset` to its end (see
/// [`tail_outcome`]).
pub fn read_tail(tail: &[u8], offset: u64) -> (r: Result<ParseBatch, ReadError>)
    requires
        offset + tail@.len() <= u64::MAX,
    ensures
        match r {
            Ok(b) => tail_outcome(tail@, offset as int) == Ok::<(BatchView, int), ReadError>(
                (batch_view(b), b.new_offset as int),
            ),
            Err(e) => tail_outcome(tail@, offset as int) == Err::<(BatchView, int), ReadError>(e),
        },
{
    let mut ps = split_pieces(tail);
    proof {
        lemma_pieces(tail@);
    }
    let ghost all = bytes_view(ps@);
    let last = match ps.pop() {
        Some(l) => l,
        None => {
            proof {
                assert(false);
            }
            Vec::new()
        },
    };
    assert(bytes_view(ps@) =~= all.drop_last());
    assert(last@ == all.last());
    let end = tail.len() - last.len();
    match decode_lines(&ps) {
        None => Err(ReadError::InvalidUtf8),
        Some(lines) => match parse_lines_checked(&lines, offset + end as u64) {
            None => Err(ReadError::Overflow),
            Some(b) => {
                assert(batch_view(b) == batch_of(lines_view(lines@)));
                Ok(b)
            },
        },
    }
}

/// The text of each line of a whole file (see [`file_lines`]); `None`
/// where one of them is not UTF-8.
pub fn file_text_lines(content: &[u8]) -> (r: Option<Vec<String>>)
    ensures
        match r {
            Some(v) => decoded(file_lines(content@)) == Some(lines_view(v@)),
            None => decoded(file_lines(content@)) is None,
        },
{
    let mut ps = split_pieces(content);
    proof {
        lemma_pieces(content@);
    }
    let ghost all = bytes_view(ps@);
    let n = ps.len();
    if ps[n - 1].len() == 0 {
        let _ = ps.pop();
        assert(bytes_view(ps@) =~= all.drop_last());
    }
    decode_lines(&ps)
}

/// Reads a whole transcript's bytes (see [`whole_outcome`]).
pub fn read_whole(content: &[u8]) -> (r: Result<(Stats, ParseBatch), ReadError>)
    ensures
        match r {
            Ok((st, b)) => st.wf() && whole_outcome(content@) == Ok::<(StatsView, BatchView, int), ReadError>(
                (st@, batch_view(b), b.new_offset as int),
            ),
            Err(e) => whole_outcome(content@) == Err::<(StatsView, BatchView, int), ReadError>(e),
        },
{
    match file_text_lines(content) {
        None => Err(ReadError::InvalidUtf8),
        Some(lines) => match parse_file_lines(&lines, content.len() as u64) {
            None => Err(ReadError::Overflow),
            Some((st, b)) => {
                assert(batch_view(b) == batch_of(lines_view(lines@)));
                Ok((st, b))
            },
        },
    }
}

/// Whether a read brought events.  A read that brought none leaves the
/// cursor where it was, and nothing is stored.
pub fn has_news(b: &ParseBatch) -> (r: bool)
    ensures
        r == (b.events@.len() > 0),
{
    b.events.len() > 0
}

// ---------------------------------------------------------------------------
// What the two readers agree on
// ---------------------------------------------------------------------------

/// Reading a whole file at once and reading it from its start as the
/// watcher does agree on every file whose last line is complete: the same
/// events, session facts and errors, and the same cursor, the file's
/// length; the statistics' line total is the events and errors together,
/// and their error total the errors.  Where a line is not UTF-8, neither
/// reader gives a batch.
pub proof fn law_whole_read_is_tail_read(c: Seq<u8>)
    requires
        ends_lines(c),
    ensures
        whole_outcome(c) matches Ok((st, b, n)) ==> {
            &&& tail_outcome(c, 0) == Ok::<(BatchView, int), ReadError>((b, n))
            &&& st.total_lines == b.events.len() + b.parse_errors
            &&& st.parse_errors == b.parse_errors
        },
        (whole_outcome(c) == Err::<(StatsView, BatchView, int), ReadError>(ReadError::InvalidUtf8)) == (
        tail_outcome(c, 0) == Err::<(BatchView, int), ReadError>(ReadError::InvalidUtf8)),
{
    lemma_pieces(c);
    assert(file_lines(c) == complete_lines(c));
    assert(complete_end(c) == c.len());
}

// ---------------------------------------------------------------------------
// Reading a growing file a piece at a time
// ---------------------------------------------------------------------------

/// Reads taken as the watcher takes them while a file grows: read `k`
/// sees the first `sizes[k]` bytes of the final content `f` and reads
/// from the cursor on (see [`tail_outcome`]); where it brings events they
/// are stored and the cursor moves to where its complete lines end, else
/// nothing is stored and the cursor stays.  The events stored, in order,
/// and the cursor.
pub open spec fn follow(f: Seq<u8>, sizes: Seq<int>) -> (Seq<EventView>, int)
    decreases sizes.len(),
{
    if sizes.len() == 0 {
        (Seq::empty(), 0)
    } else {
        let (evs, o) = follow(f, sizes.drop_last());
        let tail = f.subrange(o, sizes.last());
        match tail_outcome(tail, o) {
            Ok((b, n)) => if b.events.len() > 0 {
                (evs + b.events, n)
            } else {
                (evs, o)
            },
            Err(_) => (evs, o),
        }
    }
}

/// Sizes that a file which only grows shows, ending at `n`.
pub open spec fn growing(sizes: Seq<int>, n: int) -> bool {
    forall|i: int, j: int| 0 <= i <= j < sizes.len() ==> 0 <= #[trigger] sizes[i] <= #[trigger] sizes[j] <= n
}

proof fn lemma_range_split(a: Seq<Seq<char>>, b: Seq<Seq<char>>)
    requires
        batch_in_range(a + b),
    ensures
        batch_in_range(a),
        batch_in_range(b),
{
    law_batch_split(a, b);
    lemma_batch_nonneg(a);
    lemma_batch_nonneg(b);
}

proof fn lemma_boundary_split(f: Seq<u8>, o: int)
    requires
        0 <= o <= f.len(),
        ends_lines(f.take(o)),
    ensures
        complete_lines(f) == complete_lines(f.take(o)) + complete_lines(f.skip(o)),
{
    lemma_lines_append(f.take(o), f.skip(o));
    assert(f.take(o) + f.skip(o) =~= f);
}

proof fn lemma_tail_step(f: Seq<u8>, o: int, s: int)
    requires
        0 <= o <= s <= f.len(),
        ends_lines(f.take(o)),
    ensures
        o <= o + complete_end(f.subrange(o, s)) <= s,
        ends_lines(f.take(o + complete_end(f.subrange(o, s)))),
        complete_lines(f.take(o + complete_end(f.subrange(o, s)))) == complete_lines(f.take(o)) + complete_lines(
            f.subrange(o, s),
        ),
{
    let tail = f.subrange(o, s);
    lemma_pieces(tail);
    let e = complete_end(tail);
    lemma_cut_at_end(tail);
    assert(f.take(o + e) =~= f.take(o) + tail.take(e));
    lemma_lines_append(f.take(o), tail.take(e));
}

/// The complete lines read so far are those before the cursor, and the
/// cursor stands where a line ends.
proof fn lemma_follow(f: Seq<u8>, sizes: Seq<int>)
    requires
        growing(sizes, f.len() as int),
        decoded(complete_lines(f)) matches Some(ls) && batch_in_range(ls),
    ensures
        ({
            let (evs, o) = follow(f, sizes);
            &&& 0 <= o <= f.len()
            &&& (sizes.len() > 0 ==> o <= sizes.last())
            &&& ends_lines(f.take(o))
            &&& decoded(complete_lines(f.take(o))) is Some
            &&& evs == batch_of(decoded(complete_lines(f.take(o)))->Some_0).events
        }),
    decreases sizes.len(),
{
    if sizes.len() == 0 {
        lemma_pieces(f.take(0));
        assert(f.take(0) =~= Seq::<u8>::empty());
        assert(complete_lines(Seq::<u8>::empty()) =~= Seq::<Seq<u8>>::empty());
        assert(decoded(Seq::<Seq<u8>>::empty()) == Some(Seq::<Seq<char>>::empty()));
        assert(batch_of(Seq::<Seq<char>>::empty()).events =~= Seq::<EventView>::empty());
        assert(follow(f, sizes) == (Seq::<EventView>::empty(), 0int));
    } else {
        let d = sizes.drop_last();
        assert(growing(d, f.len() as int)) by {
            assert forall|i: int, j: int| 0 <= i <= j < d.len() implies 0 <= #[trigger] d[i] <= #[trigger] d[j]
                <= f.len() by {
                assert(d[i] == sizes[i] && d[j] == sizes[j]);
            }
        }
        lemma_follow(f, d);
        let (evs, o) = follow(f, d);
        let s = sizes.last();
        assert(0 <= s <= f.len() && sizes[sizes.len() - 1] == s);
        if d.len() > 0 {
            assert(d.last() == sizes[d.len() - 1]);
        }
        assert(o <= s);
        lemma_step_outcome(f, evs, o, s);
        let tail = f.subrange(o, s);
        assert(sizes.drop_last() == d);
        assert(follow(f, sizes) == match tail_outcome(tail, o) {
            Ok((b, n)) => if b.events.len() > 0 {
                (evs + b.events, n)
            } else {
                (evs, o)
            },
            Err(_) => (evs, o),
        });
        let t = complete_lines(tail);
        let tb = batch_of(decoded(t)->Some_0);
        let o2 = o + complete_end(tail);
        if tb.events.len() > 0 {
            assert(follow(f, sizes) == (evs + tb.events, o2));
            assert(o2 <= s);
        } else {
            assert(follow(f, sizes) == (evs, o));
        }
    }
}

/// One read from a cursor where a line ends, with the lines before it read.
proof fn lemma_step_outcome(f: Seq<u8>, evs: Seq<EventView>, o: int, s: int)
    requires
        0 <= o <= s <= f.len(),
        ends_lines(f.take(o)),
        decoded(complete_lines(f)) matches Some(ls) && batch_in_range(ls),
        decoded(complete_lines(f.take(o))) is Some,
        evs == batch_of(decoded(complete_lines(f.take(o)))->Some_0).events,
    ensures
        ({
            let tail = f.subrange(o, s);
            let o2 = o + complete_end(tail);
            let lo = complete_lines(f.take(o));
            let t = complete_lines(tail);
            &&& decoded(t) is Some
            &&& tail_outcome(tail, o) == Ok::<(BatchView, int), ReadError>((batch_of(decoded(t)->Some_0), o2))
            &&& o <= o2 <= s
            &&& ends_lines(f.take(o2))
            &&& decoded(complete_lines(f.take(o2))) is Some
            &&& evs + batch_of(decoded(t)->Some_0).events == batch_of(decoded(complete_lines(f.take(o2)))->Some_0).events
        }),
{
    let tail = f.subrange(o, s);
    let o2 = o + complete_end(tail);
    let lo = complete_lines(f.take(o));
    let t = complete_lines(tail);
    lemma_tail_step(f, o, s);
    lemma_boundary_split(f, o2);
    let rest = complete_lines(f.skip(o2));
    assert(complete_lines(f) == lo + t + rest);
    lemma_decoded_append(lo + t, rest);
    lemma_decoded_append(lo, t);
    let dl = decoded(lo)->Some_0;
    let dt = decoded(t)->Some_0;
    let dr = decoded(rest)->Some_0;
    lemma_range_split(dl + dt, dr);
    lemma_range_split(dl, dt);
    law_batch_split(dl, dt);
}

/// Reading a file that only grows, a piece at a time as the watcher does,
/// stores every event of its complete lines exactly once, in order: the
/// events stored over the reads, the last of which sees the final content,
/// are those of reading all its complete lines at once.  This holds where
/// every complete line is UTF-8 and the session's counters fit their
/// machine types.
pub proof fn law_follow_stores_each_event_once(f: Seq<u8>, sizes: Seq<int>)
    requires
        sizes.len() > 0,
        growing(sizes, f.len() as int),
        sizes.last() == f.len(),
        decoded(complete_lines(f)) matches Some(ls) && batch_in_range(ls),
    ensures
        follow(f, sizes).0 == batch_of(decoded(complete_lines(f))->Some_0).events,
{
    let d = sizes.drop_last();
    assert(growing(d, f.len() as int)) by {
        assert forall|i: int, j: int| 0 <= i <= j < d.len() implies 0 <= #[trigger] d[i] <= #[trigger] d[j]
            <= f.len() by {
            assert(d[i] == sizes[i] && d[j] == sizes[j]);
        }
    }
    lemma_follow(f, d);
    let (evs, o) = follow(f, d);
    let s = f.len() as int;
    lemma_step_outcome(f, evs, o, s);
    let tail = f.subrange(o, s);
    let t = complete_lines(tail);
    let lo = complete_lines(f.take(o));
    lemma_boundary_split(f, o);
    assert(tail =~= f.skip(o));
    assert(complete_lines(f) == lo + t);
    lemma_decoded_append(lo, t);
    law_batch_split(decoded(lo)->Some_0, decoded(t)->Some_0);
    let o2 = o + complete_end(tail);
    lemma_tail_step(f, o, s);
    let bt = batch_of(decoded(t)->Some_0);
    if bt.events.len() == 0 {
        assert(evs + bt.events =~= evs);
    }
}

} // verus!
