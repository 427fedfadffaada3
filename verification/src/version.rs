use vstd::prelude::*;

use crate::text::{is_white_space, is_white_space_char};

verus! {

// ---------------------------------------------------------------------------
// Reading the version that the assistant's `--version` prints
// ---------------------------------------------------------------------------

/// The value of a run of decimal digits.
pub open spec fn digits_value(s: Seq<char>) -> int
    decreases s.len(),
{
    if s.len() == 0 {
        0
    } else {
        digits_value(s.drop_last()) * 10 + (s.last() as int - '0' as int)
    }
}

pub open spec fn all_digits(s: Seq<char>) -> bool {
    forall|i: int| 0 <= i < s.len() ==> '0' <= #[trigger] s[i] <= '9'
}

/// A text read as a `u32` the way `str::parse::<u32>` reads it: an optional
/// `+`, then at least one ASCII digit, and a value that fits.
pub open spec fn parse_u32_of(s: Seq<char>) -> Option<u32> {
    let d = if s.len() > 0 && s[0] == '+' { s.drop_first() } else { s };
    if d.len() > 0 && all_digits(d) && digits_value(d) <= u32::MAX {
        Some(digits_value(d) as u32)
    } else {
        None
    }
}

proof fn lemma_digits_value_nonneg(s: Seq<char>)
    requires
        all_digits(s),
    ensures
        digits_value(s) >= 0,
    decreases s.len(),
{
    if s.len() > 0 {
        assert(all_digits(s.drop_last())) by {
            assert forall|i: int| 0 <= i < s.drop_last().len() implies '0' <= #[trigger] s.drop_last()[i] <= '9' by {
                assert(s.drop_last()[i] == s[i]);
            }
        }
        lemma_digits_value_nonneg(s.drop_last());
    }
}

/// Reads a `u32` (see [`parse_u32_of`]).
pub fn parse_u32(s: &str) -> (r: Option<u32>)
    ensures
        r == parse_u32_of(s@),
{
    let len = s.unicode_len();
    let start: usize = if len > 0 && s.get_char(0) == '+' { 1 } else { 0 };
    let ghost d = if s@.len() > 0 && s@[0] == '+' { s@.drop_first() } else { s@ };
    assert(d =~= s@.subrange(start as int, len as int));
    if start >= len {
        return None;
    }
    let mut value: u64 = 0;
    let mut i = start;
    while i < len
        invariant
            start <= i <= len,
            len == s@.len(),
            d == s@.subrange(start as int, len as int),
            d == (if s@.len() > 0 && s@[0] == '+' { s@.drop_first() } else { s@ }),
            all_digits(s@.subrange(start as int, i as int)),
            value == digits_value(s@.subrange(start as int, i as int)),
            value <= u32::MAX,
        decreases len - i,
    {
        let c = s.get_char(i);
        let ghost prefix = s@.subrange(start as int, i as int);
        let ghost next = s@.subrange(start as int, i + 1);
        assert(next.drop_last() =~= prefix);
        assert(next.last() == c);
        if !('0' <= c && c <= '9') {
            assert(d[i - start] == c);
            assert(!all_digits(d));
            assert(parse_u32_of(s@) is None);
            return None;
        }
        let v = value * 10 + (c as u64 - '0' as u64);
        assert(all_digits(next)) by {
            assert forall|k: int| 0 <= k < next.len() implies '0' <= #[trigger] next[k] <= '9' by {
                if k < prefix.len() {
                    assert(next[k] == prefix[k]);
                }
            }
        }
        if v > u32::MAX as u64 {
            proof {
                lemma_digits_prefix_bound(d, (i + 1 - start) as int);
                assert(d.take((i + 1 - start) as int) =~= next);
            }
            assert(digits_value(next) == v);
            assert(parse_u32_of(s@) is None);
            return None;
        }
        value = v;
        i = i + 1;
    }
    assert(s@.subrange(start as int, i as int) =~= d);
    Some(value as u32)
}

proof fn lemma_digits_prefix_bound(s: Seq<char>, k: int)
    requires
        0 <= k <= s.len(),
        all_digits(s.take(k)),
    ensures
        all_digits(s) ==> digits_value(s.take(k)) <= digits_value(s),
    decreases s.len() - k,
{
    if k < s.len() && all_digits(s) {
        let t = s.take(k + 1);
        assert(t.drop_last() =~= s.take(k));
        assert(all_digits(t)) by {
            assert forall|i: int| 0 <= i < t.len() implies '0' <= #[trigger] t[i] <= '9' by {
                assert(t[i] == s[i]);
            }
        }
        lemma_digits_value_nonneg(s.take(k));
        lemma_digits_prefix_bound(s, k + 1);
    } else if k == s.len() {
        assert(s.take(k) =~= s);
    }
}


/// Where the word that starts at `i` ends: the next white space, or the end.
pub open spec fn word_end(s: Seq<char>, i: int) -> int
    decreases s.len() - i,
{
    if 0 <= i < s.len() && !is_white_space(s[i]) {
        word_end(s, i + 1)
    } else {
        i
    }
}

/// The first `.` at or after `k`, or the end.
pub open spec fn dot_from(w: Seq<char>, k: int) -> int
    decreases w.len() - k,
{
    if 0 <= k < w.len() && w[k] != '.' {
        dot_from(w, k + 1)
    } else {
        k
    }
}

/// A word of exactly three `.`-separated parts, each a `u32`.
pub open spec fn word_version(w: Seq<char>) -> Option<(u32, u32, u32)> {
    let a = dot_from(w, 0);
    let b = dot_from(w, a + 1);
    let c = dot_from(w, b + 1);
    if a >= w.len() || b >= w.len() || c < w.len() {
        None
    } else {
        match (
            parse_u32_of(w.subrange(0, a)),
            parse_u32_of(w.subrange(a + 1, b)),
            parse_u32_of(w.subrange(b + 1, w.len() as int)),
        ) {
            (Some(x), Some(y), Some(z)) => Some((x, y, z)),
            _ => None,
        }
    }
}

/// The version of the first white-space-separated word, from position `i`
/// on, that reads as one (see [`word_version`]).
pub open spec fn version_from(s: Seq<char>, i: int) -> Option<(u32, u32, u32)>
    decreases s.len() - i,
{
    if i < 0 || i >= s.len() {
        None
    } else if is_white_space(s[i]) {
        version_from(s, i + 1)
    } else {
        let e = word_end(s, i);
        if e <= i || e > s.len() {
            None
        } else {
            match word_version(s.subrange(i, e)) {
                Some(v) => Some(v),
                None => version_from(s, e),
            }
        }
    }
}

proof fn lemma_word_end(s: Seq<char>, i: int)
    requires
        0 <= i <= s.len(),
    ensures
        i <= word_end(s, i) <= s.len(),
        i < s.len() && !is_white_space(s[i]) ==> word_end(s, i) > i,
    decreases s.len() - i,
{
    if i < s.len() && !is_white_space(s[i]) {
        lemma_word_end(s, i + 1);
    }
}

proof fn lemma_dot_from(w: Seq<char>, k: int)
    requires
        0 <= k <= w.len(),
    ensures
        k <= dot_from(w, k) <= w.len(),
        dot_from(w, k) < w.len() ==> w[dot_from(w, k)] == '.',
    decreases w.len() - k,
{
    if k < w.len() && w[k] != '.' {
        lemma_dot_from(w, k + 1);
    }
}

fn find_dot(w: &str, k: usize, len: usize) -> (r: usize)
    requires
        len == w@.len(),
        k <= len,
    ensures
        r == dot_from(w@, k as int),
{
    let mut j = k;
    while j < len && w.get_char(j) != '.'
        invariant
            k <= j <= len,
            len == w@.len(),
            dot_from(w@, k as int) == dot_from(w@, j as int),
        decreases len - j,
    {
        j = j + 1;
    }
    j
}

/// Reads a version word (see [`word_version`]).
pub fn parse_version_word(w: &str) -> (r: Option<(u32, u32, u32)>)
    ensures
        r == word_version(w@),
{
    let len = w.unicode_len();
    let a = find_dot(w, 0, len);
    if a >= len {
        return None;
    }
    let b = find_dot(w, a + 1, len);
    if b >= len {
        return None;
    }
    let c = find_dot(w, b + 1, len);
    if c < len {
        return None;
    }
    proof {
        lemma_dot_from(w@, 0);
        lemma_dot_from(w@, a + 1);
    }
    let x = parse_u32(w.substring_char(0, a));
    let y = parse_u32(w.substring_char(a + 1, b));
    let z = parse_u32(w.substring_char(b + 1, len));
    match (x, y, z) {
        (Some(x), Some(y), Some(z)) => Some((x, y, z)),
        _ => None,
    }
}

/// The version that the assistant's `--version` printed: the first word of the form
/// `major.minor.patch` (see [`version_from`]).
pub fn parse_claude_version(text: &str) -> (r: Option<(u32, u32, u32)>)
    ensures
        r == version_from(text@, 0),
{
    let len = text.unicode_len();
    let mut i: usize = 0;
    while i < len
        invariant
            i <= len,
            len == text@.len(),
            version_from(text@, 0) == version_from(text@, i as int),
        decreases len - i,
    {
        if is_white_space_char(text.get_char(i)) {
            i = i + 1;
        } else {
            let mut e = i;
            while e < len && !is_white_space_char(text.get_char(e))
                invariant
                    i <= e <= len,
                    len == text@.len(),
                    word_end(text@, i as int) == word_end(text@, e as int),
                decreases len - e,
            {
                e = e + 1;
            }
            proof {
                lemma_word_end(text@, i as int);
            }
            match parse_version_word(text.substring_char(i, e)) {
                Some(v) => {
                    return Some(v);
                },
                None => {},
            }
            i = e;
        }
    }
    None
}

/// Whether hooks are installed as commands that call `curl`: when asked
/// to, or for an assistant older than 2.0; a version that could not be
/// found gets the HTTP hooks.
pub fn use_command_shim(force_command_shim: bool, version: Option<(u32, u32, u32)>) -> (r: bool)
    ensures
        r == (force_command_shim || (version matches Some((major, _, _)) && major < 2)),
{
    if force_command_shim {
        true
    } else {
        match version {
            Some((major, _, _)) => major < 2,
            None => false,
        }
    }
}

} // verus!
