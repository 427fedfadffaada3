use vstd::prelude::*;

verus! {

/// Strict order of strings by their characters' code points, shortest
/// first on a common prefix (the order of `String`'s `Ord`, since UTF-8
/// keeps code point order).
pub open spec fn lex_lt(a: Seq<char>, b: Seq<char>) -> bool
    decreases a.len(),
{
    if a.len() == 0 {
        b.len() > 0
    } else if b.len() == 0 {
        false
    } else if a[0] != b[0] {
        (a[0] as int) < (b[0] as int)
    } else {
        lex_lt(a.drop_first(), b.drop_first())
    }
}

pub proof fn lemma_lex_trichotomy(a: Seq<char>, b: Seq<char>)
    ensures
        lex_lt(a, b) || lex_lt(b, a) || a == b,
        !(lex_lt(a, b) && lex_lt(b, a)),
        !lex_lt(a, a),
    decreases a.len(),
{
    if a.len() == 0 && b.len() == 0 {
        assert(a =~= b);
    }
    if a.len() > 0 && b.len() > 0 && a[0] != b[0] {
        assert((a[0] as int) != (b[0] as int));
    }
    if a.len() > 0 && b.len() > 0 && a[0] == b[0] {
        lemma_lex_trichotomy(a.drop_first(), b.drop_first());
        if a.drop_first() == b.drop_first() {
            assert(a =~= seq![a[0]] + a.drop_first());
            assert(b =~= seq![b[0]] + b.drop_first());
        }
    }
    if a.len() > 0 {
        lemma_lex_trichotomy(a.drop_first(), a.drop_first());
    }
}

/// Compares two strings (see [`lex_lt`]).
pub fn str_lt(a: &str, b: &str) -> (r: bool)
    ensures
        r == lex_lt(a@, b@),
{
    let la = a.unicode_len();
    let lb = b.unicode_len();
    let mut i: usize = 0;
    assert(a@.skip(0) =~= a@);
    assert(b@.skip(0) =~= b@);
    while i < la && i < lb && a.get_char(i) == b.get_char(i)
        invariant
            i <= la,
            i <= lb,
            la == a@.len(),
            lb == b@.len(),
            lex_lt(a@, b@) == lex_lt(a@.skip(i as int), b@.skip(i as int)),
        decreases la - i,
    {
        let ghost sa = a@.skip(i as int);
        let ghost sb = b@.skip(i as int);
        assert(sa.drop_first() =~= a@.skip(i + 1));
        assert(sb.drop_first() =~= b@.skip(i + 1));
        i = i + 1;
    }
    let ghost sa = a@.skip(i as int);
    let ghost sb = b@.skip(i as int);
    if i == la {
        i < lb
    } else if i == lb {
        false
    } else {
        assert(sa[0] == a@[i as int]);
        assert(sb[0] == b@[i as int]);
        (a.get_char(i) as u32) < (b.get_char(i) as u32)
    }
}

/// Entries in strictly increasing key order.
pub open spec fn sorted_keys(s: Seq<(Seq<char>, nat)>) -> bool {
    forall|i: int| 0 <= i < s.len() - 1 ==> lex_lt(#[trigger] s[i].0, s[i + 1].0)
}

/// How many entries come before where `key` belongs.
pub open spec fn key_pos(s: Seq<(Seq<char>, nat)>, key: Seq<char>) -> nat
    decreases s.len(),
{
    if s.len() > 0 && lex_lt(s[0].0, key) {
        1 + key_pos(s.drop_first(), key)
    } else {
        0
    }
}

/// The entries after one more occurrence of `key`.
pub open spec fn bumped(s: Seq<(Seq<char>, nat)>, key: Seq<char>) -> Seq<(Seq<char>, nat)> {
    let j = key_pos(s, key) as int;
    if j < s.len() && s[j].0 == key {
        s.update(j, (key, s[j].1 + 1))
    } else {
        s.insert(j, (key, 1))
    }
}

/// The occurrences of all keys together.
pub open spec fn tally_total(s: Seq<(Seq<char>, nat)>) -> nat
    decreases s.len(),
{
    if s.len() == 0 {
        0
    } else {
        tally_total(s.drop_last()) + s.last().1
    }
}

proof fn lemma_total_update(s: Seq<(Seq<char>, nat)>, j: int, x: (Seq<char>, nat))
    requires
        0 <= j < s.len(),
    ensures
        tally_total(s.update(j, x)) + s[j].1 == tally_total(s) + x.1,
    decreases s.len(),
{
    let u = s.update(j, x);
    if j == s.len() - 1 {
        assert(u.drop_last() =~= s.drop_last());
    } else {
        assert(u.drop_last() =~= s.drop_last().update(j, x));
        lemma_total_update(s.drop_last(), j, x);
    }
}

proof fn lemma_total_insert(s: Seq<(Seq<char>, nat)>, j: int, x: (Seq<char>, nat))
    requires
        0 <= j <= s.len(),
    ensures
        tally_total(s.insert(j, x)) == tally_total(s) + x.1,
    decreases s.len(),
{
    let u = s.insert(j, x);
    if j == s.len() {
        assert(u.drop_last() =~= s);
    } else {
        assert(u.drop_last() =~= s.drop_last().insert(j, x));
        assert(u.last() == s.last());
        lemma_total_insert(s.drop_last(), j, x);
    }
}

proof fn lemma_entry_le_total(s: Seq<(Seq<char>, nat)>, j: int)
    requires
        0 <= j < s.len(),
    ensures
        s[j].1 <= tally_total(s),
    decreases s.len(),
{
    if j < s.len() - 1 {
        lemma_entry_le_total(s.drop_last(), j);
        assert(s.drop_last()[j] == s[j]);
    }
}

/// The occurrences of one key are at most those of all keys.
pub proof fn lemma_count_le_total(s: Seq<(Seq<char>, nat)>, key: Seq<char>)
    ensures
        count_in(s, key) <= tally_total(s),
    decreases s.len(),
{
    if s.len() > 0 {
        if s[0].0 == key {
            lemma_entry_le_total(s, 0);
        } else {
            lemma_count_le_total(s.drop_first(), key);
            lemma_total_split_first(s);
        }
    }
}

proof fn lemma_total_split_first(s: Seq<(Seq<char>, nat)>)
    requires
        s.len() > 0,
    ensures
        tally_total(s) == s[0].1 + tally_total(s.drop_first()),
    decreases s.len(),
{
    if s.len() > 1 {
        lemma_total_split_first(s.drop_last());
        assert(s.drop_last().drop_first() =~= s.drop_first().drop_last());
        assert(s.drop_first().last() == s.last());
    } else {
        assert(s.drop_first() =~= Seq::<(Seq<char>, nat)>::empty());
        assert(s.drop_last() =~= Seq::<(Seq<char>, nat)>::empty());
    }
}

/// One more occurrence of a key adds one to the total.
pub proof fn lemma_bumped_total(s: Seq<(Seq<char>, nat)>, key: Seq<char>)
    ensures
        tally_total(bumped(s, key)) == tally_total(s) + 1,
{
    lemma_key_pos(s, key);
    let j = key_pos(s, key) as int;
    if j < s.len() && s[j].0 == key {
        lemma_total_update(s, j, (key, s[j].1 + 1));
    } else {
        lemma_total_insert(s, j, (key, 1));
    }
}

/// The number of occurrences of `key`.
pub open spec fn count_in(s: Seq<(Seq<char>, nat)>, key: Seq<char>) -> nat
    decreases s.len(),
{
    if s.len() == 0 {
        0
    } else if s[0].0 == key {
        s[0].1
    } else {
        count_in(s.drop_first(), key)
    }
}

proof fn lemma_key_pos(s: Seq<(Seq<char>, nat)>, key: Seq<char>)
    ensures
        key_pos(s, key) <= s.len(),
        forall|i: int| 0 <= i < key_pos(s, key) ==> lex_lt(#[trigger] s[i].0, key),
        key_pos(s, key) < s.len() ==> !lex_lt(s[key_pos(s, key) as int].0, key),
    decreases s.len(),
{
    if s.len() > 0 && lex_lt(s[0].0, key) {
        lemma_key_pos(s.drop_first(), key);
        assert forall|i: int| 0 <= i < key_pos(s, key) implies lex_lt(#[trigger] s[i].0, key) by {
            if i > 0 {
                assert(s[i] == s.drop_first()[i - 1]);
            }
        }
    }
}

proof fn lemma_key_pos_at(s: Seq<(Seq<char>, nat)>, key: Seq<char>, j: int)
    requires
        0 <= j <= s.len(),
        forall|i: int| 0 <= i < j ==> lex_lt(#[trigger] s[i].0, key),
        j < s.len() ==> !lex_lt(s[j].0, key),
    ensures
        key_pos(s, key) == j,
    decreases s.len(),
{
    if j > 0 {
        assert(lex_lt(s[0].0, key));
        assert forall|i: int| 0 <= i < j - 1 implies lex_lt(#[trigger] s.drop_first()[i].0, key) by {
            assert(s.drop_first()[i] == s[i + 1]);
        }
        if j - 1 < s.drop_first().len() {
            assert(s.drop_first()[j - 1] == s[j]);
        }
        lemma_key_pos_at(s.drop_first(), key, j - 1);
    }
}

proof fn lemma_bumped_sorted(s: Seq<(Seq<char>, nat)>, key: Seq<char>)
    requires
        sorted_keys(s),
    ensures
        sorted_keys(bumped(s, key)),
{
    lemma_key_pos(s, key);
    let j = key_pos(s, key) as int;
    let t = bumped(s, key);
    if j < s.len() && s[j].0 == key {
        assert forall|i: int| 0 <= i < t.len() - 1 implies lex_lt(#[trigger] t[i].0, t[i + 1].0) by {
            assert(t[i].0 == s[i].0 && t[i + 1].0 == s[i + 1].0);
        }
    } else {
        if j < s.len() {
            lemma_lex_trichotomy(s[j].0, key);
        }
        assert forall|i: int| 0 <= i < t.len() - 1 implies lex_lt(#[trigger] t[i].0, t[i + 1].0) by {
            if i < j - 1 {
                assert(t[i] == s[i] && t[i + 1] == s[i + 1]);
            } else if i == j - 1 {
                assert(t[i] == s[i]);
            } else if i == j {
            } else {
                assert(t[i] == s[i - 1] && t[i + 1] == s[i]);
            }
        }
    }
}

/// How many leading entries have a count of at least `c`.
pub open spec fn rank_pos(s: Seq<(Seq<char>, nat)>, c: nat) -> nat
    decreases s.len(),
{
    if s.len() > 0 && s[0].1 >= c {
        1 + rank_pos(s.drop_first(), c)
    } else {
        0
    }
}

/// The entries ordered by count, highest first; entries with equal counts
/// keep their order (a stable sort, as `sort_by` is).
pub open spec fn ranked(s: Seq<(Seq<char>, nat)>) -> Seq<(Seq<char>, nat)>
    decreases s.len(),
{
    if s.len() == 0 {
        s
    } else {
        let r = ranked(s.drop_last());
        r.insert(rank_pos(r, s.last().1) as int, s.last())
    }
}

proof fn lemma_rank_pos_at(s: Seq<(Seq<char>, nat)>, c: nat, j: int)
    requires
        0 <= j <= s.len(),
        forall|i: int| 0 <= i < j ==> (#[trigger] s[i]).1 >= c,
        j < s.len() ==> s[j].1 < c,
    ensures
        rank_pos(s, c) == j,
    decreases s.len(),
{
    if j > 0 {
        assert(s[0].1 >= c);
        assert forall|i: int| 0 <= i < j - 1 implies (#[trigger] s.drop_first()[i]).1 >= c by {
            assert(s.drop_first()[i] == s[i + 1]);
        }
        if j - 1 < s.drop_first().len() {
            assert(s.drop_first()[j - 1] == s[j]);
        }
        lemma_rank_pos_at(s.drop_first(), c, j - 1);
    }
}

/// Occurrence counts of strings, kept in key order (as a `BTreeMap` walks).
pub struct Counter {
    entries: Vec<(String, usize)>,
}

impl Counter {
    /// The counts, in increasing key order.
    pub closed spec fn counts(&self) -> Seq<(Seq<char>, nat)> {
        Seq::new(self.entries@.len(), |i: int| (self.entries@[i].0@, self.entries@[i].1 as nat))
    }

    pub closed spec fn wf(&self) -> bool {
        sorted_keys(self.counts())
    }

    /// A counter with nothing counted.
    pub fn new() -> (r: Counter)
        ensures
            r.wf(),
            r.counts() == Seq::<(Seq<char>, nat)>::empty(),
    {
        let r = Counter { entries: Vec::new() };
        assert(r.counts() =~= Seq::<(Seq<char>, nat)>::empty());
        r
    }

    /// The number of distinct keys.
    pub fn len(&self) -> (r: usize)
        ensures
            r == self.counts().len(),
    {
        self.entries.len()
    }

    /// The key and count at a position of the key order.
    pub fn entry(&self, i: usize) -> (r: (&str, usize))
        requires
            i < self.counts().len(),
        ensures
            r.0@ == self.counts()[i as int].0,
            r.1 == self.counts()[i as int].1,
    {
        (self.entries[i].0.as_str(), self.entries[i].1)
    }

    /// The number of occurrences of `key`.
    pub fn get(&self, key: &str) -> (r: usize)
        requires
            self.wf(),
        ensures
            r == count_in(self.counts(), key@),
    {
        let ghost s = self.counts();
        let mut j: usize = 0;
        while j < self.entries.len() && str_lt(self.entries[j].0.as_str(), key)
            invariant
                j <= self.entries@.len(),
                s == self.counts(),
                forall|i: int| 0 <= i < j ==> lex_lt(#[trigger] s[i].0, key@),
            decreases self.entries@.len() - j,
        {
            j = j + 1;
        }
        proof {
            lemma_key_pos_at(s, key@, j as int);
        }
        if j < self.entries.len() && crate::json::str_eq(self.entries[j].0.as_str(), key) {
            proof {
                lemma_count_at(s, key@, j as int);
            }
            self.entries[j].1
        } else {
            proof {
                lemma_count_missing(s, key@, j as int);
            }
            0
        }
    }

    /// The entries, highest count first (see [`ranked`]).
    pub fn ranked_entries(&self) -> (r: Vec<(String, usize)>)
        ensures
            Seq::new(r@.len(), |i: int| (r@[i].0@, r@[i].1 as nat)) == ranked(self.counts()),
    {
        let ghost all = self.counts();
        let mut out: Vec<(String, usize)> = Vec::new();
        let mut i: usize = 0;
        assert(all.take(0) =~= Seq::<(Seq<char>, nat)>::empty());
        while i < self.entries.len()
            invariant
                i <= self.entries@.len(),
                all == self.counts(),
                Seq::new(out@.len(), |k: int| (out@[k].0@, out@[k].1 as nat)) == ranked(all.take(i as int)),
            decreases self.entries@.len() - i,
        {
            let ghost cur = Seq::new(out@.len(), |k: int| (out@[k].0@, out@[k].1 as nat));
            let c = self.entries[i].1;
            let mut j: usize = 0;
            while j < out.len() && out[j].1 >= c
                invariant
                    j <= out@.len(),
                    cur == Seq::new(out@.len(), |k: int| (out@[k].0@, out@[k].1 as nat)),
                    forall|k: int| 0 <= k < j ==> (#[trigger] cur[k]).1 >= c,
                decreases out@.len() - j,
            {
                assert(cur[j as int].1 == out@[j as int].1);
                j = j + 1;
            }
            proof {
                if j < out@.len() {
                    assert(cur[j as int].1 == out@[j as int].1);
                }
                lemma_rank_pos_at(cur, c as nat, j as int);
            }
            let ghost next = all.take(i + 1);
            assert(next.drop_last() =~= all.take(i as int));
            assert(next.last() == all[i as int]);
            out.insert(j, (self.entries[i].0.clone(), c));
            assert(Seq::new(out@.len(), |k: int| (out@[k].0@, out@[k].1 as nat)) =~= cur.insert(
                j as int,
                all[i as int],
            ));
            i = i + 1;
        }
        assert(all.take(i as int) =~= all);
        out
    }

    /// Whether one more occurrence of `key` fits the count.
    pub open spec fn can_bump(&self, key: Seq<char>) -> bool {
        count_in(self.counts(), key) < usize::MAX
    }

    /// Counts one more occurrence of `key`.
    pub fn bump(&mut self, key: &str)
        requires
            old(self).wf(),
            old(self).can_bump(key@),
        ensures
            final(self).wf(),
            final(self).counts() == bumped(old(self).counts(), key@),
    {
        let ghost s = self.counts();
        let mut j: usize = 0;
        while j < self.entries.len() && str_lt(self.entries[j].0.as_str(), key)
            invariant
                j <= self.entries@.len(),
                s == self.counts(),
                forall|i: int| 0 <= i < j ==> lex_lt(#[trigger] s[i].0, key@),
            decreases self.entries@.len() - j,
        {
            j = j + 1;
        }
        proof {
            lemma_key_pos_at(s, key@, j as int);
            lemma_bumped_sorted(s, key@);
        }
        if j < self.entries.len() && crate::json::str_eq(self.entries[j].0.as_str(), key) {
            proof {
                lemma_count_at(s, key@, j as int);
            }
            let c = self.entries[j].1;
            let k = self.entries[j].0.clone();
            self.entries.set(j, (k, c + 1));
            assert(self.counts() =~= bumped(s, key@));
        } else {
            self.entries.insert(j, (key.to_owned(), 1));
            assert(self.counts() =~= bumped(s, key@));
        }
    }
}

proof fn lemma_count_at(s: Seq<(Seq<char>, nat)>, key: Seq<char>, j: int)
    requires
        sorted_keys(s),
        0 <= j < s.len(),
        s[j].0 == key,
        forall|i: int| 0 <= i < j ==> lex_lt(#[trigger] s[i].0, key),
    ensures
        count_in(s, key) == s[j].1,
    decreases s.len(),
{
    if j > 0 {
        lemma_lex_trichotomy(s[0].0, key);
        assert(lex_lt(s[0].0, key));
        assert(s[0].0 != key);
        let t = s.drop_first();
        assert forall|i: int| 0 <= i < t.len() - 1 implies lex_lt(#[trigger] t[i].0, t[i + 1].0) by {
            assert(t[i] == s[i + 1]);
        }
        assert forall|i: int| 0 <= i < j - 1 implies lex_lt(#[trigger] t[i].0, key) by {
            assert(t[i] == s[i + 1]);
        }
        lemma_count_at(t, key, j - 1);
    }
}


pub proof fn lemma_lex_transitive(a: Seq<char>, b: Seq<char>, c: Seq<char>)
    requires
        lex_lt(a, b),
        lex_lt(b, c),
    ensures
        lex_lt(a, c),
    decreases a.len(),
{
    if a.len() > 0 && b.len() > 0 && c.len() > 0 && a[0] == b[0] && b[0] == c[0] {
        lemma_lex_transitive(a.drop_first(), b.drop_first(), c.drop_first());
    }
}

proof fn lemma_sorted_lt(s: Seq<(Seq<char>, nat)>, i: int, m: int)
    requires
        sorted_keys(s),
        0 <= i < m < s.len(),
    ensures
        lex_lt(s[i].0, s[m].0),
    decreases m - i,
{
    if m > i + 1 {
        lemma_sorted_lt(s, i, m - 1);
        assert(lex_lt(s[m - 1].0, s[m].0));
        lemma_lex_transitive(s[i].0, s[m - 1].0, s[m].0);
    }
}

proof fn lemma_count_absent(s: Seq<(Seq<char>, nat)>, key: Seq<char>)
    requires
        forall|i: int| 0 <= i < s.len() ==> (#[trigger] s[i]).0 != key,
    ensures
        count_in(s, key) == 0,
    decreases s.len(),
{
    if s.len() > 0 {
        assert(s[0].0 != key);
        assert forall|i: int| 0 <= i < s.drop_first().len() implies (#[trigger] s.drop_first()[i]).0
            != key by {
            assert(s.drop_first()[i] == s[i + 1]);
        }
        lemma_count_absent(s.drop_first(), key);
    }
}

proof fn lemma_count_same(s: Seq<(Seq<char>, nat)>, t: Seq<(Seq<char>, nat)>, key: Seq<char>)
    requires
        s.len() == t.len(),
        forall|i: int| 0 <= i < s.len() ==> (#[trigger] s[i]).0 == t[i].0,
        forall|i: int| 0 <= i < s.len() && (#[trigger] s[i]).0 == key ==> s[i] == t[i],
    ensures
        count_in(s, key) == count_in(t, key),
    decreases s.len(),
{
    if s.len() > 0 {
        assert(s[0].0 == t[0].0);
        let (s1, t1) = (s.drop_first(), t.drop_first());
        assert forall|i: int| 0 <= i < s1.len() implies (#[trigger] s1[i]).0 == t1[i].0 by {
            assert(s1[i] == s[i + 1] && t1[i] == t[i + 1]);
        }
        assert forall|i: int| 0 <= i < s1.len() && (#[trigger] s1[i]).0 == key implies s1[i]
            == t1[i] by {
            assert(s1[i] == s[i + 1] && t1[i] == t[i + 1]);
        }
        lemma_count_same(s1, t1, key);
    }
}

proof fn lemma_count_insert_other(
    s: Seq<(Seq<char>, nat)>,
    j: int,
    e: (Seq<char>, nat),
    key: Seq<char>,
)
    requires
        0 <= j <= s.len(),
        e.0 != key,
    ensures
        count_in(s.insert(j, e), key) == count_in(s, key),
    decreases s.len(),
{
    let t = s.insert(j, e);
    if j == 0 {
        assert(t.drop_first() =~= s);
    } else {
        assert(t[0] == s[0]);
        assert(t.drop_first() =~= s.drop_first().insert(j - 1, e));
        lemma_count_insert_other(s.drop_first(), j - 1, e, key);
    }
}

proof fn lemma_count_missing(s: Seq<(Seq<char>, nat)>, key: Seq<char>, j: int)
    requires
        sorted_keys(s),
        0 <= j <= s.len(),
        forall|i: int| 0 <= i < j ==> lex_lt(#[trigger] s[i].0, key),
        j < s.len() ==> !lex_lt(s[j].0, key) && s[j].0 != key,
    ensures
        count_in(s, key) == 0,
{
    assert forall|i: int| 0 <= i < s.len() implies (#[trigger] s[i]).0 != key by {
        lemma_lex_trichotomy(s[i].0, key);
        if i >= j {
            lemma_lex_trichotomy(s[j].0, key);
            if i > j {
                lemma_sorted_lt(s, j, i);
                lemma_lex_transitive(key, s[j].0, s[i].0);
            }
        }
    }
    lemma_count_absent(s, key);
}

/// One more occurrence of a key raises its count by one and leaves every
/// other count as it was.
pub proof fn law_bump_counts(s: Seq<(Seq<char>, nat)>, key: Seq<char>, other: Seq<char>)
    requires
        sorted_keys(s),
    ensures
        count_in(bumped(s, key), key) == count_in(s, key) + 1,
        other != key ==> count_in(bumped(s, key), other) == count_in(s, other),
{
    lemma_key_pos(s, key);
    lemma_bumped_sorted(s, key);
    let j = key_pos(s, key) as int;
    let t = bumped(s, key);
    if j < s.len() && s[j].0 == key {
        lemma_count_at(s, key, j);
        assert forall|i: int| 0 <= i < j implies lex_lt(#[trigger] t[i].0, key) by {
            assert(t[i] == s[i]);
        }
        lemma_count_at(t, key, j);
        if other != key {
            lemma_count_same(s, t, other);
        }
    } else {
        assert forall|i: int| 0 <= i < s.len() implies (#[trigger] s[i]).0 != key by {
            lemma_lex_trichotomy(s[i].0, key);
            if i >= j {
                lemma_lex_trichotomy(s[j].0, key);
                if i > j {
                    lemma_sorted_lt(s, j, i);
                    lemma_lex_transitive(key, s[j].0, s[i].0);
                }
            }
        }
        lemma_count_absent(s, key);
        assert forall|i: int| 0 <= i < j implies lex_lt(#[trigger] t[i].0, key) by {
            assert(t[i] == s[i]);
        }
        lemma_count_at(t, key, j);
        if other != key {
            lemma_count_insert_other(s, j, (key, 1), other);
        }
    }
}

} // verus!
