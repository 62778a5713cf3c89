use std::collections::HashSet;
use vstd::prelude::*;

use crate::seq_lemmas::lemma_filter_keeps_all;
use crate::spectrum_handler::TimeSeriesConfig;

verus! {

broadcast use vstd::std_specs::hash::group_hash_axioms;

/// A chain of values that were matched to each other across successive batches.
#[derive(Debug)]
pub struct Sequence<T> {
    pub alive: bool,
    pub values: Vec<T>,
}

impl<T> Sequence<T> {
    /// A living sequence holding one value.
    pub fn new(first_value: T) -> (s: Sequence<T>)
        ensures
            s.alive,
            s.values@ == seq![first_value],
    {
        let mut values = Vec::new();
        values.push(first_value);
        Sequence { alive: true, values }
    }

    /// Appends a value at the end of the sequence.
    pub fn push(&mut self, new_value: T)
        ensures
            final(self).alive == old(self).alive,
            final(self).values@ == old(self).values@.push(new_value),
    {
        self.values.push(new_value);
    }

    /// Marks the sequence as finished: it will receive no more values.
    pub fn kill(&mut self)
        ensures
            !final(self).alive,
            final(self).values@ == old(self).values@,
    {
        self.alive = false;
    }
}

// Region: match matrix ---------------------------------------------------------

/// Number of positions of `m` that point to the entry `e`.
pub open spec fn entry_count(m: Seq<Option<usize>>, e: usize) -> nat
    decreases m.len(),
{
    if m.len() == 0 {
        0
    } else {
        entry_count(m.drop_last(), e) + if m.last() == Some(e) {
            1nat
        } else {
            0nat
        }
    }
}

/// The (position, entry) pairs of `m[0..n]`, in order, whose entry is pointed to by more than
/// one position of the whole `m`.
pub open spec fn duplicates_upto(m: Seq<Option<usize>>, n: int) -> Seq<(usize, usize)>
    decreases n,
{
    if n <= 0 {
        seq![]
    } else {
        let prev = duplicates_upto(m, n - 1);
        match m[n - 1] {
            Some(e) => if entry_count(m, e) >= 2 {
                prev.push(((n - 1) as usize, e))
            } else {
                prev
            },
            None => prev,
        }
    }
}

/// For each position of the previous batch, the index of the matched entry of the new batch.
#[derive(Debug, Clone, PartialEq)]
pub struct MatchMatrix(Vec<Option<usize>>);

/// A position of a match matrix that shares its entry with another position.
pub struct Duplicate {
    matrix_index: usize,
    entry_index: usize,
}

impl View for MatchMatrix {
    type V = Seq<Option<usize>>;

    closed spec fn view(&self) -> Seq<Option<usize>> {
        self.0@
    }
}

impl View for Duplicate {
    type V = (usize, usize);

    closed spec fn view(&self) -> (usize, usize) {
        (self.matrix_index, self.entry_index)
    }
}

impl Duplicate {
    /// The position of the matrix that shares its entry.
    pub fn matrix_index(&self) -> (i: usize)
        ensures
            i == self@.0,
    {
        self.matrix_index
    }

    /// The shared entry.
    pub fn entry_index(&self) -> (i: usize)
        ensures
            i == self@.1,
    {
        self.entry_index
    }
}

impl MatchMatrix {
    /// Builds a matrix from its entries.
    pub fn from_entries(entries: Vec<Option<usize>>) -> (m: MatchMatrix)
        ensures
            m@ == entries@,
    {
        MatchMatrix(entries)
    }

    /// A matrix of `len` positions, none of them matched.
    pub fn unmatched(len: usize) -> (m: MatchMatrix)
        ensures
            m@ == Seq::new(len as nat, |i: int| None::<usize>),
    {
        let mut entries: Vec<Option<usize>> = Vec::new();
        for i in 0..len
            invariant
                entries@ == Seq::new(i as nat, |k: int| None::<usize>),
        {
            entries.push(None);
        }
        MatchMatrix(entries)
    }

    /// The entries of the matrix.
    pub fn entries(&self) -> (r: &Vec<Option<usize>>)
        ensures
            r@ == self@,
    {
        &self.0
    }

    /// Whether some position points to `entry_index`.
    pub fn is_locked(&self, entry_index: usize) -> (r: bool)
        ensures
            r == self@.contains(Some(entry_index)),
    {
        let n = self.0.len();
        for i in 0..n
            invariant
                n == self@.len(),
                forall|k: int| 0 <= k < i ==> self@[k] != Some(entry_index),
        {
            if self.0[i] == Some(entry_index) {
                return true;
            }
        }
        false
    }

    /// Every position whose entry is also pointed to by another position, in order.
    pub fn find_duplicates(&self) -> (r: Vec<Duplicate>)
        ensures
            r@.map_values(|d: Duplicate| d@) == duplicates_upto(self@, self@.len() as int),
    {
        let ghost m = self@;
        let n = self.0.len();
        let mut used_entries: HashSet<usize> = HashSet::new();
        let mut duplicate_entries: HashSet<usize> = HashSet::new();

        for i in 0..n
            invariant
                n == m.len(),
                m == self@,
                forall|e: usize|
                    #[trigger] used_entries@.contains(e) <==> entry_count(m.take(i as int), e)
                        >= 1,
                forall|e: usize|
                    #[trigger] duplicate_entries@.contains(e) <==> entry_count(
                        m.take(i as int),
                        e,
                    ) >= 2,
        {
            assert(m.take(i + 1).drop_last() =~= m.take(i as int));
            if let Some(entry_index) = self.0[i] {
                if used_entries.contains(&entry_index) {
                    duplicate_entries.insert(entry_index);
                } else {
                    used_entries.insert(entry_index);
                }
            }
        }
        assert(m.take(n as int) =~= m);

        let mut duplicates: Vec<Duplicate> = Vec::new();
        for matrix_index in 0..n
            invariant
                n == m.len(),
                m == self@,
                forall|e: usize|
                    #[trigger] duplicate_entries@.contains(e) <==> entry_count(m, e) >= 2,
                duplicates@.map_values(|d: Duplicate| d@) == duplicates_upto(
                    m,
                    matrix_index as int,
                ),
        {
            let ghost before = duplicates@;
            if let Some(entry_index) = self.0[matrix_index] {
                if duplicate_entries.contains(&entry_index) {
                    duplicates.push(Duplicate { matrix_index, entry_index });
                    assert(duplicates@.map_values(|d: Duplicate| d@) =~= before.map_values(
                        |d: Duplicate| d@,
                    ).push((matrix_index, entry_index)));
                }
            }
        }
        duplicates
    }

    /// A copy of the matrix where the duplicate's position is fixed to the duplicate's entry.
    pub fn lock(&self, duplicate: Duplicate) -> (r: MatchMatrix)
        requires
            duplicate@.0 < self@.len(),
        ensures
            r@ == self@.update(duplicate@.0 as int, Some(duplicate@.1)),
    {
        let n = self.0.len();
        let mut entries: Vec<Option<usize>> = Vec::new();
        for i in 0..n
            invariant
                n == self@.len(),
                entries@ == self@.take(i as int),
        {
            entries.push(self.0[i]);
            assert(entries@ =~= self@.take(i + 1));
        }
        assert(entries@ =~= self@);
        entries.set(duplicate.matrix_index, Some(duplicate.entry_index));
        MatchMatrix(entries)
    }
}


// Region: laws of the match matrix ---------------------------------------------------

proof fn lemma_entry_count_at_least_one(m: Seq<Option<usize>>, e: usize, i: int)
    requires
        0 <= i < m.len(),
        m[i] == Some(e),
    ensures
        entry_count(m, e) >= 1,
    decreases m.len(),
{
    if i < m.len() - 1 {
        lemma_entry_count_at_least_one(m.drop_last(), e, i);
    }
}

proof fn lemma_entry_count_two_positions(m: Seq<Option<usize>>, e: usize, i: int, j: int)
    requires
        0 <= i < j < m.len(),
        m[i] == Some(e),
        m[j] == Some(e),
    ensures
        entry_count(m, e) >= 2,
    decreases m.len(),
{
    if j == m.len() - 1 {
        lemma_entry_count_at_least_one(m.drop_last(), e, i);
    } else {
        lemma_entry_count_two_positions(m.drop_last(), e, i, j);
    }
}

proof fn lemma_entry_count_witness(m: Seq<Option<usize>>, e: usize)
    requires
        entry_count(m, e) >= 1,
    ensures
        exists|i: int| 0 <= i < m.len() && m[i] == Some(e),
    decreases m.len(),
{
    if m.last() == Some(e) {
        assert(m[m.len() - 1] == Some(e));
    } else {
        lemma_entry_count_witness(m.drop_last(), e);
        let i = choose|i: int| 0 <= i < m.drop_last().len() && m.drop_last()[i] == Some(e);
        assert(m[i] == Some(e));
    }
}

proof fn lemma_entry_count_two_witnesses(m: Seq<Option<usize>>, e: usize)
    requires
        entry_count(m, e) >= 2,
    ensures
        exists|i: int, j: int| 0 <= i < j < m.len() && m[i] == Some(e) && m[j] == Some(e),
    decreases m.len(),
{
    let d = m.drop_last();
    if m.last() == Some(e) {
        lemma_entry_count_witness(d, e);
        let i = choose|i: int| 0 <= i < d.len() && d[i] == Some(e);
        assert(m[i] == Some(e) && m[m.len() - 1] == Some(e));
    } else {
        lemma_entry_count_two_witnesses(d, e);
        let (i, j) = choose|i: int, j: int| 0 <= i < j < d.len() && d[i] == Some(e) && d[j] == Some(e);
        assert(m[i] == Some(e) && m[j] == Some(e));
    }
}

proof fn lemma_duplicates_upto(m: Seq<Option<usize>>, n: int)
    requires
        0 <= n <= m.len(),
        m.len() <= usize::MAX,
    ensures
        forall|k: int|
            0 <= k < duplicates_upto(m, n).len() ==> {
                let d = #[trigger] duplicates_upto(m, n)[k];
                &&& 0 <= d.0 < n
                &&& m[d.0 as int] == Some(d.1)
                &&& entry_count(m, d.1) >= 2
            },
        forall|k1: int, k2: int|
            0 <= k1 < k2 < duplicates_upto(m, n).len() ==> duplicates_upto(m, n)[k1].0
                < duplicates_upto(m, n)[k2].0,
        forall|p: int|
            0 <= p < n && m[p] is Some && entry_count(m, #[trigger] m[p]->0) >= 2 ==> exists|
                k: int,
            |
                0 <= k < duplicates_upto(m, n).len() && duplicates_upto(m, n)[k] == (
                    p as usize,
                    m[p]->0,
                ),
    decreases n,
{
    if n > 0 {
        lemma_duplicates_upto(m, n - 1);
        let prev = duplicates_upto(m, n - 1);
        let cur = duplicates_upto(m, n);
        if m[n - 1] is Some && entry_count(m, m[n - 1]->0) >= 2 {
            let e = m[n - 1]->0;
            assert(cur == prev.push(((n - 1) as usize, e)));
            assert forall|k: int| 0 <= k < cur.len() implies {
                let d = #[trigger] cur[k];
                &&& 0 <= d.0 < n
                &&& m[d.0 as int] == Some(d.1)
                &&& entry_count(m, d.1) >= 2
            } by {
                if k < prev.len() {
                    assert(cur[k] == prev[k]);
                }
            }
            assert forall|k1: int, k2: int| 0 <= k1 < k2 < cur.len() implies cur[k1].0 < cur[k2].0 by {
                assert(cur[k1] == prev[k1]);
                if k2 < prev.len() {
                    assert(cur[k2] == prev[k2]);
                }
            }
            assert forall|p: int|
                0 <= p < n && m[p] is Some && entry_count(m, #[trigger] m[p]->0) >= 2 implies exists|
                    k: int,
                |
                    0 <= k < cur.len() && cur[k] == (p as usize, m[p]->0) by {
                if p < n - 1 {
                    let k = choose|k: int| 0 <= k < prev.len() && prev[k] == (p as usize, m[p]->0);
                    assert(cur[k] == prev[k]);
                } else {
                    assert(cur[cur.len() - 1] == (p as usize, m[p]->0));
                }
            }
        } else {
            assert(cur == prev);
        }
    }
}

proof fn lemma_duplicate_has_partner(m: Seq<Option<usize>>, d: (usize, usize))
    requires
        d.0 < m.len(),
        m[d.0 as int] == Some(d.1),
        entry_count(m, d.1) >= 2,
    ensures
        exists|p: int| 0 <= p < m.len() && p != d.0 && m[p] == Some(d.1),
{
    lemma_entry_count_two_witnesses(m, d.1);
    let (i, j) = choose|i: int, j: int|
        0 <= i < j < m.len() && m[i] == Some(d.1) && m[j] == Some(d.1);
    if i == d.0 as int {
        assert(m[j] == Some(d.1));
    } else {
        assert(m[i] == Some(d.1));
    }
}

/// The duplicates found in a match matrix are exactly its positions whose entry is also
/// pointed to by another position, in increasing order of position; so a matrix has no
/// duplicates exactly when no two positions point to the same entry.
#[verifier::spinoff_prover]
#[verifier::rlimit(40)]
pub proof fn law_duplicates_are_shared_entries(m: Seq<Option<usize>>)
    requires
        m.len() <= usize::MAX,
    ensures
        ({
            let dups = duplicates_upto(m, m.len() as int);
            &&& forall|k: int|
                0 <= k < dups.len() ==> {
                    let d = #[trigger] dups[k];
                    &&& d.0 < m.len()
                    &&& m[d.0 as int] == Some(d.1)
                    &&& exists|p: int| 0 <= p < m.len() && p != d.0 && m[p] == Some(d.1)
                }
            &&& forall|k1: int, k2: int| 0 <= k1 < k2 < dups.len() ==> dups[k1].0 < dups[k2].0
            &&& forall|p: int, q: int|
                0 <= p < m.len() && 0 <= q < m.len() && p != q && m[p] is Some && m[p] == m[q]
                    ==> exists|k: int| 0 <= k < dups.len() && #[trigger] dups[k] == (p as usize, m[p]->0)
            &&& (dups.len() == 0 <==> forall|p: int, q: int|
                0 <= p < q < m.len() && m[p] is Some ==> m[p] != m[q])
        }),
{
    let n = m.len() as int;
    let dups = duplicates_upto(m, n);
    lemma_duplicates_upto(m, n);
    assert forall|k: int| 0 <= k < dups.len() implies exists|p: int|
        0 <= p < m.len() && p != (#[trigger] dups[k]).0 && m[p] == Some(dups[k].1) by {
        lemma_duplicate_has_partner(m, dups[k]);
    }
    assert forall|p: int, q: int|
        0 <= p < m.len() && 0 <= q < m.len() && p != q && m[p] is Some && m[p] == m[q] implies
        exists|k: int| 0 <= k < dups.len() && #[trigger] dups[k] == (p as usize, m[p]->0) by {
        if p < q {
            lemma_entry_count_two_positions(m, m[p]->0, p, q);
        } else {
            lemma_entry_count_two_positions(m, m[p]->0, q, p);
        }
    }
    if dups.len() == 0 {
        assert forall|p: int, q: int| 0 <= p < q < m.len() && m[p] is Some implies m[p] != m[q] by {
            if m[p] == m[q] {
                lemma_entry_count_two_positions(m, m[p]->0, p, q);
            }
        }
    } else {
        lemma_duplicate_has_partner(m, dups[0]);
    }
}

// Region: time series ----------------------------------------------------------

/// Entries older than this (in milliseconds) are dropped by the periodic cleanup.
pub const MAX_TIME: i64 = 10 * 60 * 1000;

/// Number of new entries after which a cleanup is made.
pub const CLEAN_THRESH: u64 = 1000;

/// Milliseconds since the epoch in the local clock, as chrono gives them.
/// Nothing is claimed of the value: it depends on the time of the call.
#[verifier::external_body]
fn now_millis() -> i64 {
    chrono::Local::now().timestamp_millis()
}

/// A value tagged with the moment (milliseconds since the epoch) at which it was taken.
#[derive(Debug, Clone, Copy)]
pub struct TimedEntry<V> {
    pub value: V,
    pub timestamp: i64,
}

impl<V: Copy> TimedEntry<V> {
    /// Tags `value` with the current time.
    pub fn new_now(value: V) -> (e: TimedEntry<V>)
        ensures
            e.value == value,
    {
        TimedEntry { value, timestamp: now_millis() }
    }
}

/// The abstract state of a sequence: whether it is alive, and its values.
pub open spec fn sequence_state<T>(s: Sequence<T>) -> (bool, Seq<T>) {
    (s.alive, s.values@)
}

pub open spec fn sequences_state<T>(s: Seq<Sequence<T>>) -> Seq<(bool, Seq<T>)> {
    s.map_values(|x: Sequence<T>| sequence_state(x))
}

/// Positions of the alive sequences, in increasing order.
pub open spec fn alive_positions<T>(s: Seq<(bool, Seq<T>)>) -> Seq<int>
    decreases s.len(),
{
    if s.len() == 0 {
        seq![]
    } else {
        let prev = alive_positions(s.drop_last());
        if s.last().0 {
            prev.push(s.len() - 1)
        } else {
            prev
        }
    }
}

/// Number of matched positions of a match matrix.
pub open spec fn count_matched(m: Seq<Option<usize>>) -> nat
    decreases m.len(),
{
    if m.len() == 0 {
        0
    } else {
        count_matched(m.drop_last()) + if m.last() is Some {
            1nat
        } else {
            0nat
        }
    }
}

/// The indexes `i < n` that no position of `m` points to, in increasing order.
pub open spec fn unmatched_upto(m: Seq<Option<usize>>, n: int) -> Seq<int>
    decreases n,
{
    if n <= 0 {
        seq![]
    } else {
        let prev = unmatched_upto(m, n - 1);
        if m.contains(Some((n - 1) as usize)) {
            prev
        } else {
            prev.push(n - 1)
        }
    }
}

/// What one position of the match matrix does to the sequence it belongs to.
pub open spec fn matched_step<E>(s: (bool, Seq<E>), entry: Option<usize>, batch: Seq<E>) -> (
    bool,
    Seq<E>,
) {
    match entry {
        Some(j) => (s.0, s.1.push(batch[j as int])),
        None => (false, s.1),
    }
}

/// The sequences after a batch was matched: the k-th alive sequence receives the entry that
/// position k of `m` points to (or dies if it points to none), and every entry that no position
/// points to starts a new sequence, in the order of the batch.
pub open spec fn applied_batch<E>(
    old: Seq<(bool, Seq<E>)>,
    m: Seq<Option<usize>>,
    batch: Seq<E>,
) -> Seq<(bool, Seq<E>)> {
    let pos = alive_positions(old);
    let u = unmatched_upto(m, batch.len() as int);
    Seq::new(
        old.len() + u.len(),
        |p: int|
            if p < old.len() {
                if exists|k: int| 0 <= k < m.len() && k < pos.len() && #[trigger] pos[k] == p {
                    let k = choose|k: int| 0 <= k < m.len() && k < pos.len() && #[trigger] pos[k] == p;
                    matched_step(old[p], m[k], batch)
                } else {
                    old[p]
                }
            } else {
                (true, seq![batch[u[p - old.len()]]])
            },
    )
}

/// Whether an entry taken at `timestamp` is still recent at `now`.
pub open spec fn is_recent<V>(e: TimedEntry<V>, now: int) -> bool {
    now - e.timestamp < MAX_TIME
}

/// The sequences after the old entries are dropped: each sequence keeps only its recent
/// entries, and sequences left empty are removed.
pub open spec fn cleaned<V>(s: Seq<(bool, Seq<TimedEntry<V>>)>, now: int) -> Seq<
    (bool, Seq<TimedEntry<V>>),
> {
    s.map_values(
        |x: (bool, Seq<TimedEntry<V>>)| (x.0, x.1.filter(|e: TimedEntry<V>| is_recent(e, now))),
    ).filter(|x: (bool, Seq<TimedEntry<V>>)| x.1.len() > 0)
}

/// After a cleanup at `now` every sequence left holds entries, all of them recent at `now`;
/// so a second cleanup at the same moment changes nothing.
pub proof fn law_cleaned_is_recent<V>(s: Seq<(bool, Seq<TimedEntry<V>>)>, now: int)
    ensures
        forall|i: int|
            0 <= i < cleaned(s, now).len() ==> {
                let x = #[trigger] cleaned(s, now)[i];
                &&& x.1.len() > 0
                &&& forall|j: int| 0 <= j < x.1.len() ==> is_recent(#[trigger] x.1[j], now)
            },
        cleaned(cleaned(s, now), now) == cleaned(s, now),
{
    let keep = |e: TimedEntry<V>| is_recent(e, now);
    let nonempty = |x: (bool, Seq<TimedEntry<V>>)| x.1.len() > 0;
    let f = |x: (bool, Seq<TimedEntry<V>>)| (x.0, x.1.filter(keep));
    let mapped = s.map_values(f);
    let c = cleaned(s, now);
    assert(c == mapped.filter(nonempty));
    assert forall|i: int| 0 <= i < c.len() implies {
        let x = #[trigger] c[i];
        &&& x.1.len() > 0
        &&& forall|j: int| 0 <= j < x.1.len() ==> is_recent(#[trigger] x.1[j], now)
    } by {
        mapped.lemma_filter_pred(nonempty, i);
        mapped.lemma_filter_contains_rev(nonempty, c[i]);
        let k = choose|k: int| 0 <= k < mapped.len() && mapped[k] == c[i];
        assert forall|j: int| 0 <= j < c[i].1.len() implies is_recent(#[trigger] c[i].1[j], now) by {
            s[k].1.lemma_filter_pred(keep, j);
        }
    }
    assert forall|i: int| 0 <= i < c.len() implies #[trigger] c[i].1.filter(keep) == c[i].1 by {
        lemma_filter_keeps_all(c[i].1, keep);
    }
    assert(c.map_values(f) =~= c);
    lemma_filter_keeps_all(c, nonempty);
}

/// The entries of `v` taken less than `MAX_TIME` before `now`, in order.
pub open spec fn recent_entries<V>(v: Seq<TimedEntry<V>>, now: int) -> Seq<TimedEntry<V>> {
    v.filter(|e: TimedEntry<V>| now - e.timestamp < MAX_TIME)
}

/// A cleanup drops only old entries: every sequence that holds an entry taken less than
/// `MAX_TIME` before `now` survives it, alive or dead, with its recent entries in order; and
/// it never adds a sequence.
pub proof fn law_cleanup_keeps_recent_sequences<V>(s: Seq<(bool, Seq<TimedEntry<V>>)>, now: int)
    ensures
        forall|i: int|
            0 <= i < s.len() && (exists|j: int|
                0 <= j < s[i].1.len() && now - (#[trigger] s[i].1[j]).timestamp < MAX_TIME)
                ==> cleaned(s, now).contains((s[i].0, recent_entries(s[i].1, now))),
        forall|x: (bool, Seq<TimedEntry<V>>)|
            #[trigger] cleaned(s, now).contains(x) ==> x.1.len() > 0 && exists|i: int|
                0 <= i < s.len() && x.0 == s[i].0 && x.1 == recent_entries(s[i].1, now),
        cleaned(s, now).len() <= s.len(),
{
    let keep = |e: TimedEntry<V>| is_recent(e, now);
    let nonempty = |x: (bool, Seq<TimedEntry<V>>)| x.1.len() > 0;
    let f = |x: (bool, Seq<TimedEntry<V>>)| (x.0, x.1.filter(keep));
    let mapped = s.map_values(f);
    let c = cleaned(s, now);
    assert(c == mapped.filter(nonempty));
    assert(keep =~= (|e: TimedEntry<V>| now - e.timestamp < MAX_TIME));
    assert forall|v: Seq<TimedEntry<V>>| #[trigger] recent_entries(v, now) == v.filter(keep) by {}
    assert forall|i: int|
        0 <= i < s.len() && (exists|j: int|
            0 <= j < s[i].1.len() && now - (#[trigger] s[i].1[j]).timestamp < MAX_TIME) implies
        c.contains((s[i].0, recent_entries(s[i].1, now))) by {
        let j = choose|j: int| 0 <= j < s[i].1.len() && now - (#[trigger] s[i].1[j]).timestamp < MAX_TIME;
        s[i].1.lemma_filter_contains(keep, j);
        assert(mapped[i] == f(s[i]));
        assert(nonempty(mapped[i]));
        assert(recent_entries(s[i].1, now) == s[i].1.filter(keep));
        mapped.lemma_filter_contains(nonempty, i);
    }
    assert forall|x: (bool, Seq<TimedEntry<V>>)| #[trigger] c.contains(x) implies x.1.len() > 0
        && exists|i: int| 0 <= i < s.len() && x.0 == s[i].0 && x.1 == recent_entries(s[i].1, now) by {
        mapped.lemma_filter_contains_rev(nonempty, x);
        let k = choose|k: int| 0 <= k < c.len() && c[k] == x;
        mapped.lemma_filter_pred(nonempty, k);
        let i = choose|i: int| 0 <= i < mapped.len() && mapped[i] == x;
        assert(mapped[i] == f(s[i]));
        assert(recent_entries(s[i].1, now) == s[i].1.filter(keep));
    }
    mapped.lemma_filter_len(nonempty);
}

/// Every sequence holds at least one value.
pub open spec fn all_nonempty<E>(s: Seq<(bool, Seq<E>)>) -> bool {
    forall|i: int| 0 <= i < s.len() ==> #[trigger] s[i].1.len() > 0
}

/// A batch keeps every sequence non-empty: matched sequences grow, sequences that die keep
/// their values, and each new sequence starts with one value; a cleanup then drops the
/// sequences it empties.
pub proof fn law_batches_keep_sequences_nonempty<V>(
    old: Seq<(bool, Seq<TimedEntry<V>>)>,
    m: Seq<Option<usize>>,
    batch: Seq<TimedEntry<V>>,
    now: int,
)
    requires
        all_nonempty(old),
    ensures
        all_nonempty(applied_batch(old, m, batch)),
        all_nonempty(cleaned(applied_batch(old, m, batch), now)),
{
    let a = applied_batch(old, m, batch);
    let pos = alive_positions(old);
    assert forall|p: int| 0 <= p < a.len() implies #[trigger] a[p].1.len() > 0 by {
        if p < old.len() {
            if exists|k: int| 0 <= k < m.len() && k < pos.len() && #[trigger] pos[k] == p {
                let k = choose|k: int| 0 <= k < m.len() && k < pos.len() && #[trigger] pos[k] == p;
                assert(a[p] == matched_step(old[p], m[k], batch));
                assert(old[p].1.len() > 0);
            } else {
                assert(a[p] == old[p]);
            }
        }
    }
    law_cleaned_is_recent(a, now);
}

/// No two positions of a match matrix point to the same entry.
pub open spec fn one_to_one(m: Seq<Option<usize>>) -> bool {
    forall|p: int, q: int| 0 <= p < q < m.len() && m[p] is Some ==> m[p] != m[q]
}

/// The index of the batch entry that the sequence at position `p` received from a batch of
/// `n` entries matched by `m`, if it received one.
pub open spec fn received_entry<E>(
    old: Seq<(bool, Seq<E>)>,
    m: Seq<Option<usize>>,
    n: int,
    p: int,
) -> Option<int> {
    let pos = alive_positions(old);
    if p < old.len() {
        if exists|k: int| 0 <= k < m.len() && k < pos.len() && #[trigger] pos[k] == p {
            let k = choose|k: int| 0 <= k < m.len() && k < pos.len() && #[trigger] pos[k] == p;
            match m[k] {
                Some(j) => Some(j as int),
                None => None,
            }
        } else {
            None
        }
    } else {
        Some(unmatched_upto(m, n)[p - old.len()])
    }
}

/// Whether no position of `m` points to the entry `j`.
pub open spec fn unpointed(m: Seq<Option<usize>>, j: int) -> bool {
    !m.contains(Some(j as usize))
}

/// Whether some sequence, old or new, received the batch entry `j`.
pub open spec fn lands_somewhere<E>(
    old: Seq<(bool, Seq<E>)>,
    m: Seq<Option<usize>>,
    n: int,
    j: int,
) -> bool {
    exists|p: int|
        0 <= p < old.len() + unmatched_upto(m, n).len() && #[trigger] received_entry(old, m, n, p)
            == Some(j)
}

proof fn lemma_unmatched_complete(m: Seq<Option<usize>>, n: int)
    requires
        n <= usize::MAX + 1,
    ensures
        forall|i1: int, i2: int|
            0 <= i1 < i2 < unmatched_upto(m, n).len() ==> unmatched_upto(m, n)[i1]
                < unmatched_upto(m, n)[i2],
        forall|j: int|
            0 <= j < n && #[trigger] unpointed(m, j) ==> exists|i: int|
                0 <= i < unmatched_upto(m, n).len() && unmatched_upto(m, n)[i] == j,
    decreases n,
{
    if n > 0 {
        lemma_unmatched_complete(m, n - 1);
        lemma_unmatched_upto(m, n - 1);
        let prev = unmatched_upto(m, n - 1);
        let cur = unmatched_upto(m, n);
        if !m.contains(Some((n - 1) as usize)) {
            assert(cur == prev.push(n - 1));
            assert forall|i1: int, i2: int| 0 <= i1 < i2 < cur.len() implies cur[i1] < cur[i2] by {
                assert(cur[i1] == prev[i1]);
                if i2 < prev.len() {
                    assert(cur[i2] == prev[i2]);
                }
            }
            assert forall|j: int| 0 <= j < n && #[trigger] unpointed(m, j) implies exists|i: int|
                0 <= i < cur.len() && cur[i] == j by {
                if j < n - 1 {
                    let i = choose|i: int| 0 <= i < prev.len() && prev[i] == j;
                    assert(cur[i] == prev[i]);
                } else {
                    assert(cur[prev.len() as int] == j);
                }
            }
        } else {
            assert(cur == prev);
        }
    }
}

/// When the matrix is one to one and points into the batch, each value of the batch lands in
/// exactly one sequence: the sequence of the position that points to it, which gets it
/// appended, or else a new sequence that starts with it; every other sequence keeps its values.
pub proof fn law_each_value_lands_once<E>(
    old: Seq<(bool, Seq<E>)>,
    m: Seq<Option<usize>>,
    batch: Seq<E>,
)
    requires
        batch.len() <= usize::MAX,
        m.len() <= alive_positions(old).len(),
        forall|k: int| 0 <= k < m.len() && m[k] is Some ==> (#[trigger] m[k])->0 < batch.len(),
        one_to_one(m),
    ensures
        ({
            let a = applied_batch(old, m, batch);
            let n = batch.len() as int;
            &&& forall|p: int|
                0 <= p < a.len() && #[trigger] received_entry(old, m, n, p) is Some ==> {
                    let j = received_entry(old, m, n, p)->0;
                    &&& 0 <= j < n
                    &&& a[p].1 == if p < old.len() {
                        old[p].1.push(batch[j])
                    } else {
                        seq![batch[j]]
                    }
                }
            &&& forall|p: int|
                0 <= p < old.len() && #[trigger] received_entry(old, m, n, p) is None ==> a[p].1
                    == old[p].1
            &&& a.len() == old.len() + unmatched_upto(m, n).len()
            &&& forall|j: int| 0 <= j < n ==> #[trigger] lands_somewhere(old, m, n, j)
            &&& forall|p1: int, p2: int|
                0 <= p1 < a.len() && 0 <= p2 < a.len() && #[trigger] received_entry(old, m, n, p1)
                    is Some && received_entry(old, m, n, p1) == #[trigger] received_entry(
                    old,
                    m,
                    n,
                    p2,
                ) ==> p1 == p2
        }),
{
    let a = applied_batch(old, m, batch);
    let n = batch.len() as int;
    let pos = alive_positions(old);
    let u = unmatched_upto(m, n);
    lemma_alive_positions(old);
    lemma_unmatched_upto(m, n);
    lemma_unmatched_complete(m, n);
    assert forall|p: int|
        0 <= p < a.len() && #[trigger] received_entry(old, m, n, p) is Some implies {
            let j = received_entry(old, m, n, p)->0;
            &&& 0 <= j < n
            &&& a[p].1 == if p < old.len() {
                old[p].1.push(batch[j])
            } else {
                seq![batch[j]]
            }
        } by {
        if p < old.len() {
            let k = choose|k: int| 0 <= k < m.len() && k < pos.len() && #[trigger] pos[k] == p;
            assert(m[k] is Some);
        }
    }
    assert forall|j: int| 0 <= j < n implies #[trigger] lands_somewhere(old, m, n, j) by {
        if m.contains(Some(j as usize)) {
            let k = choose|k: int| 0 <= k < m.len() && m[k] == Some(j as usize);
            let p = pos[k];
            let k2 = choose|k2: int| 0 <= k2 < m.len() && k2 < pos.len() && #[trigger] pos[k2] == p;
            if k2 < k {
                assert(pos[k2] < pos[k]);
            } else if k < k2 {
                assert(pos[k] < pos[k2]);
            }
            assert(received_entry(old, m, n, p) == Some(j));
        } else {
            assert(unpointed(m, j));
            let i = choose|i: int| 0 <= i < u.len() && u[i] == j;
            assert(received_entry(old, m, n, old.len() + i) == Some(j));
        }
    }
    assert forall|p1: int, p2: int|
        0 <= p1 < a.len() && 0 <= p2 < a.len() && #[trigger] received_entry(old, m, n, p1) is Some
            && received_entry(old, m, n, p1) == #[trigger] received_entry(old, m, n, p2)
        implies p1 == p2 by {
        let j = received_entry(old, m, n, p1)->0;
        if p1 < old.len() && p2 < old.len() {
            let k1 = choose|k: int| 0 <= k < m.len() && k < pos.len() && #[trigger] pos[k] == p1;
            let k2 = choose|k: int| 0 <= k < m.len() && k < pos.len() && #[trigger] pos[k] == p2;
            if k1 < k2 {
                assert(m[k1] != m[k2]);
            } else if k2 < k1 {
                assert(m[k2] != m[k1]);
            }
        } else if p1 < old.len() {
            let k1 = choose|k: int| 0 <= k < m.len() && k < pos.len() && #[trigger] pos[k] == p1;
            assert(m[k1] == Some(j as usize));
            assert(m.contains(Some(j as usize)));
            assert(u[p2 - old.len()] == j);
        } else if p2 < old.len() {
            let k2 = choose|k: int| 0 <= k < m.len() && k < pos.len() && #[trigger] pos[k] == p2;
            assert(m[k2] == Some(j as usize));
            assert(m.contains(Some(j as usize)));
            assert(u[p1 - old.len()] == j);
        } else {
            let i1 = p1 - old.len();
            let i2 = p2 - old.len();
            if i1 < i2 {
                assert(u[i1] < u[i2]);
            } else if i2 < i1 {
                assert(u[i2] < u[i1]);
            }
        }
    }
}

pub proof fn lemma_alive_positions<T>(s: Seq<(bool, Seq<T>)>)
    ensures
        alive_positions(s).len() <= s.len(),
        forall|k: int|
            0 <= k < alive_positions(s).len() ==> 0 <= #[trigger] alive_positions(s)[k] < s.len()
                && s[alive_positions(s)[k]].0,
        forall|i: int, j: int|
            0 <= i < j < alive_positions(s).len() ==> #[trigger] alive_positions(s)[i]
                < #[trigger] alive_positions(s)[j],
        forall|p: int|
            0 <= p < s.len() && s[p].0 ==> exists|k: int|
                0 <= k < alive_positions(s).len() && #[trigger] alive_positions(s)[k] == p,
    decreases s.len(),
{
    if s.len() > 0 {
        let d = s.drop_last();
        lemma_alive_positions(d);
        let prev = alive_positions(d);
        assert forall|p: int| 0 <= p < s.len() && s[p].0 implies exists|k: int|
            0 <= k < alive_positions(s).len() && #[trigger] alive_positions(s)[k] == p by {
            if p < s.len() - 1 {
                assert(d[p] == s[p]);
                let k = choose|k: int| 0 <= k < prev.len() && #[trigger] prev[k] == p;
                assert(alive_positions(s)[k] == p);
            } else {
                assert(alive_positions(s)[prev.len() as int] == p);
            }
        }
    }
}

pub proof fn lemma_unmatched_upto(m: Seq<Option<usize>>, n: int)
    ensures
        unmatched_upto(m, n).len() <= if n < 0 {
            0
        } else {
            n
        },
        forall|r: int|
            0 <= r < unmatched_upto(m, n).len() ==> 0 <= #[trigger] unmatched_upto(m, n)[r] < n
                && !m.contains(Some(unmatched_upto(m, n)[r] as usize)),
    decreases n,
{
    if n > 0 {
        lemma_unmatched_upto(m, n - 1);
    }
}

proof fn lemma_count_matched_take(m: Seq<Option<usize>>, i: int)
    requires
        0 < i <= m.len(),
    ensures
        count_matched(m.take(i)) == count_matched(m.take(i - 1)) + if m[i - 1] is Some {
            1nat
        } else {
            0nat
        },
        count_matched(m.take(i)) <= count_matched(m),
    decreases m.len() - i,
{
    assert(m.take(i).drop_last() =~= m.take(i - 1));
    if i < m.len() {
        lemma_count_matched_take(m, i + 1);
    } else {
        assert(m.take(i) =~= m);
    }
}

proof fn lemma_unmatched_upto_mono(m: Seq<Option<usize>>, a: int, b: int)
    requires
        0 <= a <= b,
    ensures
        unmatched_upto(m, a).len() <= unmatched_upto(m, b).len(),
        unmatched_upto(m, a).len() <= unmatched_upto(m, a - 1).len() + 1,
    decreases b - a,
{
    if a < b {
        lemma_unmatched_upto_mono(m, a, b - 1);
    }
}

/// The matched values of a batch, as lists of sequences over time.
#[derive(Debug)]
pub struct TimeSeries<V> {
    pub sequences: Vec<Sequence<TimedEntry<V>>>,
    total_entries: u64,
    cleanup_counter: u64,
    newest_time: i64,
}

/// The abstract state of a time series.
pub struct TimeSeriesState<V> {
    pub sequences: Seq<(bool, Seq<TimedEntry<V>>)>,
    pub total_entries: u64,
    pub cleanup_counter: u64,
    pub newest_time: i64,
}

impl<V> View for TimeSeries<V> {
    type V = TimeSeriesState<V>;

    closed spec fn view(&self) -> TimeSeriesState<V> {
        TimeSeriesState {
            sequences: sequences_state(self.sequences@),
            total_entries: self.total_entries,
            cleanup_counter: self.cleanup_counter,
            newest_time: self.newest_time,
        }
    }
}

/// Number of entries a batch adds to a time series.
pub open spec fn batch_added(m: Seq<Option<usize>>, batch_len: int) -> nat {
    count_matched(m) + unmatched_upto(m, batch_len).len()
}

impl<V: Copy> TimeSeries<V> {
    /// A time series with no sequences.
    pub fn empty() -> (ts: TimeSeries<V>)
        ensures
            ts@.sequences == Seq::<(bool, Seq<TimedEntry<V>>)>::empty(),
            ts@.total_entries == 0,
            ts@.cleanup_counter == 0,
    {
        let ts = TimeSeries {
            sequences: Vec::new(),
            total_entries: 0,
            cleanup_counter: 0,
            newest_time: now_millis(),
        };
        assert(ts@.sequences =~= Seq::<(bool, Seq<TimedEntry<V>>)>::empty());
        ts
    }

    /// Time of the newest batch.
    pub fn newest_time(&self) -> (t: i64)
        ensures
            t == self@.newest_time,
    {
        self.newest_time
    }

    /// Positions of the alive sequences, in increasing order.
    pub fn alive_indices(&self) -> (r: Vec<usize>)
        ensures
            r@.len() == alive_positions(self@.sequences).len(),
            forall|k: int| 0 <= k < r@.len() ==> r@[k] as int == alive_positions(self@.sequences)[k],
    {
        let ghost st = self@.sequences;
        let n = self.sequences.len();
        let mut r: Vec<usize> = Vec::new();
        for i in 0..n
            invariant
                n == self.sequences@.len(),
                st == sequences_state(self.sequences@),
                r@.len() == alive_positions(st.take(i as int)).len(),
                forall|k: int|
                    0 <= k < r@.len() ==> r@[k] as int == alive_positions(st.take(i as int))[k],
        {
            assert(st.take(i + 1).drop_last() =~= st.take(i as int));
            assert(st.take(i + 1).last() == st[i as int]);
            if self.sequences[i].alive {
                r.push(i);
            }
        }
        assert(st.take(n as int) =~= st);
        r
    }

    /// Drops, once enough entries were added since the last cleanup, the entries that are
    /// older than `MAX_TIME` at `now`, and the sequences left empty.
    pub fn clean_old_at(&mut self, now: i64)
        ensures
            old(self)@.cleanup_counter < CLEAN_THRESH ==> final(self)@ == old(self)@,
            old(self)@.cleanup_counter >= CLEAN_THRESH ==> {
                &&& final(self)@.sequences == cleaned(old(self)@.sequences, now as int)
                &&& final(self)@.cleanup_counter == 0
                &&& final(self)@.total_entries == old(self)@.total_entries
                &&& final(self)@.newest_time == old(self)@.newest_time
            },
            all_nonempty(old(self)@.sequences) ==> all_nonempty(final(self)@.sequences),
    {
        if self.cleanup_counter < CLEAN_THRESH {
            return;
        }
        self.cleanup_counter = 0;
        proof {
            law_cleaned_is_recent(old(self)@.sequences, now as int);
        }

        let ghost st = old(self)@.sequences;
        let ghost keep = |e: TimedEntry<V>| is_recent(e, now as int);
        let ghost nonempty = |x: (bool, Seq<TimedEntry<V>>)| x.1.len() > 0;
        let ghost f = |x: (bool, Seq<TimedEntry<V>>)| (x.0, x.1.filter(keep));
        let n = self.sequences.len();
        let mut kept: Vec<Sequence<TimedEntry<V>>> = Vec::new();
        for i in 0..n
            invariant
                n == self.sequences@.len(),
                st == sequences_state(self.sequences@),
                sequences_state(kept@) == st.take(i as int).map_values(f).filter(nonempty),
                keep == (|e: TimedEntry<V>| is_recent(e, now as int)),
                nonempty == (|x: (bool, Seq<TimedEntry<V>>)| x.1.len() > 0),
                f == (|x: (bool, Seq<TimedEntry<V>>)| (x.0, x.1.filter(keep))),
        {
            let values = &self.sequences[i].values;
            let ghost vs = values@;
            let m = values.len();
            let mut recent: Vec<TimedEntry<V>> = Vec::new();
            for j in 0..m
                invariant
                    m == vs.len(),
                    vs == values@,
                    recent@ == vs.take(j as int).filter(keep),
                    keep == (|e: TimedEntry<V>| is_recent(e, now as int)),
            {
                let entry = values[j];
                assert(vs.take(j + 1) =~= vs.take(j as int).push(entry));
                proof {
                    vs.take(j as int).lemma_filter_push(entry, keep);
                }
                if (now as i128) - (entry.timestamp as i128) < (MAX_TIME as i128) {
                    recent.push(entry);
                }
            }
            assert(vs.take(m as int) =~= vs);
            let ghost before = kept@;
            let alive = self.sequences[i].alive;
            let ghost x = (alive, recent@);
            assert(x == f(st[i as int]));
            assert(st.take(i + 1).map_values(f) =~= st.take(i as int).map_values(f).push(x));
            proof {
                st.take(i as int).map_values(f).lemma_filter_push(x, nonempty);
            }
            if recent.len() > 0 {
                kept.push(Sequence { alive, values: recent });
                assert(sequences_state(kept@) =~= sequences_state(before).push(x));
            }
        }
        assert(st.take(n as int) =~= st);
        self.sequences = kept;
    }

    /// Drops the old entries, if enough entries were added since the last cleanup, measuring
    /// age against the current time.
    fn clean_old(&mut self)
        ensures
            old(self)@.cleanup_counter < CLEAN_THRESH ==> final(self)@ == old(self)@,
            old(self)@.cleanup_counter >= CLEAN_THRESH ==> {
                &&& exists|now: i64| final(self)@.sequences == cleaned(old(self)@.sequences, now as int)
                &&& final(self)@.cleanup_counter == 0
                &&& final(self)@.total_entries == old(self)@.total_entries
                &&& final(self)@.newest_time == old(self)@.newest_time
            },
    {
        let current_time = now_millis();
        self.clean_old_at(current_time);
    }

    /// Whether `push_batch` can take this batch with this matrix: the matrix has no more
    /// positions than there are alive sequences, points only into the batch and to each entry
    /// at most once, and the counters of entries stay within `u64`.
    pub fn accepts_batch(&self, batch: &[TimedEntry<V>], match_matrix: &MatchMatrix) -> (ok: bool)
        ensures
            ok == {
                &&& match_matrix@.len() <= alive_positions(self@.sequences).len()
                &&& forall|k: int|
                    0 <= k < match_matrix@.len() && match_matrix@[k] is Some ==> (
                    #[trigger] match_matrix@[k])->0 < batch@.len()
                &&& self@.total_entries + batch_added(match_matrix@, batch@.len() as int)
                    <= u64::MAX
                &&& self@.cleanup_counter + batch_added(match_matrix@, batch@.len() as int)
                    <= u64::MAX
                &&& one_to_one(match_matrix@)
            },
    {
        let ghost m = match_matrix@;
        let matrix_len = match_matrix.entries().len();
        let duplicates = match_matrix.find_duplicates();
        proof {
            assert(m.len() == matrix_len);
            law_duplicates_are_shared_entries(m);
            assert(duplicates@.map_values(|d: Duplicate| d@).len() == duplicates@.len());
        }
        if duplicates.len() > 0 {
            return false;
        }
        let alive = self.alive_indices();
        let entries = match_matrix.entries();
        let n = entries.len();
        if n > alive.len() {
            return false;
        }
        let mut matched: u64 = 0;
        for k in 0..n
            invariant
                n == m.len(),
                m == entries@,
                m == match_matrix@,
                n <= alive@.len(),
                matched == count_matched(m.take(k as int)),
                matched <= k,
                forall|q: int| 0 <= q < k && m[q] is Some ==> (#[trigger] m[q])->0 < batch@.len(),
        {
            proof {
                lemma_count_matched_take(m, k + 1);
            }
            match entries[k] {
                Some(e) => {
                    if e >= batch.len() {
                        assert(match_matrix@[k as int] == Some(e));
                        return false;
                    }
                    matched = matched + 1;
                },
                None => {},
            }
        }
        assert(m.take(n as int) =~= m);
        let len = batch.len();
        let mut unmatched: u64 = 0;
        for i in 0..len
            invariant
                len == batch@.len(),
                m == match_matrix@,
                unmatched == unmatched_upto(m, i as int).len(),
                unmatched <= i,
        {
            if !match_matrix.is_locked(i) {
                unmatched = unmatched + 1;
            }
        }
        if matched > u64::MAX - unmatched {
            return false;
        }
        let added = matched + unmatched;
        self.total_entries <= u64::MAX - added && self.cleanup_counter <= u64::MAX - added
    }

    /// Adds a batch matched by `match_matrix` to the series (see `applied_batch`), records the
    /// time of the batch, and drops the old entries once enough entries were added since the
    /// last cleanup.
    pub fn push_batch(&mut self, batch: &[TimedEntry<V>], match_matrix: &MatchMatrix)
        requires
            match_matrix@.len() <= alive_positions(old(self)@.sequences).len(),
            forall|k: int|
                0 <= k < match_matrix@.len() && match_matrix@[k] is Some ==> (
                #[trigger] match_matrix@[k])->0 < batch@.len(),
            old(self)@.total_entries + batch_added(match_matrix@, batch@.len() as int)
                <= u64::MAX,
            old(self)@.cleanup_counter + batch_added(match_matrix@, batch@.len() as int)
                <= u64::MAX,
            one_to_one(match_matrix@),
        ensures
            ({
                let added = batch_added(match_matrix@, batch@.len() as int);
                let applied = applied_batch(old(self)@.sequences, match_matrix@, batch@);
                &&& final(self)@.total_entries == old(self)@.total_entries + added
                &&& old(self)@.cleanup_counter + added < CLEAN_THRESH ==> {
                    &&& final(self)@.sequences == applied
                    &&& final(self)@.cleanup_counter == old(self)@.cleanup_counter + added
                }
                &&& old(self)@.cleanup_counter + added >= CLEAN_THRESH ==> {
                    &&& exists|now: i64| final(self)@.sequences == cleaned(applied, now as int)
                    &&& final(self)@.cleanup_counter == 0
                }
                &&& batch@.len() > 0 ==> final(self)@.newest_time == batch@.last().timestamp
            }),
            all_nonempty(old(self)@.sequences) ==> all_nonempty(final(self)@.sequences),
    {
        let ghost old_sequences = self@.sequences;
        self.apply_batch(batch, match_matrix);

        // Update newest time
        self.newest_time = if batch.len() > 0 {
            batch[batch.len() - 1].timestamp
        } else {
            now_millis()
        };

        self.clean_old();
        proof {
            if all_nonempty(old_sequences) {
                let applied = applied_batch(old_sequences, match_matrix@, batch@);
                law_batches_keep_sequences_nonempty(old_sequences, match_matrix@, batch@, 0);
                if self@.sequences != applied {
                    let now = choose|now: i64| self@.sequences == cleaned(applied, now as int);
                    law_batches_keep_sequences_nonempty(
                        old_sequences,
                        match_matrix@,
                        batch@,
                        now as int,
                    );
                }
            }
        }
    }

    /// Adds a batch to the series: the k-th alive sequence receives the entry that position k of
    /// the match matrix points to, or dies when it points to none; each entry of the batch that
    /// no position points to starts a new sequence.
    fn apply_batch(&mut self, batch: &[TimedEntry<V>], match_matrix: &MatchMatrix)
        requires
            match_matrix@.len() <= alive_positions(old(self)@.sequences).len(),
            forall|k: int|
                0 <= k < match_matrix@.len() && match_matrix@[k] is Some ==> (
                #[trigger] match_matrix@[k])->0 < batch@.len(),
            old(self)@.total_entries + batch_added(match_matrix@, batch@.len() as int)
                <= u64::MAX,
            old(self)@.cleanup_counter + batch_added(match_matrix@, batch@.len() as int)
                <= u64::MAX,
        ensures
            final(self)@.sequences == applied_batch(
                old(self)@.sequences,
                match_matrix@,
                batch@,
            ),
            final(self)@.total_entries == old(self)@.total_entries + batch_added(
                match_matrix@,
                batch@.len() as int,
            ),
            final(self)@.cleanup_counter == old(self)@.cleanup_counter + batch_added(
                match_matrix@,
                batch@.len() as int,
            ),
            final(self)@.newest_time == old(self)@.newest_time,
    {
        let ghost old_st = self@.sequences;
        let ghost m = match_matrix@;
        let ghost pos = alive_positions(old_st);
        proof {
            lemma_alive_positions(old_st);
        }
        let index_map = self.alive_indices();
        let n = match_matrix.0.len();
        let mut added: u64 = 0;

        // Update old sequences with matches
        for i in 0..n
            invariant
                n == m.len(),
                m == match_matrix@,
                n <= pos.len(),
                pos == alive_positions(old_st),
                index_map@.len() == pos.len(),
                forall|k: int| 0 <= k < index_map@.len() ==> index_map@[k] as int == pos[k],
                forall|k: int| 0 <= k < pos.len() ==> 0 <= #[trigger] pos[k] < old_st.len() && old_st[pos[k]].0,
                forall|a: int, b: int| 0 <= a < b < pos.len() ==> #[trigger] pos[a] < #[trigger] pos[b],
                forall|k: int|
                    0 <= k < m.len() && m[k] is Some ==> (#[trigger] m[k])->0 < batch@.len(),
                self.sequences@.len() == old_st.len(),
                forall|p: int|
                    0 <= p < old_st.len() && !old_st[p].0 ==> sequence_state(
                        #[trigger] self.sequences@[p],
                    ) == old_st[p],
                forall|k: int|
                    0 <= k < i ==> sequence_state(#[trigger] self.sequences@[pos[k]])
                        == matched_step(old_st[pos[k]], m[k], batch@),
                forall|k: int|
                    i <= k < pos.len() ==> sequence_state(#[trigger] self.sequences@[pos[k]])
                        == old_st[pos[k]],
                added as int == count_matched(m.take(i as int)),
                old(self)@.total_entries + batch_added(m, batch@.len() as int) <= u64::MAX,
                self.total_entries == old(self)@.total_entries + added,
                self.cleanup_counter == old(self)@.cleanup_counter + added,
                self.newest_time == old(self)@.newest_time,
                old(self)@.cleanup_counter + batch_added(m, batch@.len() as int) <= u64::MAX,
                old_st == old(self)@.sequences,
        {
            assert(m.take(i + 1).drop_last() =~= m.take(i as int));
            assert(m.take(i + 1).last() == m[i as int]);
            proof {
                lemma_count_matched_take(m, i as int + 1);
            }
            let sequence_i = index_map[i];
            assert(pos[i as int] < old_st.len());
            let ghost before = self.sequences@;
            match match_matrix.0[i] {
                Some(matched_entry) => {
                    let entry = batch[matched_entry];
                    self.sequences[sequence_i].push(entry);
                    self.total_entries = self.total_entries + 1;
                    self.cleanup_counter = self.cleanup_counter + 1;
                    added = added + 1;
                },
                None => {
                    self.sequences[sequence_i].kill();
                },
            }
            assert forall|p: int| 0 <= p < old_st.len() && p != pos[i as int] implies
                #[trigger] self.sequences@[p] == before[p] by {}
        }
        assert(m.take(n as int) =~= m);

        // Create new sequences for unmatched entries
        let ghost mid = self.sequences@;
        let batch_len = batch.len();
        proof {
            lemma_unmatched_upto(m, batch_len as int);
        }
        for j in 0..batch_len
            invariant
                batch_len == batch@.len(),
                n == m.len(),
                m == match_matrix@,
                self.sequences@.len() == old_st.len() + unmatched_upto(m, j as int).len(),
                forall|p: int| 0 <= p < old_st.len() ==> #[trigger] self.sequences@[p] == mid[p],
                forall|r: int|
                    0 <= r < unmatched_upto(m, j as int).len() ==> sequence_state(
                        #[trigger] self.sequences@[old_st.len() + r],
                    ) == (true, seq![batch@[unmatched_upto(m, j as int)[r]]]),
                mid.len() == old_st.len(),
                added as int == count_matched(m),
                old(self)@.total_entries + batch_added(m, batch@.len() as int) <= u64::MAX,
                old(self)@.cleanup_counter + batch_added(m, batch@.len() as int) <= u64::MAX,
                self.total_entries == old(self)@.total_entries + added + unmatched_upto(m, j as int).len(),
                self.cleanup_counter == old(self)@.cleanup_counter + added + unmatched_upto(m, j as int).len(),
                self.newest_time == old(self)@.newest_time,
                unmatched_upto(m, j as int).len() <= unmatched_upto(m, batch_len as int).len(),
        {
            proof {
                lemma_unmatched_upto_mono(m, j as int + 1, batch_len as int);
            }
            if !match_matrix.is_locked(j) {
                let new_sequence = Sequence::new(batch[j]);
                self.sequences.push(new_sequence);
                self.total_entries = self.total_entries + 1;
                self.cleanup_counter = self.cleanup_counter + 1;
            }
        }

        proof {
            let final_st = self@.sequences;
            let target = applied_batch(old_st, m, batch@);
            assert(final_st.len() == target.len());
            assert forall|p: int| 0 <= p < final_st.len() implies #[trigger] final_st[p] == target[p] by {
                if p < old_st.len() {
                    assert(final_st[p] == sequence_state(mid[p]));
                    if exists|k: int| 0 <= k < m.len() && k < pos.len() && #[trigger] pos[k] == p {
                        let k = choose|k: int| 0 <= k < m.len() && k < pos.len() && #[trigger] pos[k] == p;
                        assert(sequence_state(mid[pos[k]]) == matched_step(old_st[pos[k]], m[k], batch@));
                    } else if old_st[p].0 {
                        let k = choose|k: int| 0 <= k < pos.len() && #[trigger] pos[k] == p;
                        assert(sequence_state(mid[pos[k]]) == old_st[pos[k]]);
                    }
                } else {
                    let r = p - old_st.len();
                    assert(sequence_state(self.sequences@[old_st.len() + r]) == (true, seq![batch@[unmatched_upto(m, batch_len as int)[r]]]));
                }
            }
            assert(final_st =~= target);
        }
    }
}


// Region: groups of time series -------------------------------------------------

/// The time series of the valleys, the peaks, and their means.
#[derive(Debug)]
pub struct TimeSeriesGroup<V> {
    pub valleys: TimeSeries<V>,
    pub valley_means: TimeSeries<V>,
    pub peaks: TimeSeries<V>,
    pub peak_means: TimeSeries<V>,
}

impl<V: Copy> TimeSeriesGroup<V> {
    /// A group of four time series with no sequences.
    pub fn empty() -> (g: TimeSeriesGroup<V>)
        ensures
            g.valleys@.sequences.len() == 0,
            g.valley_means@.sequences.len() == 0,
            g.peaks@.sequences.len() == 0,
            g.peak_means@.sequences.len() == 0,
            g.valleys@.total_entries == 0,
            g.valley_means@.total_entries == 0,
            g.peaks@.total_entries == 0,
            g.peak_means@.total_entries == 0,
    {
        TimeSeriesGroup {
            valleys: TimeSeries::empty(),
            valley_means: TimeSeries::empty(),
            peaks: TimeSeries::empty(),
            peak_means: TimeSeries::empty(),
        }
    }
}

/// The drawing paths of a group of time series, one path per sequence.
#[derive(Debug, Clone)]
pub struct TimeSeriesGroupPaths {
    pub valleys: Vec<String>,
    pub valley_means: Vec<String>,
    pub peaks: Vec<String>,
    pub peak_means: Vec<String>,
}

impl TimeSeriesGroupPaths {
    /// No path for any of the four series.
    pub fn empty() -> (p: TimeSeriesGroupPaths)
        ensures
            p.valleys@.len() == 0,
            p.valley_means@.len() == 0,
            p.peaks@.len() == 0,
            p.peak_means@.len() == 0,
    {
        TimeSeriesGroupPaths {
            valleys: Vec::new(),
            valley_means: Vec::new(),
            peaks: Vec::new(),
            peak_means: Vec::new(),
        }
    }

    /// The paths the configuration draws: the paths of each series it draws, and none for the
    /// others.
    pub fn from_config(
        config: &TimeSeriesConfig,
        valleys: Vec<String>,
        valley_means: Vec<String>,
        peaks: Vec<String>,
        peak_means: Vec<String>,
    ) -> (p: TimeSeriesGroupPaths)
        ensures
            p.valleys@ == if config.draw_valleys { valleys@ } else { Seq::empty() },
            p.valley_means@ == if config.draw_valley_means { valley_means@ } else { Seq::empty() },
            p.peaks@ == if config.draw_peaks { peaks@ } else { Seq::empty() },
            p.peak_means@ == if config.draw_peak_means { peak_means@ } else { Seq::empty() },
    {
        TimeSeriesGroupPaths {
            valleys: if config.draw_valleys { valleys } else { Vec::new() },
            valley_means: if config.draw_valley_means { valley_means } else { Vec::new() },
            peaks: if config.draw_peaks { peaks } else { Vec::new() },
            peak_means: if config.draw_peak_means { peak_means } else { Vec::new() },
        }
    }
}

} // verus!
