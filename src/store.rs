//! The time-series store: per ticker, a bounded window of samples, with keys
//! kept in lexicographic order.
use crate::axis::{axis_of, axis_range};
use crate::keys::{key_less, key_lt, lemma_key_lt_irreflexive, lemma_key_lt_total, lemma_key_lt_transitive};
use crate::series::{
    column, deque_items, deque_len, deque_new, deque_pop_front, deque_push_back, items_of,
    lemma_increasing_extremes, lemma_min_le_max, seq_max, seq_min, times, values, vec_max, vec_min, window,
};
use slice_deque::SliceDeque;
use vstd::prelude::*;

verus! {

/// Why a query on the store has no answer.
#[derive(Debug, Clone, Copy, PartialEq, Eq, Structural)]
pub enum StoreError {
    /// No sample was ever appended under the key.
    KeyNotFound,
    /// The key is known but its window holds no sample (capacity zero).
    EmptySeries,
}

/// What the window for `k` holds in `m`, empty when `k` is absent.
pub open spec fn series_or_empty(m: Map<Seq<char>, Seq<(i64, i64)>>, k: Seq<char>) -> Seq<(i64, i64)> {
    if m.contains_key(k) {
        m[k]
    } else {
        Seq::empty()
    }
}

/// The store after appending `v` under `k` with capacity `n`.
pub open spec fn appended(
    m: Map<Seq<char>, Seq<(i64, i64)>>,
    k: Seq<char>,
    v: (i64, i64),
    n: nat,
) -> Map<Seq<char>, Seq<(i64, i64)>> {
    m.insert(k, window(series_or_empty(m, k).push(v), n))
}

/// The window under `k`, or why no sample can be read from it.
pub open spec fn nonempty_window(m: Map<Seq<char>, Seq<(i64, i64)>>, k: Seq<char>) -> Result<Seq<(i64, i64)>, StoreError> {
    if !m.contains_key(k) {
        Err(StoreError::KeyNotFound)
    } else if m[k].len() == 0 {
        Err(StoreError::EmptySeries)
    } else {
        Ok(m[k])
    }
}

/// Applies `f` to the window under `k`, passing errors through.
pub open spec fn fold_window(
    m: Map<Seq<char>, Seq<(i64, i64)>>,
    k: Seq<char>,
    f: spec_fn(Seq<(i64, i64)>) -> i64,
) -> Result<i64, StoreError> {
    match nonempty_window(m, k) {
        Ok(s) => Ok(f(s)),
        Err(e) => Err(e),
    }
}

/// Least value in a window.
pub open spec fn min_value_of(s: Seq<(i64, i64)>) -> i64 {
    seq_min(values(s))
}

/// Greatest value in a window.
pub open spec fn max_value_of(s: Seq<(i64, i64)>) -> i64 {
    seq_max(values(s))
}

/// Earliest timestamp in a window.
pub open spec fn min_time_of(s: Seq<(i64, i64)>) -> i64 {
    seq_min(times(s))
}

/// Latest timestamp in a window.
pub open spec fn max_time_of(s: Seq<(i64, i64)>) -> i64 {
    seq_max(times(s))
}

/// The store after appending each of `xs` under `k`, in order.
pub open spec fn appended_all(
    m: Map<Seq<char>, Seq<(i64, i64)>>,
    k: Seq<char>,
    xs: Seq<(i64, i64)>,
    n: nat,
) -> Map<Seq<char>, Seq<(i64, i64)>>
    decreases xs.len(),
{
    if xs.len() == 0 {
        m
    } else {
        appended(appended_all(m, k, xs.drop_last(), n), k, xs.last(), n)
    }
}

/// The store after each append of `ops` (a key and a sample), in order.
pub open spec fn apply_appends(
    m: Map<Seq<char>, Seq<(i64, i64)>>,
    ops: Seq<(Seq<char>, (i64, i64))>,
    n: nat,
) -> Map<Seq<char>, Seq<(i64, i64)>>
    decreases ops.len(),
{
    if ops.len() == 0 {
        m
    } else {
        appended(apply_appends(m, ops.drop_last(), n), ops.last().0, ops.last().1, n)
    }
}

/// The appends of `ops` made under key `k`, in order.
pub open spec fn appends_on(ops: Seq<(Seq<char>, (i64, i64))>, k: Seq<char>) -> Seq<(Seq<char>, (i64, i64))>
    decreases ops.len(),
{
    if ops.len() == 0 {
        ops
    } else if ops.last().0 == k {
        appends_on(ops.drop_last(), k).push(ops.last())
    } else {
        appends_on(ops.drop_last(), k)
    }
}

proof fn lemma_window_push(s: Seq<(i64, i64)>, v: (i64, i64), n: nat)
    ensures
        window(window(s, n).push(v), n) == window(s.push(v), n),
{
    if s.len() > n {
        assert(window(window(s, n).push(v), n) =~= window(s.push(v), n));
    }
}

/// Appending under one key keeps a window of at most `n` samples, and that
/// window is exactly the last `n` of everything appended (oldest evicted
/// first).
pub proof fn lemma_fifo(m: Map<Seq<char>, Seq<(i64, i64)>>, k: Seq<char>, xs: Seq<(i64, i64)>, n: nat)
    requires
        series_or_empty(m, k).len() <= n,
    ensures
        series_or_empty(appended_all(m, k, xs, n), k) == window(series_or_empty(m, k) + xs, n),
        series_or_empty(appended_all(m, k, xs, n), k).len() <= n,
        !m.contains_key(k) ==> series_or_empty(appended_all(m, k, xs, n), k) == window(xs, n),
    decreases xs.len(),
{
    let s = series_or_empty(m, k);
    if xs.len() == 0 {
        assert(s + xs =~= s);
    } else {
        lemma_fifo(m, k, xs.drop_last(), n);
        lemma_window_push(s + xs.drop_last(), xs.last(), n);
        assert((s + xs.drop_last()).push(xs.last()) =~= s + xs);
    }
    if !m.contains_key(k) {
        assert(s + xs =~= xs);
    }
}

/// Appends under other keys never change what is kept under `k`: the store
/// seen at `k` after any interleaving is the store after the appends on `k`
/// alone, so `get_min`, `get_max`, `min_time` and `max_time` on `k` agree.
pub proof fn lemma_no_cross_key_interference(
    m: Map<Seq<char>, Seq<(i64, i64)>>,
    ops: Seq<(Seq<char>, (i64, i64))>,
    k: Seq<char>,
    n: nat,
)
    ensures
        nonempty_window(apply_appends(m, ops, n), k) == nonempty_window(apply_appends(m, appends_on(ops, k), n), k),
        apply_appends(m, ops, n).contains_key(k) == apply_appends(m, appends_on(ops, k), n).contains_key(k),
        series_or_empty(apply_appends(m, ops, n), k) == series_or_empty(apply_appends(m, appends_on(ops, k), n), k),
    decreases ops.len(),
{
    if ops.len() > 0 {
        lemma_no_cross_key_interference(m, ops.drop_last(), k, n);
        if ops.last().0 == k {
            let f = appends_on(ops, k);
            assert(f.drop_last() == appends_on(ops.drop_last(), k));
        }
    }
}

/// Appending samples with strictly increasing timestamps under a new key
/// leaves a window whose earliest timestamp is its first sample's and whose
/// latest is its last one's.
pub proof fn lemma_increasing_times(m: Map<Seq<char>, Seq<(i64, i64)>>, k: Seq<char>, xs: Seq<(i64, i64)>, n: nat)
    requires
        !m.contains_key(k),
        xs.len() > 0,
        n > 0,
        forall|i: int, j: int| 0 <= i < j < xs.len() ==> xs[i].0 < xs[j].0,
    ensures
        ({
            let w = window(xs, n);
            &&& fold_window(appended_all(m, k, xs, n), k, |s: Seq<(i64, i64)>| min_time_of(s)) == Ok::<i64, StoreError>(w[0].0)
            &&& fold_window(appended_all(m, k, xs, n), k, |s: Seq<(i64, i64)>| max_time_of(s)) == Ok::<i64, StoreError>(w.last().0)
            &&& w[0].0 <= w.last().0
        }),
{
    lemma_fifo(m, k, xs, n);
    let w = window(xs, n);
    let a = appended_all(m, k, xs, n);
    assert(a.contains_key(k)) by {
        assert(appended_all(m, k, xs, n) == appended(appended_all(m, k, xs.drop_last(), n), k, xs.last(), n));
    }
    assert(w.len() > 0);
    let ts = times(w);
    assert forall|i: int, j: int| 0 <= i < j < ts.len() implies ts[i] < ts[j] by {
        if xs.len() > n {
            assert(w[i] == xs[xs.len() - n + i]);
            assert(w[j] == xs[xs.len() - n + j]);
        }
    }
    lemma_increasing_extremes(ts);
    if w.len() > 1 {
        assert(ts[0] < ts[ts.len() - 1]);
    }
}

/// Keys in strictly increasing order.
pub open spec fn strictly_sorted(keys: Seq<Seq<char>>) -> bool {
    forall|i: int, j: int| 0 <= i < j < keys.len() ==> key_lt(#[trigger] keys[i], #[trigger] keys[j])
}

/// Per ticker, a window of at most `max_size` `(timestamp, value)` samples.
pub struct SortedBTreeMap {
    entries: Vec<(String, SliceDeque<(i64, i64)>)>,
    max_size: u8,
}

impl SortedBTreeMap {
    /// The keys, in the store's order.
    pub closed spec fn keys(&self) -> Seq<Seq<char>> {
        self.entries@.map_values(|e: (String, SliceDeque<(i64, i64)>)| e.0@)
    }

    /// The windows, in the order of `keys`.
    pub closed spec fn windows(&self) -> Seq<Seq<(i64, i64)>> {
        self.entries@.map_values(|e: (String, SliceDeque<(i64, i64)>)| deque_items(e.1))
    }

    /// The most samples a window keeps.
    pub closed spec fn capacity(&self) -> nat {
        self.max_size as nat
    }

    /// Keys strictly ascending, one window per key, each within capacity.
    pub open spec fn wf(&self) -> bool {
        &&& self.keys().len() == self.windows().len()
        &&& strictly_sorted(self.keys())
        &&& forall|i: int| 0 <= i < self.windows().len() ==> (#[trigger] self.windows()[i]).len() <= self.capacity()
    }

    /// Position of key `k`.
    spec fn index_of(&self, k: Seq<char>) -> int {
        choose|i: int| 0 <= i < self.keys().len() && self.keys()[i] == k
    }

    /// The samples kept under each key.
    pub closed spec fn view(&self) -> Map<Seq<char>, Seq<(i64, i64)>> {
        Map::new(|k: Seq<char>| self.keys().contains(k), |k: Seq<char>| self.windows()[self.index_of(k)])
    }

    proof fn lemma_view_at(&self, i: int)
        requires
            self.wf(),
            0 <= i < self.keys().len(),
        ensures
            self.view().contains_key(self.keys()[i]),
            self.view()[self.keys()[i]] == self.windows()[i],
    {
        let k = self.keys()[i];
        assert(self.keys().contains(k));
        let j = self.index_of(k);
        if j != i {
            if j < i {
                assert(key_lt(self.keys()[j], self.keys()[i]));
            } else {
                assert(key_lt(self.keys()[i], self.keys()[j]));
            }
            lemma_key_lt_irreflexive(k);
        }
    }

    /// Every window in the view is within capacity, and the keys of the view
    /// are exactly the ordered keys.
    pub proof fn lemma_wf_view(&self)
        requires
            self.wf(),
        ensures
            forall|k: Seq<char>| #[trigger] self.view().contains_key(k) <==> self.keys().contains(k),
            forall|k: Seq<char>| #[trigger] self.view().contains_key(k) ==> self.view()[k].len() <= self.capacity(),
    {
        assert forall|k: Seq<char>| #[trigger] self.view().contains_key(k) implies self.view()[k].len() <= self.capacity() by {
            let i = choose|i: int| 0 <= i < self.keys().len() && self.keys()[i] == k;
            self.lemma_view_at(i);
        }
    }

    /// An empty store whose windows keep at most `max_size` samples.
    pub fn new(max_size: u8) -> (r: SortedBTreeMap)
        ensures
            r.wf(),
            r.capacity() == max_size,
            r.view() == Map::<Seq<char>, Seq<(i64, i64)>>::empty(),
    {
        let r = SortedBTreeMap { entries: Vec::new(), max_size: max_size };
        assert(r.keys() =~= Seq::<Seq<char>>::empty());
        assert(r.view() =~= Map::<Seq<char>, Seq<(i64, i64)>>::empty());
        r
    }

    /// Appends `val` under `ticker`, creating its window first if the key is
    /// new; when the window then exceeds `max_size` samples, the oldest one is
    /// dropped.
    pub fn insert(&mut self, ticker: String, val: (i64, i64))
        requires
            old(self).wf(),
        ensures
            final(self).wf(),
            final(self).capacity() == old(self).capacity(),
            final(self).view() == appended(old(self).view(), ticker@, val, old(self).capacity()),
    {
        let ghost old_keys = self.keys();
        let ghost old_wins = self.windows();
        let ghost n = self.capacity();
        let ghost target = appended(self.view(), ticker@, val, n);
        proof {
            self.lemma_wf_view();
        }
        let mut i: usize = 0;
        while i < self.entries.len() && key_less(&self.entries[i].0, &ticker)
            invariant
                self.keys() == old_keys,
                self.wf(),
                i <= old_keys.len(),
                old_keys.len() == self.entries@.len(),
                forall|j: int| 0 <= j < i ==> key_lt(#[trigger] old_keys[j], ticker@),
            decreases old_keys.len() - i,
        {
            i = i + 1;
        }
        let max = self.max_size as usize;
        if i < self.entries.len() && self.entries[i].0 == ticker {
            let (k, mut d) = self.entries.remove(i);
            proof {
                assert(old_wins[i as int] == deque_items(d));
            }
            push_bounded(&mut d, val, max);
            let ghost w = deque_items(d);
            self.entries.insert(i, (k, d));
            proof {
                assert(self.keys() =~= old_keys);
                assert(self.windows() =~= old_wins.update(i as int, w));
                assert(w == window(old_wins[i as int].push(val), n));
                assert(old(self).view()[ticker@] == old_wins[i as int]) by {
                    old(self).lemma_view_at(i as int);
                }
                self.lemma_wf_view();
                assert forall|k: Seq<char>| #[trigger] self.view().contains_key(k) implies self.view()[k] == target[k] by {
                    let j = choose|j: int| 0 <= j < self.keys().len() && self.keys()[j] == k;
                    self.lemma_view_at(j);
                    old(self).lemma_view_at(j);
                    if j == i {
                        assert(self.view()[k] == w);
                        assert(target[k] == window(old(self).view()[k].push(val), n));
                    } else if k == ticker@ {
                        if j < i {
                            assert(key_lt(self.keys()[j], self.keys()[i as int]));
                        } else {
                            assert(key_lt(self.keys()[i as int], self.keys()[j]));
                        }
                        lemma_key_lt_irreflexive(k);
                    }
                }
                assert forall|k: Seq<char>| self.view().contains_key(k) <==> #[trigger] target.contains_key(k) by {
                    if k == ticker@ {
                        assert(self.keys()[i as int] == k);
                    }
                }
                assert(self.view() =~= target);
            }
        } else {
            proof {
                if i < old_keys.len() {
                    lemma_key_lt_total(old_keys[i as int], ticker@);
                    assert forall|j: int| i <= j < old_keys.len() implies key_lt(ticker@, #[trigger] old_keys[j]) by {
                        if j > i {
                            lemma_key_lt_transitive(ticker@, old_keys[i as int], old_keys[j]);
                        }
                    }
                }
                assert(!old_keys.contains(ticker@)) by {
                    if old_keys.contains(ticker@) {
                        let j = choose|j: int| 0 <= j < old_keys.len() && old_keys[j] == ticker@;
                        lemma_key_lt_irreflexive(ticker@);
                    }
                }
            }
            let mut d = deque_new();
            push_bounded(&mut d, val, max);
            let ghost w = deque_items(d);
            self.entries.insert(i, (ticker, d));
            proof {
                let t = ticker@;
                assert(self.keys() =~= old_keys.insert(i as int, t));
                assert(self.windows() =~= old_wins.insert(i as int, w));
                assert(w =~= window(Seq::<(i64, i64)>::empty().push(val), n));
                assert forall|a: int, b: int| 0 <= a < b < self.keys().len() implies key_lt(
                    #[trigger] self.keys()[a],
                    #[trigger] self.keys()[b],
                ) by {
                    if b < i {
                    } else if b == i {
                    } else if a < i {
                        lemma_key_lt_transitive(old_keys[a], t, old_keys[b - 1]);
                    } else if a == i {
                    } else {
                        assert(key_lt(old_keys[a - 1], old_keys[b - 1]));
                    }
                }
                assert(self.wf());
                self.lemma_wf_view();
                assert forall|k: Seq<char>| self.view().contains_key(k) <==> #[trigger] target.contains_key(k) by {
                    if k != t && self.keys().contains(k) {
                        let j = choose|j: int| 0 <= j < self.keys().len() && self.keys()[j] == k;
                        if j < i {
                            assert(old_keys[j] == k);
                        } else {
                            assert(old_keys[j - 1] == k);
                        }
                    }
                    if k != t && old_keys.contains(k) {
                        let j = choose|j: int| 0 <= j < old_keys.len() && old_keys[j] == k;
                        if j < i {
                            assert(self.keys()[j] == k);
                        } else {
                            assert(self.keys()[j + 1] == k);
                        }
                    }
                    if k == t {
                        assert(self.keys()[i as int] == t);
                    }
                }
                assert forall|k: Seq<char>| #[trigger] self.view().contains_key(k) implies self.view()[k] == target[k] by {
                    let j = choose|j: int| 0 <= j < self.keys().len() && self.keys()[j] == k;
                    self.lemma_view_at(j);
                    if j < i {
                        old(self).lemma_view_at(j);
                    } else if j > i {
                        old(self).lemma_view_at(j - 1);
                    }
                }
                assert(self.view() =~= target);
            }
        }
    }

    /// One column of the window under `ticker`: timestamps when `use_time`,
    /// else values.
    fn column_of(&self, ticker: &String, use_time: bool) -> (r: Result<Vec<i64>, StoreError>)
        requires
            self.wf(),
        ensures
            match nonempty_window(self.view(), ticker@) {
                Ok(s) => r matches Ok(v) && v@ == (if use_time { times(s) } else { values(s) }) && v@.len() > 0,
                Err(e) => r == Err::<Vec<i64>, StoreError>(e),
            },
    {
        proof {
            self.lemma_wf_view();
        }
        match self.find(ticker) {
            None => Err(StoreError::KeyNotFound),
            Some(i) => {
                proof {
                    self.lemma_view_at(i as int);
                }
                let d = &self.entries[i].1;
                if deque_len(d) == 0 {
                    Err(StoreError::EmptySeries)
                } else {
                    Ok(column(d, use_time))
                }
            }
        }
    }

    /// The least value kept under `ticker`.
    pub fn get_min(&self, ticker: String) -> (r: Result<i64, StoreError>)
        requires
            self.wf(),
        ensures
            r == fold_window(self.view(), ticker@, |s: Seq<(i64, i64)>| min_value_of(s)),
    {
        match self.column_of(&ticker, false) {
            Ok(v) => Ok(vec_min(&v)),
            Err(e) => Err(e),
        }
    }

    /// The greatest value kept under `ticker`.
    pub fn get_max(&self, ticker: String) -> (r: Result<i64, StoreError>)
        requires
            self.wf(),
        ensures
            r == fold_window(self.view(), ticker@, |s: Seq<(i64, i64)>| max_value_of(s)),
    {
        match self.column_of(&ticker, false) {
            Ok(v) => Ok(vec_max(&v)),
            Err(e) => Err(e),
        }
    }

    /// The earliest timestamp (seconds since the Unix epoch) kept under `ticker`.
    pub fn min_time(&self, ticker: String) -> (r: Result<i64, StoreError>)
        requires
            self.wf(),
        ensures
            r == fold_window(self.view(), ticker@, |s: Seq<(i64, i64)>| min_time_of(s)),
    {
        match self.column_of(&ticker, true) {
            Ok(v) => Ok(vec_min(&v)),
            Err(e) => Err(e),
        }
    }

    /// The latest timestamp (seconds since the Unix epoch) kept under `ticker`.
    pub fn max_time(&self, ticker: String) -> (r: Result<i64, StoreError>)
        requires
            self.wf(),
        ensures
            r == fold_window(self.view(), ticker@, |s: Seq<(i64, i64)>| max_time_of(s)),
    {
        match self.column_of(&ticker, true) {
            Ok(v) => Ok(vec_max(&v)),
            Err(e) => Err(e),
        }
    }

    /// The chart range in whole units for the values under `ticker`: the
    /// least and greatest value, padded and rounded outward. Never of zero
    /// width.
    pub fn axis_bounds(&self, ticker: String) -> (r: Result<(i64, i64), StoreError>)
        requires
            self.wf(),
        ensures
            match nonempty_window(self.view(), ticker@) {
                Ok(s) => r matches Ok(b) && b.0 == axis_of(min_value_of(s) as int, max_value_of(s) as int).0
                    && b.1 == axis_of(min_value_of(s) as int, max_value_of(s) as int).1 && b.0 < b.1,
                Err(e) => r == Err::<(i64, i64), StoreError>(e),
            },
    {
        match self.column_of(&ticker, false) {
            Ok(v) => {
                let lo = vec_min(&v);
                let hi = vec_max(&v);
                proof {
                    lemma_min_le_max(v@);
                }
                Ok(axis_range(lo, hi))
            },
            Err(e) => Err(e),
        }
    }

    /// The keys, ascending; each is listed once.
    pub fn keys_sorted(&self) -> (r: Vec<String>)
        requires
            self.wf(),
        ensures
            r@.map_values(|k: String| k@) == self.keys(),
            strictly_sorted(r@.map_values(|k: String| k@)),
    {
        let mut out: Vec<String> = Vec::new();
        let mut i: usize = 0;
        while i < self.entries.len()
            invariant
                i <= self.entries@.len(),
                self.keys().len() == self.entries@.len(),
                out@.len() == i,
                forall|j: int| 0 <= j < i ==> (#[trigger] out@[j])@ == self.keys()[j],
            decreases self.entries@.len() - i,
        {
            out.push(self.entries[i].0.clone());
            i = i + 1;
        }
        assert(out@.map_values(|k: String| k@) =~= self.keys());
        out
    }

    /// A copy of every key with its samples, keys in ascending order.
    pub fn get_btree_map(&self) -> (r: Vec<(String, Vec<(i64, i64)>)>)
        requires
            self.wf(),
        ensures
            r@.len() == self.keys().len(),
            forall|i: int|
                0 <= i < r@.len() ==> (#[trigger] r@[i]).0@ == self.keys()[i] && r@[i].1@ == self.view()[self.keys()[i]],
    {
        let mut out: Vec<(String, Vec<(i64, i64)>)> = Vec::new();
        let mut i: usize = 0;
        while i < self.entries.len()
            invariant
                self.wf(),
                i <= self.entries@.len(),
                self.keys().len() == self.entries@.len(),
                out@.len() == i,
                forall|j: int|
                    0 <= j < i ==> (#[trigger] out@[j]).0@ == self.keys()[j] && out@[j].1@ == self.view()[self.keys()[j]],
            decreases self.entries@.len() - i,
        {
            proof {
                self.lemma_view_at(i as int);
            }
            let k = self.entries[i].0.clone();
            let v = items_of(&self.entries[i].1);
            out.push((k, v));
            i = i + 1;
        }
        out
    }

    /// Position of `ticker` among the keys, if present.
    fn find(&self, ticker: &String) -> (r: Option<usize>)
        requires
            self.wf(),
        ensures
            r matches Some(i) ==> i < self.keys().len() && self.keys()[i as int] == ticker@,
            r is None ==> !self.keys().contains(ticker@),
    {
        let mut i: usize = 0;
        while i < self.entries.len()
            invariant
                i <= self.entries@.len(),
                self.keys().len() == self.entries@.len(),
                forall|j: int| 0 <= j < i ==> self.keys()[j] != ticker@,
            decreases self.entries@.len() - i,
        {
            if self.entries[i].0 == *ticker {
                return Some(i);
            }
            i = i + 1;
        }
        None
    }
}

/// Pushes `val` at the back of `d` and drops the front sample if `d` then
/// holds more than `max`.
fn push_bounded(d: &mut SliceDeque<(i64, i64)>, val: (i64, i64), max: usize)
    requires
        deque_items(*old(d)).len() <= max,
    ensures
        deque_items(*final(d)) == window(deque_items(*old(d)).push(val), max as nat),
        deque_items(*final(d)).len() <= max,
{
    let ghost s = deque_items(*d).push(val);
    deque_push_back(d, val);
    if deque_len(d) > max {
        let _ = deque_pop_front(d);
        assert(s.drop_first() =~= s.subrange(s.len() - max, s.len() as int));
    }
}

} // verus!
