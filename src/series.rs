//! A bounded FIFO window of `(timestamp, value)` samples, kept in a
//! `SliceDeque`, and the folds that scan it.
use slice_deque::SliceDeque;
use vstd::prelude::*;

verus! {

#[verifier::external_type_specification]
#[verifier::external_body]
#[verifier::reject_recursive_types(T)]
pub struct ExSliceDeque<T>(SliceDeque<T>);

/// The samples a deque holds, front (oldest) first.
pub uninterp spec fn deque_items(d: SliceDeque<(i64, i64)>) -> Seq<(i64, i64)>;

/// Relies on `SliceDeque::new`: a new deque holds nothing.
#[verifier::external_body]
pub(crate) fn deque_new() -> (r: SliceDeque<(i64, i64)>)
    ensures
        deque_items(r) == Seq::<(i64, i64)>::empty(),
{
    SliceDeque::new()
}

/// Relies on `SliceDeque::push_back`: the value goes to the back. It panics
/// only when memory cannot be allocated.
#[verifier::external_body]
pub(crate) fn deque_push_back(d: &mut SliceDeque<(i64, i64)>, v: (i64, i64))
    ensures
        deque_items(*final(d)) == deque_items(*old(d)).push(v),
{
    d.push_back(v)
}

/// Relies on `SliceDeque::pop_front`: removes and returns the front value,
/// or `None` when empty.
#[verifier::external_body]
pub(crate) fn deque_pop_front(d: &mut SliceDeque<(i64, i64)>) -> (r: Option<(i64, i64)>)
    ensures
        deque_items(*old(d)).len() == 0 ==> r is None && deque_items(*final(d)) == deque_items(*old(d)),
        deque_items(*old(d)).len() > 0 ==> r == Some(deque_items(*old(d))[0])
            && deque_items(*final(d)) == deque_items(*old(d)).drop_first(),
{
    d.pop_front()
}

/// Relies on `SliceDeque::len`: the number of values held.
#[verifier::external_body]
pub(crate) fn deque_len(d: &SliceDeque<(i64, i64)>) -> (r: usize)
    ensures
        r == deque_items(*d).len(),
{
    d.len()
}

/// Relies on indexing the slice that `SliceDeque` derefs to: the value at
/// position `i` from the front.
#[verifier::external_body]
pub(crate) fn deque_get(d: &SliceDeque<(i64, i64)>, i: usize) -> (r: (i64, i64))
    requires
        i < deque_items(*d).len(),
    ensures
        r == deque_items(*d)[i as int],
{
    d[i]
}

/// The last `n` elements of `s`, or all of `s` when it is shorter.
pub open spec fn window<T>(s: Seq<T>, n: nat) -> Seq<T> {
    if s.len() > n {
        s.subrange(s.len() - n, s.len() as int)
    } else {
        s
    }
}

/// The timestamps of a run of samples.
pub open spec fn times(s: Seq<(i64, i64)>) -> Seq<i64> {
    s.map_values(|p: (i64, i64)| p.0)
}

/// The values of a run of samples.
pub open spec fn values(s: Seq<(i64, i64)>) -> Seq<i64> {
    s.map_values(|p: (i64, i64)| p.1)
}

/// The least element of a non-empty sequence.
pub open spec fn seq_min(s: Seq<i64>) -> i64
    decreases s.len(),
{
    if s.len() <= 1 {
        s[0]
    } else {
        let m = seq_min(s.drop_last());
        if s.last() < m {
            s.last()
        } else {
            m
        }
    }
}

/// The greatest element of a non-empty sequence.
pub open spec fn seq_max(s: Seq<i64>) -> i64
    decreases s.len(),
{
    if s.len() <= 1 {
        s[0]
    } else {
        let m = seq_max(s.drop_last());
        if s.last() > m {
            s.last()
        } else {
            m
        }
    }
}

/// The least element is at most the greatest one.
pub proof fn lemma_min_le_max(s: Seq<i64>)
    requires
        s.len() > 0,
    ensures
        seq_min(s) <= seq_max(s),
    decreases s.len(),
{
    if s.len() > 1 {
        lemma_min_le_max(s.drop_last());
    }
}

/// In a strictly increasing sequence the least element is the first and the
/// greatest is the last.
pub proof fn lemma_increasing_extremes(s: Seq<i64>)
    requires
        s.len() > 0,
        forall|i: int, j: int| 0 <= i < j < s.len() ==> s[i] < s[j],
    ensures
        seq_min(s) == s[0],
        seq_max(s) == s.last(),
    decreases s.len(),
{
    if s.len() > 1 {
        let t = s.drop_last();
        lemma_increasing_extremes(t);
        assert(s[0] < s.last());
        if t.len() > 1 {
            assert(t.last() < s.last());
        }
    }
}

/// Copies one column of the deque: timestamps when `use_time`, else values.
pub(crate) fn column(d: &SliceDeque<(i64, i64)>, use_time: bool) -> (r: Vec<i64>)
    ensures
        r@ == (if use_time { times(deque_items(*d)) } else { values(deque_items(*d)) }),
{
    let n = deque_len(d);
    let mut out: Vec<i64> = Vec::new();
    let mut i: usize = 0;
    while i < n
        invariant
            n == deque_items(*d).len(),
            i <= n,
            out@.len() == i,
            forall|j: int|
                0 <= j < i ==> out@[j] == (if use_time {
                    deque_items(*d)[j].0
                } else {
                    deque_items(*d)[j].1
                }),
        decreases n - i,
    {
        let p = deque_get(d, i);
        if use_time {
            out.push(p.0);
        } else {
            out.push(p.1);
        }
        i = i + 1;
    }
    if use_time {
        assert(out@ =~= times(deque_items(*d)));
    } else {
        assert(out@ =~= values(deque_items(*d)));
    }
    out
}

/// Copies the samples of the deque, front first.
pub(crate) fn items_of(d: &SliceDeque<(i64, i64)>) -> (r: Vec<(i64, i64)>)
    ensures
        r@ == deque_items(*d),
{
    let n = deque_len(d);
    let mut out: Vec<(i64, i64)> = Vec::new();
    let mut i: usize = 0;
    while i < n
        invariant
            n == deque_items(*d).len(),
            i <= n,
            out@ == deque_items(*d).subrange(0, i as int),
        decreases n - i,
    {
        out.push(deque_get(d, i));
        i = i + 1;
        assert(out@ =~= deque_items(*d).subrange(0, i as int));
    }
    assert(out@ =~= deque_items(*d));
    out
}

/// The least element of a non-empty vector.
pub(crate) fn vec_min(v: &Vec<i64>) -> (r: i64)
    requires
        v@.len() > 0,
    ensures
        r == seq_min(v@),
{
    let mut acc = v[0];
    let mut i: usize = 1;
    while i < v.len()
        invariant
            1 <= i <= v@.len(),
            acc == seq_min(v@.subrange(0, i as int)),
        decreases v@.len() - i,
    {
        assert(v@.subrange(0, i + 1).drop_last() =~= v@.subrange(0, i as int));
        if v[i] < acc {
            acc = v[i];
        }
        i = i + 1;
    }
    assert(v@.subrange(0, v@.len() as int) =~= v@);
    acc
}

/// The greatest element of a non-empty vector.
pub(crate) fn vec_max(v: &Vec<i64>) -> (r: i64)
    requires
        v@.len() > 0,
    ensures
        r == seq_max(v@),
{
    let mut acc = v[0];
    let mut i: usize = 1;
    while i < v.len()
        invariant
            1 <= i <= v@.len(),
            acc == seq_max(v@.subrange(0, i as int)),
        decreases v@.len() - i,
    {
        assert(v@.subrange(0, i + 1).drop_last() =~= v@.subrange(0, i as int));
        if v[i] > acc {
            acc = v[i];
        }
        i = i + 1;
    }
    assert(v@.subrange(0, v@.len() as int) =~= v@);
    acc
}

} // verus!
