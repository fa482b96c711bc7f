//! One poll: fetch outcomes in, history and latest quotes updated.
//!
//! A successful fetch first turns the quote held from the previous tick into
//! a history sample, then replaces it; a failed fetch changes nothing and is
//! handed back for reporting.
use crate::latest::LatestQuotes;
use crate::quote::{chartable, Quote, QuoteError};
use crate::series::window;
use crate::store::{appended, series_or_empty, SortedBTreeMap};
use vstd::prelude::*;

verus! {

/// History after one fetch outcome for ticker `t`.
pub open spec fn step_history(
    h: Map<Seq<char>, Seq<(i64, i64)>>,
    l: Map<Seq<char>, Quote>,
    t: Seq<char>,
    out: Result<Quote, QuoteError>,
    n: nat,
) -> Map<Seq<char>, Seq<(i64, i64)>> {
    match out {
        Ok(_) => if l.contains_key(t) {
            appended(h, t, chartable(l[t]), n)
        } else {
            h
        },
        Err(_) => h,
    }
}

/// Latest quotes after one fetch outcome for ticker `t`.
pub open spec fn step_latest(l: Map<Seq<char>, Quote>, t: Seq<char>, out: Result<Quote, QuoteError>) -> Map<Seq<char>, Quote> {
    match out {
        Ok(q) => l.insert(t, q),
        Err(_) => l,
    }
}

/// History and latest quotes after the outcomes `outs` for tickers `ts`,
/// taken in order.
pub open spec fn poll(
    h: Map<Seq<char>, Seq<(i64, i64)>>,
    l: Map<Seq<char>, Quote>,
    ts: Seq<Seq<char>>,
    outs: Seq<Result<Quote, QuoteError>>,
    n: nat,
) -> (Map<Seq<char>, Seq<(i64, i64)>>, Map<Seq<char>, Quote>)
    decreases ts.len(),
{
    if ts.len() == 0 {
        (h, l)
    } else {
        let k = ts.len() - 1;
        let prev = poll(h, l, ts.subrange(0, k), outs.subrange(0, k), n);
        (step_history(prev.0, prev.1, ts[k], outs[k], n), step_latest(prev.1, ts[k], outs[k]))
    }
}

/// The failed fetches among `outs`, with their tickers, in order.
pub open spec fn failures(ts: Seq<Seq<char>>, outs: Seq<Result<Quote, QuoteError>>) -> Seq<(Seq<char>, QuoteError)>
    decreases ts.len(),
{
    if ts.len() == 0 {
        Seq::empty()
    } else {
        let k = ts.len() - 1;
        let prev = failures(ts.subrange(0, k), outs.subrange(0, k));
        match outs[k] {
            Ok(_) => prev,
            Err(e) => prev.push((ts[k], e)),
        }
    }
}

/// The first successful fetch of a ticker adds no history; the second adds
/// exactly one sample, made from the first quote (the price one tick behind),
/// and leaves the second as the latest.
pub proof fn lemma_one_tick_behind(
    h: Map<Seq<char>, Seq<(i64, i64)>>,
    l: Map<Seq<char>, Quote>,
    t: Seq<char>,
    q1: Quote,
    q2: Quote,
    n: nat,
)
    requires
        !l.contains_key(t),
    ensures
        ({
            let first = poll(h, l, seq![t], seq![Ok::<Quote, QuoteError>(q1)], n);
            let second = poll(first.0, first.1, seq![t], seq![Ok::<Quote, QuoteError>(q2)], n);
            &&& first.0 == h
            &&& first.1[t] == q1
            &&& second.0 == appended(h, t, (q1.timestamp, q1.price_raw), n)
            &&& second.1[t] == q2
            &&& (!h.contains_key(t) && n > 0 ==> second.0[t] == seq![(q1.timestamp, q1.price_raw)])
        }),
{
    let ts = seq![t];
    let o1 = seq![Ok::<Quote, QuoteError>(q1)];
    let o2 = seq![Ok::<Quote, QuoteError>(q2)];
    assert(ts.subrange(0, 0) =~= Seq::<Seq<char>>::empty());
    assert(o1.subrange(0, 0) =~= Seq::<Result<Quote, QuoteError>>::empty());
    assert(o2.subrange(0, 0) =~= Seq::<Result<Quote, QuoteError>>::empty());
    let first = poll(h, l, ts, o1, n);
    assert(poll(h, l, ts.subrange(0, 0), o1.subrange(0, 0), n) == (h, l));
    assert(first == (h, l.insert(t, q1)));
    assert(poll(first.0, first.1, ts.subrange(0, 0), o2.subrange(0, 0), n) == first);
    assert(first.1.contains_key(t));
    if !h.contains_key(t) && n > 0 {
        let s = series_or_empty(h, t).push((q1.timestamp, q1.price_raw));
        assert(s =~= seq![(q1.timestamp, q1.price_raw)]);
        assert(window(s, n) == s);
    }
}

/// A poll over tickers not including `t` changes neither the history nor the
/// latest quote of `t`.
pub proof fn lemma_other_tickers_untouched(
    h: Map<Seq<char>, Seq<(i64, i64)>>,
    l: Map<Seq<char>, Quote>,
    ts: Seq<Seq<char>>,
    outs: Seq<Result<Quote, QuoteError>>,
    n: nat,
    t: Seq<char>,
)
    requires
        ts.len() == outs.len(),
        !ts.contains(t),
    ensures
        poll(h, l, ts, outs, n).0.contains_key(t) == h.contains_key(t),
        series_or_empty(poll(h, l, ts, outs, n).0, t) == series_or_empty(h, t),
        poll(h, l, ts, outs, n).1.contains_key(t) == l.contains_key(t),
        l.contains_key(t) ==> poll(h, l, ts, outs, n).1[t] == l[t],
    decreases ts.len(),
{
    if ts.len() > 0 {
        let k = ts.len() - 1;
        let p = ts.subrange(0, k);
        assert(!p.contains(t)) by {
            if p.contains(t) {
                let j = choose|j: int| 0 <= j < p.len() && p[j] == t;
                assert(ts[j] == t);
            }
        }
        assert(ts[k] != t);
        lemma_other_tickers_untouched(h, l, p, outs.subrange(0, k), n, t);
    }
}

/// In a poll over distinct tickers, each successful fetch updates its own
/// ticker exactly as if it had been polled alone, whatever failed elsewhere:
/// its quote becomes the latest, and its history gains the sample of the
/// quote held before the poll, if any.
pub proof fn lemma_failure_isolated(
    h: Map<Seq<char>, Seq<(i64, i64)>>,
    l: Map<Seq<char>, Quote>,
    ts: Seq<Seq<char>>,
    outs: Seq<Result<Quote, QuoteError>>,
    n: nat,
    j: int,
)
    requires
        ts.len() == outs.len(),
        ts.no_duplicates(),
        0 <= j < ts.len(),
        outs[j] is Ok,
    ensures
        poll(h, l, ts, outs, n).1[ts[j]] == outs[j]->Ok_0,
        series_or_empty(poll(h, l, ts, outs, n).0, ts[j]) == series_or_empty(step_history(h, l, ts[j], outs[j], n), ts[j]),
        poll(h, l, ts, outs, n).0.contains_key(ts[j]) == step_history(h, l, ts[j], outs[j], n).contains_key(ts[j]),
    decreases ts.len(),
{
    let k = ts.len() - 1;
    let p = ts.subrange(0, k);
    let po = outs.subrange(0, k);
    let t = ts[j];
    if j == k {
        assert(!p.contains(t)) by {
            if p.contains(t) {
                let i = choose|i: int| 0 <= i < p.len() && p[i] == t;
                assert(ts[i] == ts[k]);
            }
        }
        lemma_other_tickers_untouched(h, l, p, po, n, t);
    } else {
        assert(p.no_duplicates());
        assert(p[j] == t);
        lemma_failure_isolated(h, l, p, po, n, j);
        assert(ts[k] != t);
    }
}

/// Takes in one fetch outcome for `ticker`; gives back the error of a failed
/// fetch.
pub fn record_fetch(
    history: &mut SortedBTreeMap,
    latest: &mut LatestQuotes,
    ticker: &String,
    outcome: Result<Quote, QuoteError>,
) -> (r: Option<QuoteError>)
    requires
        old(history).wf(),
        old(latest).wf(),
    ensures
        final(history).wf(),
        final(latest).wf(),
        final(history).capacity() == old(history).capacity(),
        final(history).view() == step_history(old(history).view(), old(latest).view(), ticker@, outcome, old(history).capacity()),
        final(latest).view() == step_latest(old(latest).view(), ticker@, outcome),
        r == (match outcome {
            Ok(_) => None,
            Err(e) => Some(e),
        }),
{
    match outcome {
        Ok(q) => {
            match latest.get(ticker) {
                Some(prev) => {
                    let sample = prev.to_chartable();
                    history.insert(ticker.clone(), sample);
                },
                None => {},
            }
            latest.insert(ticker.clone(), q);
            None
        },
        Err(e) => Some(e),
    }
}

/// Takes in the outcomes of one poll, `outcomes[i]` being that of
/// `tickers[i]`, in order. Gives back each failed ticker with its error, for
/// reporting; a failure never stops the others.
pub fn apply_fetches(
    history: &mut SortedBTreeMap,
    latest: &mut LatestQuotes,
    tickers: &Vec<String>,
    outcomes: Vec<Result<Quote, QuoteError>>,
) -> (r: Vec<(String, QuoteError)>)
    requires
        old(history).wf(),
        old(latest).wf(),
        tickers@.len() == outcomes@.len(),
    ensures
        final(history).wf(),
        final(latest).wf(),
        final(history).capacity() == old(history).capacity(),
        (final(history).view(), final(latest).view()) == poll(
            old(history).view(),
            old(latest).view(),
            tickers@.map_values(|s: String| s@),
            outcomes@,
            old(history).capacity(),
        ),
        r@.map_values(|p: (String, QuoteError)| (p.0@, p.1)) == failures(tickers@.map_values(|s: String| s@), outcomes@),
{
    let ghost ts = tickers@.map_values(|s: String| s@);
    let ghost outs = outcomes@;
    let ghost h0 = history.view();
    let ghost l0 = latest.view();
    let ghost n = history.capacity();
    let mut rest = outcomes;
    let mut errors: Vec<(String, QuoteError)> = Vec::new();
    let mut i: usize = 0;
    while i < tickers.len()
        invariant
            history.wf(),
            latest.wf(),
            history.capacity() == n,
            ts == tickers@.map_values(|s: String| s@),
            ts.len() == outs.len(),
            i <= ts.len(),
            rest@ == outs.skip(i as int),
            (history.view(), latest.view()) == poll(h0, l0, ts.subrange(0, i as int), outs.subrange(0, i as int), n),
            errors@.map_values(|p: (String, QuoteError)| (p.0@, p.1)) == failures(ts.subrange(0, i as int), outs.subrange(0, i as int)),
        decreases ts.len() - i,
    {
        let outcome = rest.remove(0);
        let ghost before = errors@.map_values(|p: (String, QuoteError)| (p.0@, p.1));
        match record_fetch(history, latest, &tickers[i], outcome) {
            Some(e) => {
                errors.push((tickers[i].clone(), e));
            },
            None => {},
        }
        proof {
            let j = i + 1;
            assert(ts.subrange(0, j as int).subrange(0, i as int) =~= ts.subrange(0, i as int));
            assert(outs.subrange(0, j as int).subrange(0, i as int) =~= outs.subrange(0, i as int));
            assert(rest@ =~= outs.skip(j as int));
            assert(errors@.map_values(|p: (String, QuoteError)| (p.0@, p.1)) =~= failures(ts.subrange(0, j as int), outs.subrange(0, j as int)));
        }
        i = i + 1;
    }
    proof {
        assert(ts.subrange(0, ts.len() as int) =~= ts);
        assert(outs.subrange(0, outs.len() as int) =~= outs);
    }
    errors
}

} // verus!
