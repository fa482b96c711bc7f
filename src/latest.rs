//! The latest quote per requested ticker.
use crate::quote::Quote;
use vstd::prelude::*;

verus! {

/// The most recent successful quote for each ticker, keys unique.
pub struct LatestQuotes {
    entries: Vec<(String, Quote)>,
}

impl LatestQuotes {
    /// The keys, in the order they were first seen.
    pub closed spec fn keys(&self) -> Seq<Seq<char>> {
        self.entries@.map_values(|e: (String, Quote)| e.0@)
    }

    /// No ticker is held twice.
    pub open spec fn wf(&self) -> bool {
        forall|i: int, j: int| 0 <= i < j < self.keys().len() ==> #[trigger] self.keys()[i] != #[trigger] self.keys()[j]
    }

    spec fn index_of(&self, k: Seq<char>) -> int {
        choose|i: int| 0 <= i < self.keys().len() && self.keys()[i] == k
    }

    /// The quote held for each ticker.
    pub closed spec fn view(&self) -> Map<Seq<char>, Quote> {
        Map::new(|k: Seq<char>| self.keys().contains(k), |k: Seq<char>| self.entries@[self.index_of(k)].1)
    }

    proof fn lemma_view_at(&self, i: int)
        requires
            self.wf(),
            0 <= i < self.keys().len(),
        ensures
            self.view().contains_key(self.keys()[i]),
            self.view()[self.keys()[i]] == self.entries@[i].1,
    {
        let k = self.keys()[i];
        assert(self.keys().contains(k));
        let j = self.index_of(k);
        if j < i {
            assert(self.keys()[j] != self.keys()[i]);
        } else if j > i {
            assert(self.keys()[i] != self.keys()[j]);
        }
    }

    /// Holds no quote.
    pub fn new() -> (r: LatestQuotes)
        ensures
            r.wf(),
            r.view() == Map::<Seq<char>, Quote>::empty(),
    {
        let r = LatestQuotes { entries: Vec::new() };
        assert(r.view() =~= Map::<Seq<char>, Quote>::empty());
        r
    }

    /// Position of `ticker` among the keys, if present.
    fn find(&self, ticker: &String) -> (r: Option<usize>)
        ensures
            r matches Some(i) ==> i < self.keys().len() && self.keys()[i as int] == ticker@,
            r is None ==> !self.keys().contains(ticker@),
    {
        let mut i: usize = 0;
        while i < self.entries.len()
            invariant
                i <= self.entries@.len(),
                self.keys().len() == self.entries@.len(),
                forall|j: int| 0 <= j < i ==> self.keys()[j] != ticker@,
            decreases self.entries@.len() - i,
        {
            if self.entries[i].0 == *ticker {
                return Some(i);
            }
            i = i + 1;
        }
        None
    }

    /// The quote held for `ticker`, if any.
    pub fn get(&self, ticker: &String) -> (r: Option<&Quote>)
        requires
            self.wf(),
        ensures
            r is Some <==> self.view().contains_key(ticker@),
            r matches Some(q) ==> *q == self.view()[ticker@],
    {
        match self.find(ticker) {
            Some(i) => {
                proof {
                    self.lemma_view_at(i as int);
                }
                Some(&self.entries[i].1)
            },
            None => None,
        }
    }

    /// Holds `q` as the quote for `ticker`, replacing any earlier one.
    pub fn insert(&mut self, ticker: String, q: Quote)
        requires
            old(self).wf(),
        ensures
            final(self).wf(),
            final(self).view() == old(self).view().insert(ticker@, q),
    {
        let ghost t = ticker@;
        let ghost old_keys = self.keys();
        let ghost target = self.view().insert(t, q);
        match self.find(&ticker) {
            Some(i) => {
                let _ = self.entries.remove(i);
                self.entries.insert(i, (ticker, q));
                proof {
                    assert(self.keys() =~= old_keys);
                    assert forall|k: Seq<char>| #[trigger] self.view().contains_key(k) implies self.view()[k] == target[k] by {
                        let j = choose|j: int| 0 <= j < self.keys().len() && self.keys()[j] == k;
                        self.lemma_view_at(j);
                        if j != i {
                            old(self).lemma_view_at(j);
                            assert(self.keys()[j] != self.keys()[i as int]);
                        }
                    }
                    assert forall|k: Seq<char>| self.view().contains_key(k) <==> #[trigger] target.contains_key(k) by {
                        if k == t {
                            assert(self.keys()[i as int] == k);
                        }
                    }
                    assert(self.view() =~= target);
                }
            },
            None => {
                self.entries.push((ticker, q));
                proof {
                    let n = old_keys.len() as int;
                    assert(self.keys() =~= old_keys.push(t));
                    assert forall|k: Seq<char>| #[trigger] self.view().contains_key(k) implies self.view()[k] == target[k] by {
                        let j = choose|j: int| 0 <= j < self.keys().len() && self.keys()[j] == k;
                        self.lemma_view_at(j);
                        if j != n {
                            old(self).lemma_view_at(j);
                        }
                    }
                    assert forall|k: Seq<char>| self.view().contains_key(k) <==> #[trigger] target.contains_key(k) by {
                        if k == t {
                            assert(self.keys()[n] == k);
                        } else if old_keys.contains(k) {
                            let j = choose|j: int| 0 <= j < old_keys.len() && old_keys[j] == k;
                            assert(self.keys()[j] == k);
                        }
                    }
                    assert(self.view() =~= target);
                }
            },
        }
    }

    /// Every ticker with its quote, in the order tickers were first seen.
    pub fn entries(&self) -> (r: &Vec<(String, Quote)>)
        requires
            self.wf(),
        ensures
            r@.len() == self.keys().len(),
            forall|i: int|
                0 <= i < r@.len() ==> (#[trigger] r@[i]).0@ == self.keys()[i] && r@[i].1 == self.view()[self.keys()[i]],
    {
        proof {
            assert forall|i: int| 0 <= i < self.entries@.len() implies (#[trigger] self.entries@[i]).0@ == self.keys()[i]
                && self.entries@[i].1 == self.view()[self.keys()[i]] by {
                self.lemma_view_at(i);
            }
        }
        &self.entries
    }
}

} // verus!
