//! The candle series of a chart session, one per (symbol, timeframe).
use vstd::prelude::*;
use crate::buffer::{merge_result, CandleSeriesBuffer, MergeOutcome};
use crate::candle::Candle;

verus! {

/// A series and the (symbol, timeframe) it belongs to.
#[derive(Debug)]
pub struct SeriesEntry {
    pub symbol: String,
    pub timeframe: String,
    pub buffer: CandleSeriesBuffer,
}

pub open spec fn key_of(e: SeriesEntry) -> (Seq<char>, Seq<char>) {
    (e.symbol@, e.timeframe@)
}

/// No two entries share a key.
pub open spec fn keys_unique(s: Seq<SeriesEntry>) -> bool {
    forall|i: int, j: int| 0 <= i < j < s.len() ==> key_of(#[trigger] s[i]) != key_of(#[trigger] s[j])
}

/// The series of each key that has one.
pub open spec fn series_map(s: Seq<SeriesEntry>) -> Map<(Seq<char>, Seq<char>), Seq<Candle>> {
    Map::new(
        |k: (Seq<char>, Seq<char>)| exists|i: int| 0 <= i < s.len() && key_of(s[i]) == k,
        |k: (Seq<char>, Seq<char>)| s[choose|i: int| 0 <= i < s.len() && key_of(s[i]) == k].buffer@,
    )
}

proof fn lemma_series_at(s: Seq<SeriesEntry>, j: int)
    requires
        keys_unique(s),
        0 <= j < s.len(),
    ensures
        series_map(s).contains_key(key_of(s[j])),
        series_map(s)[key_of(s[j])] == s[j].buffer@,
{
    let k = key_of(s[j]);
    assert(exists|i: int| 0 <= i < s.len() && key_of(s[i]) == k);
    let c = choose|i: int| 0 <= i < s.len() && key_of(s[i]) == k;
    if c != j {
        if c < j {
            assert(key_of(s[c]) != key_of(s[j]));
        } else {
            assert(key_of(s[j]) != key_of(s[c]));
        }
    }
}

/// The session's candle series, each bounded by one capacity.
#[derive(Debug)]
pub struct ChartSession {
    entries: Vec<SeriesEntry>,
    capacity: usize,
}

impl View for ChartSession {
    type V = Map<(Seq<char>, Seq<char>), Seq<Candle>>;

    closed spec fn view(&self) -> Map<(Seq<char>, Seq<char>), Seq<Candle>> {
        series_map(self.entries@)
    }
}

impl ChartSession {
    pub closed spec fn cap(&self) -> nat {
        self.capacity as nat
    }

    pub closed spec fn wf(&self) -> bool {
        &&& keys_unique(self.entries@)
        &&& forall|i: int|
            0 <= i < self.entries@.len() ==> (#[trigger] self.entries@[i]).buffer.wf()
                && self.entries@[i].buffer.cap() == self.capacity
    }

    /// A session with no series, whose series hold at most `capacity`
    /// candles.
    pub fn new(capacity: usize) -> (r: ChartSession)
        ensures
            r.wf(),
            r@ == Map::<(Seq<char>, Seq<char>), Seq<Candle>>::empty(),
            r.cap() == capacity,
    {
        let r = ChartSession { entries: Vec::new(), capacity };
        proof {
            assert(r@ =~= Map::<(Seq<char>, Seq<char>), Seq<Candle>>::empty());
        }
        r
    }

    fn find(&self, symbol: &String, timeframe: &String) -> (r: Option<usize>)
        ensures
            r.is_some() ==> r.unwrap() < self.entries@.len() && key_of(self.entries@[r.unwrap() as int])
                == (symbol@, timeframe@),
            r.is_none() ==> forall|i: int|
                0 <= i < self.entries@.len() ==> key_of(#[trigger] self.entries@[i]) != (symbol@, timeframe@),
    {
        let mut i: usize = 0;
        while i < self.entries.len()
            invariant
                i <= self.entries@.len(),
                forall|j: int| 0 <= j < i ==> key_of(#[trigger] self.entries@[j]) != (symbol@, timeframe@),
            decreases self.entries@.len() - i,
        {
            if self.entries[i].symbol == *symbol && self.entries[i].timeframe == *timeframe {
                return Some(i);
            }
            i = i + 1;
        }
        None
    }

    /// The series of a symbol at a timeframe, if the session has one.
    pub fn series(&self, symbol: &String, timeframe: &String) -> (r: Option<&CandleSeriesBuffer>)
        requires
            self.wf(),
        ensures
            r.is_some() == self@.contains_key((symbol@, timeframe@)),
            r.is_some() ==> r.unwrap()@ == self@[(symbol@, timeframe@)],
            r.is_some() ==> r.unwrap().wf() && r.unwrap().cap() == self.cap(),
    {
        match self.find(symbol, timeframe) {
            Some(i) => {
                proof {
                    lemma_series_at(self.entries@, i as int);
                }
                Some(&self.entries[i].buffer)
            },
            None => None,
        }
    }

    fn find_symbol(&self, symbol: &String) -> (r: Option<usize>)
        ensures
            r.is_some() ==> r.unwrap() < self.entries@.len() && self.entries@[r.unwrap() as int].symbol@ == symbol@,
            r.is_none() ==> forall|i: int| 0 <= i < self.entries@.len() ==> (#[trigger] self.entries@[i]).symbol@ != symbol@,
    {
        let mut i: usize = 0;
        while i < self.entries.len()
            invariant
                i <= self.entries@.len(),
                forall|j: int| 0 <= j < i ==> (#[trigger] self.entries@[j]).symbol@ != symbol@,
            decreases self.entries@.len() - i,
        {
            if self.entries[i].symbol == *symbol {
                return Some(i);
            }
            i = i + 1;
        }
        None
    }

    /// Drops every series of a symbol; the other series stay as they are.
    pub fn remove_symbol(&mut self, symbol: &String)
        requires
            old(self).wf(),
        ensures
            final(self).wf(),
            final(self).cap() == old(self).cap(),
            forall|k: (Seq<char>, Seq<char>)| k.0 == symbol@ ==> !(#[trigger] final(self)@.contains_key(k)),
            forall|k: (Seq<char>, Seq<char>)|
                k.0 != symbol@ ==> (#[trigger] final(self)@.contains_key(k) == old(self)@.contains_key(k)),
            forall|k: (Seq<char>, Seq<char>)|
                #[trigger] final(self)@.contains_key(k) ==> final(self)@[k] == old(self)@[k],
    {
        loop
            invariant
                self.wf(),
                self.cap() == old(self).cap(),
                forall|k: (Seq<char>, Seq<char>)|
                    k.0 != symbol@ ==> (#[trigger] self@.contains_key(k) == old(self)@.contains_key(k)),
                forall|k: (Seq<char>, Seq<char>)|
                    #[trigger] self@.contains_key(k) ==> old(self)@.contains_key(k) && self@[k] == old(self)@[k],
            decreases self.entries@.len(),
        {
            match self.find_symbol(symbol) {
                None => {
                    proof {
                        assert forall|k: (Seq<char>, Seq<char>)| k.0 == symbol@ implies !(#[trigger] self@.contains_key(k)) by {
                            if self@.contains_key(k) {
                                let c = choose|x: int| 0 <= x < self.entries@.len() && key_of(self.entries@[x]) == k;
                                assert(self.entries@[c].symbol@ != symbol@);
                            }
                        }
                    }
                    return;
                },
                Some(i) => {
                    let ghost before = self.entries@;
                    let ghost pre = self@;
                    let ghost gone = key_of(before[i as int]);
                    proof {
                        lemma_series_at(before, i as int);
                    }
                    self.entries.remove(i);
                    proof {
                        let after = self.entries@;
                        assert forall|j: int| 0 <= j < after.len() implies #[trigger] after[j] == before[if j < i {
                            j
                        } else {
                            j + 1
                        }] by {}
                        assert(keys_unique(after)) by {
                            assert forall|a: int, b: int| 0 <= a < b < after.len() implies key_of(#[trigger] after[a])
                                != key_of(#[trigger] after[b]) by {
                                let a0 = if a < i { a } else { a + 1 };
                                let b0 = if b < i { b } else { b + 1 };
                                assert(after[a] == before[a0]);
                                assert(after[b] == before[b0]);
                            }
                        }
                        assert forall|kk| #[trigger] self@.contains_key(kk) <==> (pre.contains_key(kk) && kk != gone) by {
                            if pre.contains_key(kk) && kk != gone {
                                let c = choose|x: int| 0 <= x < before.len() && key_of(before[x]) == kk;
                                assert(c != i);
                                let c1 = if c < i { c } else { c - 1 };
                                assert(after[c1] == before[c]);
                            }
                            if self@.contains_key(kk) {
                                let c = choose|x: int| 0 <= x < after.len() && key_of(after[x]) == kk;
                                let c0 = if c < i { c } else { c + 1 };
                                assert(after[c] == before[c0]);
                                assert(c0 != i);
                                if kk == gone {
                                    if c0 < i {
                                        assert(key_of(before[c0]) != key_of(before[i as int]));
                                    } else {
                                        assert(key_of(before[i as int]) != key_of(before[c0]));
                                    }
                                }
                            }
                        }
                        assert forall|kk| #[trigger] self@.contains_key(kk) implies self@[kk] == pre[kk] by {
                            let c = choose|x: int| 0 <= x < after.len() && key_of(after[x]) == kk;
                            let c0 = if c < i { c } else { c + 1 };
                            assert(after[c] == before[c0]);
                            lemma_series_at(after, c);
                            lemma_series_at(before, c0);
                        }
                    }
                },
            }
        }
    }

    /// Merges a fetched window into the series of a symbol at a timeframe,
    /// starting an empty series for a new pair. Other series stay as they
    /// are. The outcome says whether what was drawn from the series is
    /// stale.
    pub fn merge(&mut self, symbol: &String, timeframe: &String, window: &Vec<Candle>) -> (outcome: MergeOutcome)
        requires
            old(self).wf(),
        ensures
            final(self).wf(),
            final(self).cap() == old(self).cap(),
            final(self)@ == old(self)@.insert(
                (symbol@, timeframe@),
                merge_result(
                    if old(self)@.contains_key((symbol@, timeframe@)) {
                        old(self)@[(symbol@, timeframe@)]
                    } else {
                        Seq::empty()
                    },
                    old(self).cap(),
                    window@,
                ).0,
            ),
            outcome == merge_result(
                if old(self)@.contains_key((symbol@, timeframe@)) {
                    old(self)@[(symbol@, timeframe@)]
                } else {
                    Seq::empty()
                },
                old(self).cap(),
                window@,
            ).1,
    {
        let ghost k = (symbol@, timeframe@);
        let ghost before = self.entries@;
        match self.find(symbol, timeframe) {
            Some(i) => {
                proof {
                    lemma_series_at(before, i as int);
                }
                let mut e = self.entries.remove(i);
                let outcome = e.buffer.merge(window);
                self.entries.insert(i, e);
                proof {
                    let after = self.entries@;
                    assert(after.len() == before.len());
                    assert forall|j: int| 0 <= j < after.len() && j != i implies after[j] == before[j] by {}
                    assert(key_of(after[i as int]) == k);
                    assert(keys_unique(after)) by {
                        assert forall|a: int, b: int| 0 <= a < b < after.len() implies key_of(#[trigger] after[a])
                            != key_of(#[trigger] after[b]) by {
                            assert(key_of(after[a]) == key_of(before[a]));
                            assert(key_of(after[b]) == key_of(before[b]));
                        }
                    }
                    lemma_series_at(after, i as int);
                    assert forall|kk| #[trigger] self@.contains_key(kk) <==> old(self)@.insert(k, after[i as int].buffer@).contains_key(kk) by {
                        if old(self)@.contains_key(kk) {
                            let c = choose|x: int| 0 <= x < before.len() && key_of(before[x]) == kk;
                            assert(key_of(after[c]) == kk);
                        }
                        if self@.contains_key(kk) {
                            let c = choose|x: int| 0 <= x < after.len() && key_of(after[x]) == kk;
                            assert(key_of(before[c]) == kk);
                        }
                    }
                    assert forall|kk| #[trigger] self@.contains_key(kk) implies self@[kk] == old(self)@.insert(k, after[i as int].buffer@)[kk] by {
                        let c = choose|x: int| 0 <= x < after.len() && key_of(after[x]) == kk;
                        lemma_series_at(after, c);
                        if kk != k {
                            lemma_series_at(before, c);
                        }
                    }
                    assert(self@ =~= old(self)@.insert(k, after[i as int].buffer@));
                }
                outcome
            },
            None => {
                let mut buffer = CandleSeriesBuffer::new(self.capacity);
                let outcome = buffer.merge(window);
                self.entries.push(SeriesEntry { symbol: symbol.clone(), timeframe: timeframe.clone(), buffer });
                proof {
                    let after = self.entries@;
                    let n = before.len() as int;
                    assert(!old(self)@.contains_key(k));
                    assert(keys_unique(after)) by {
                        assert forall|a: int, b: int| 0 <= a < b < after.len() implies key_of(#[trigger] after[a])
                            != key_of(#[trigger] after[b]) by {
                            if b < n {
                                assert(after[a] == before[a]);
                                assert(after[b] == before[b]);
                            } else {
                                assert(after[a] == before[a]);
                            }
                        }
                    }
                    lemma_series_at(after, n);
                    assert forall|kk| #[trigger] self@.contains_key(kk) <==> old(self)@.insert(k, after[n].buffer@).contains_key(kk) by {
                        if old(self)@.contains_key(kk) {
                            let c = choose|x: int| 0 <= x < before.len() && key_of(before[x]) == kk;
                            assert(after[c] == before[c]);
                        }
                        if self@.contains_key(kk) && kk != k {
                            let c = choose|x: int| 0 <= x < after.len() && key_of(after[x]) == kk;
                            assert(c < n);
                            assert(after[c] == before[c]);
                        }
                    }
                    assert forall|kk| #[trigger] self@.contains_key(kk) implies self@[kk] == old(self)@.insert(k, after[n].buffer@)[kk] by {
                        let c = choose|x: int| 0 <= x < after.len() && key_of(after[x]) == kk;
                        lemma_series_at(after, c);
                        if kk != k {
                            assert(c < n);
                            assert(after[c] == before[c]);
                            lemma_series_at(before, c);
                        }
                    }
                    assert(self@ =~= old(self)@.insert(k, after[n].buffer@));
                }
                outcome
            },
        }
    }
}

} // verus!
