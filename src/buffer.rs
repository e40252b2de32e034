//! A bounded, ordered window of the most recent candles of one series, and
//! the merge of freshly fetched windows into it.
use vstd::prelude::*;
use std::collections::VecDeque;
use crate::candle::Candle;

verus! {

/// Open times rise strictly along the sequence.
pub open spec fn ordered(s: Seq<Candle>) -> bool {
    forall|i: int, j: int| 0 <= i < j < s.len() ==> #[trigger] s[i].open_time < #[trigger] s[j].open_time
}

/// The last `n` items of `s` (all of them where it has fewer).
pub open spec fn last_n(s: Seq<Candle>, n: nat) -> Seq<Candle> {
    if s.len() <= n {
        s
    } else {
        s.subrange(s.len() - n, s.len() as int)
    }
}

/// What a merge did to the buffer.
#[derive(Clone, Copy, Debug, PartialEq, Eq, Structural)]
pub enum MergeOutcome {
    /// The fetched window was empty; nothing changed.
    Unchanged,
    /// The buffer was empty and took the window's most recent candles.
    Replaced,
    /// The window's last candle is the buffer's last period, refreshed.
    TailRefreshed,
    /// The window's last candle opened a new period and was appended.
    Appended,
    /// As `Appended`, and the oldest candle left to keep within capacity.
    AppendedEvicting,
    /// The window was out of order, or older than the buffer's last candle;
    /// the buffer was left as it was.
    Rejected,
}

impl MergeOutcome {
    /// Whether the buffer's contents changed, so that what was drawn from it
    /// is stale.
    pub fn changed(&self) -> (r: bool)
        ensures
            r == !(*self == MergeOutcome::Unchanged || *self == MergeOutcome::Rejected),
    {
        match self {
            MergeOutcome::Unchanged | MergeOutcome::Rejected => false,
            _ => true,
        }
    }
}

/// The buffer after merging `window` into `old` at capacity `cap`, and what
/// the merge did.
pub open spec fn merge_result(old: Seq<Candle>, cap: nat, window: Seq<Candle>) -> (Seq<Candle>, MergeOutcome) {
    if window.len() == 0 {
        (old, MergeOutcome::Unchanged)
    } else if old.len() == 0 {
        if ordered(window) {
            (last_n(window, cap), MergeOutcome::Replaced)
        } else {
            (old, MergeOutcome::Rejected)
        }
    } else if old.last().open_time == window.last().open_time {
        (old.drop_last().push(window.last()), MergeOutcome::TailRefreshed)
    } else if old.last().open_time < window.last().open_time {
        let pushed = old.push(window.last());
        if pushed.len() > cap {
            (pushed.drop_first(), MergeOutcome::AppendedEvicting)
        } else {
            (pushed, MergeOutcome::Appended)
        }
    } else {
        (old, MergeOutcome::Rejected)
    }
}

/// The candles of one (symbol, timeframe) series, oldest first, at most
/// `capacity` of them.
#[derive(Debug)]
pub struct CandleSeriesBuffer {
    candles: VecDeque<Candle>,
    capacity: usize,
}

impl View for CandleSeriesBuffer {
    type V = Seq<Candle>;

    closed spec fn view(&self) -> Seq<Candle> {
        self.candles@
    }
}

impl CandleSeriesBuffer {
    pub closed spec fn cap(&self) -> nat {
        self.capacity as nat
    }

    /// Ordered by open time, and within capacity.
    pub open spec fn wf(&self) -> bool {
        ordered(self@) && self@.len() <= self.cap()
    }

    /// An empty buffer for at most `capacity` candles.
    pub fn new(capacity: usize) -> (b: CandleSeriesBuffer)
        ensures
            b@ == Seq::<Candle>::empty(),
            b.cap() == capacity,
            b.wf(),
    {
        CandleSeriesBuffer { candles: VecDeque::new(), capacity }
    }

    pub fn capacity(&self) -> (r: usize)
        ensures
            r == self.cap(),
    {
        self.capacity
    }

    pub fn len(&self) -> (r: usize)
        ensures
            r == self@.len(),
    {
        self.candles.len()
    }

    /// The candles, oldest first, copied out for drawing.
    pub fn candles(&self) -> (r: Vec<Candle>)
        ensures
            r@ == self@,
    {
        let mut r: Vec<Candle> = Vec::new();
        let mut i: usize = 0;
        while i < self.candles.len()
            invariant
                i <= self.candles@.len(),
                r@ == self.candles@.take(i as int),
            decreases self.candles@.len() - i,
        {
            r.push(self.candles[i]);
            proof {
                assert(r@ =~= self.candles@.take(i + 1));
            }
            i = i + 1;
        }
        proof {
            assert(self.candles@.take(self.candles@.len() as int) =~= self.candles@);
        }
        r
    }

    /// Merges a freshly fetched window (its candles oldest first): an empty
    /// buffer takes the window's most recent candles, up to capacity; a
    /// window ending in the buffer's last period refreshes that candle; one
    /// ending in a later period appends its last candle, evicting the oldest
    /// beyond capacity. An empty window changes nothing, and one that is out
    /// of order or ends before the buffer's last candle is rejected.
    pub fn merge(&mut self, window: &Vec<Candle>) -> (outcome: MergeOutcome)
        requires
            old(self).wf(),
        ensures
            final(self).wf(),
            final(self).cap() == old(self).cap(),
            (final(self)@, outcome) == merge_result(old(self)@, old(self).cap(), window@),
    {
        let n = window.len();
        if n == 0 {
            return MergeOutcome::Unchanged;
        }
        let incoming = window[n - 1];
        let len = self.candles.len();
        if len == 0 {
            if !is_ordered(window) {
                return MergeOutcome::Rejected;
            }
            let from: usize = if n > self.capacity {
                n - self.capacity
            } else {
                0
            };
            let mut fresh: VecDeque<Candle> = VecDeque::new();
            let mut i: usize = from;
            while i < n
                invariant
                    from <= i <= n == window@.len(),
                    fresh@ == window@.subrange(from as int, i as int),
                decreases n - i,
            {
                fresh.push_back(window[i]);
                proof {
                    assert(fresh@ =~= window@.subrange(from as int, i + 1));
                }
                i = i + 1;
            }
            proof {
                assert(window@.subrange(0, n as int) == window@);
                assert(fresh@ == last_n(window@, self.capacity as nat));
                assert forall|a: int, b: int| 0 <= a < b < fresh@.len() implies #[trigger] fresh@[a].open_time
                    < #[trigger] fresh@[b].open_time by {
                    assert(fresh@[a] == window@[from + a]);
                    assert(fresh@[b] == window@[from + b]);
                }
            }
            self.candles = fresh;
            return MergeOutcome::Replaced;
        }
        let last = self.candles[len - 1];
        if last.open_time == incoming.open_time {
            self.candles.pop_back();
            self.candles.push_back(incoming);
            proof {
                assert(self.candles@ == old(self)@.drop_last().push(incoming));
                assert forall|a: int, b: int| 0 <= a < b < self.candles@.len() implies #[trigger] self.candles@[a].open_time
                    < #[trigger] self.candles@[b].open_time by {
                    assert(old(self)@[a].open_time < old(self)@[b].open_time);
                }
            }
            MergeOutcome::TailRefreshed
        } else if last.open_time < incoming.open_time {
            self.candles.push_back(incoming);
            proof {
                assert forall|a: int, b: int| 0 <= a < b < self.candles@.len() implies #[trigger] self.candles@[a].open_time
                    < #[trigger] self.candles@[b].open_time by {
                    if b == len {
                        if a < len - 1 {
                            assert(old(self)@[a].open_time < old(self)@[len - 1].open_time);
                        }
                    } else {
                        assert(old(self)@[a].open_time < old(self)@[b].open_time);
                    }
                }
            }
            if self.candles.len() > self.capacity {
                let ghost pushed = self.candles@;
                self.candles.pop_front();
                proof {
                    assert(self.candles@ == pushed.drop_first());
                    assert forall|a: int, b: int| 0 <= a < b < self.candles@.len() implies #[trigger] self.candles@[a].open_time
                        < #[trigger] self.candles@[b].open_time by {
                        assert(pushed[a + 1].open_time < pushed[b + 1].open_time);
                    }
                }
                MergeOutcome::AppendedEvicting
            } else {
                MergeOutcome::Appended
            }
        } else {
            MergeOutcome::Rejected
        }
    }
}

/// Whether open times rise strictly along `s`.
pub fn is_ordered(s: &Vec<Candle>) -> (r: bool)
    ensures
        r == ordered(s@),
{
    let mut i: usize = 1;
    if s.len() == 0 {
        return true;
    }
    while i < s.len()
        invariant
            1 <= i <= s@.len(),
            ordered(s@.take(i as int)),
        decreases s@.len() - i,
    {
        if s[i - 1].open_time >= s[i].open_time {
            proof {
                assert(!ordered(s@)) by {
                    let a = i - 1;
                    let b = i as int;
                    assert(s@[a].open_time >= s@[b].open_time);
                }
            }
            return false;
        }
        proof {
            let t = s@.take(i + 1);
            assert forall|a: int, b: int| 0 <= a < b < t.len() implies #[trigger] t[a].open_time
                < #[trigger] t[b].open_time by {
                if b == i {
                    if a < i - 1 {
                        assert(s@.take(i as int)[a].open_time < s@.take(i as int)[i - 1].open_time);
                    }
                } else {
                    assert(s@.take(i as int)[a].open_time < s@.take(i as int)[b].open_time);
                }
            }
        }
        i = i + 1;
    }
    proof {
        assert(s@.take(s@.len() as int) == s@);
    }
    true
}


/// Merging the same window a second time leaves the buffer as the first
/// merge left it.
pub proof fn lemma_merge_idempotent(old: Seq<Candle>, cap: nat, window: Seq<Candle>)
    requires
        ordered(old),
        old.len() <= cap,
    ensures
        merge_result(merge_result(old, cap, window).0, cap, window).0 == merge_result(old, cap, window).0,
{
    let once = merge_result(old, cap, window).0;
    if window.len() > 0 && once.len() > 0 {
        if old.len() == 0 {
            if ordered(window) {
                assert(once.last() == window.last());
            }
        }
        if once.last() == window.last() {
            assert(once.drop_last().push(window.last()) =~= once);
        }
    }
}

/// The buffer after merging one-candle windows, one per candle of `cs` in
/// order, into an empty buffer of capacity `cap`.
pub open spec fn merge_each(cap: nat, cs: Seq<Candle>) -> Seq<Candle>
    decreases cs.len(),
{
    if cs.len() == 0 {
        Seq::empty()
    } else {
        merge_result(merge_each(cap, cs.drop_last()), cap, seq![cs.last()]).0
    }
}

/// Pushing candles of rising open times one at a time into a buffer of
/// capacity `cap` leaves the last `cap` of them: after more than `cap`
/// pushes the buffer is full and starts at the push `cap` before the end.
pub proof fn lemma_sliding_window(cap: nat, cs: Seq<Candle>)
    requires
        cap >= 1,
        ordered(cs),
    ensures
        merge_each(cap, cs) == last_n(cs, cap),
        cs.len() > cap ==> merge_each(cap, cs).len() == cap,
        cs.len() > cap ==> merge_each(cap, cs)[0].open_time == cs[cs.len() - cap].open_time,
    decreases cs.len(),
{
    if cs.len() > 0 {
        let rest = cs.drop_last();
        assert(ordered(rest)) by {
            assert forall|a: int, b: int| 0 <= a < b < rest.len() implies #[trigger] rest[a].open_time
                < #[trigger] rest[b].open_time by {
                assert(cs[a].open_time < cs[b].open_time);
            }
        }
        lemma_sliding_window(cap, rest);
        let before = merge_each(cap, rest);
        let w = seq![cs.last()];
        if rest.len() == 0 {
            assert(before.len() == 0);
            assert(ordered(w));
            assert(last_n(w, cap) =~= cs);
        } else {
            assert(before.last() == rest.last());
            assert(before.last().open_time < cs.last().open_time) by {
                assert(cs[rest.len() - 1].open_time < cs[cs.len() - 1].open_time);
            }
            let pushed = before.push(cs.last());
            if pushed.len() > cap {
                assert(pushed.drop_first() =~= last_n(cs, cap));
            } else {
                assert(pushed =~= last_n(cs, cap));
            }
        }
    }
}

} // verus!
