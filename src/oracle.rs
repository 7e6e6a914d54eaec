//! The timestamp oracle: the single authority that hands out strictly
//! increasing 64-bit timestamps.
use vstd::prelude::*;

verus! {

/// The timestamp issued after `last` when the clock reads `clock`: the clock
/// reading if it is ahead, else one more than `last`.
pub open spec fn next_timestamp(last: int, clock: u64) -> int {
    if clock > last {
        clock as int
    } else {
        last + 1
    }
}

/// The timestamps issued, in order, by an oracle whose last timestamp is
/// `last` when its clock reads `clocks[0]`, `clocks[1]`, ... on successive calls.
pub open spec fn issued(last: int, clocks: Seq<u64>) -> Seq<int>
    decreases clocks.len(),
{
    if clocks.len() == 0 {
        Seq::empty()
    } else {
        let prev = issued(last, clocks.drop_last());
        let before = if prev.len() == 0 {
            last
        } else {
            prev.last()
        };
        prev.push(next_timestamp(before, clocks.last()))
    }
}

/// Every timestamp an oracle issues is strictly greater than the one it
/// issued last and than every one it issued before, whatever its clock reads.
pub proof fn timestamps_strictly_increase(last: int, clocks: Seq<u64>)
    ensures
        issued(last, clocks).len() == clocks.len(),
        forall|i: int| 0 <= i < clocks.len() ==> last < #[trigger] issued(last, clocks)[i],
        forall|i: int, j: int|
            0 <= i < j < clocks.len() ==> #[trigger] issued(last, clocks)[i] < #[trigger] issued(
                last,
                clocks,
            )[j],
    decreases clocks.len(),
{
    if clocks.len() > 0 {
        timestamps_strictly_increase(last, clocks.drop_last());
        let prev = issued(last, clocks.drop_last());
        let n = clocks.len() - 1;
        if n > 0 {
            assert(prev[n - 1] < issued(last, clocks)[n]);
        }
    }
}

/// The oracle's state: the last timestamp it issued (0 before the first).
pub struct TimestampOracle {
    last: u64,
}

impl View for TimestampOracle {
    type V = u64;

    closed spec fn view(&self) -> u64 {
        self.last
    }
}

impl TimestampOracle {
    /// An oracle that has issued nothing yet.
    pub fn new() -> (r: TimestampOracle)
        ensures
            r@ == 0,
    {
        TimestampOracle { last: 0 }
    }

    /// Issues the next timestamp, derived from the clock reading `clock`
    /// (nanoseconds) with a step of at least one over the last one issued.
    /// Once `u64::MAX` has been issued the oracle is spent and returns `None`.
    pub fn get_timestamp(&mut self, clock: u64) -> (r: Option<u64>)
        ensures
            old(self)@ < u64::MAX ==> r == Some(next_timestamp(old(self)@ as int, clock) as u64) && final(self)@
                == next_timestamp(old(self)@ as int, clock),
            old(self)@ == u64::MAX ==> r is None && final(self)@ == old(self)@,
            r matches Some(t) ==> t > old(self)@ && t >= clock,
    {
        if self.last == u64::MAX {
            return None;
        }
        let t = if clock > self.last {
            clock
        } else {
            self.last + 1
        };
        self.last = t;
        Some(t)
    }
}

} // verus!
