use vstd::prelude::*;

verus! {

/// Number of timeline ticks in one line of the grid. A line item's sub-line
/// delay (0..=255) places it at `line * TICKS_PER_LINE + delay`.
pub const TICKS_PER_LINE: u64 = 256;

/// Upper bound on tick positions the engine accepts. Keeping every tick below
/// this bound lets `line * TICKS_PER_LINE + delay` stay inside `u64`.
pub const TICK_LIMIT: u64 = 0x4000_0000_0000_0000;

/// A half-open interval of timeline ticks `[start, end)`.
///
/// The per-block playback window is such an interval. A window with
/// `start >= end` marks a block that crosses the loop boundary (or, when
/// `start == end`, a stopped transport).
#[derive(Clone, Copy, Debug, PartialEq, Eq, Structural)]
pub struct TickRange {
    pub start: u64,
    pub end: u64,
}

impl TickRange {
    /// Whether tick `t` lies inside the half-open interval.
    pub open spec fn spec_contains(self, t: int) -> bool {
        self.start <= t < self.end
    }

    pub fn contains(&self, t: u64) -> (r: bool)
        ensures
            r == self.spec_contains(t as int),
    {
        self.start <= t && t < self.end
    }

    /// A range that covers no tick at all.
    pub open spec fn spec_is_empty(self) -> bool {
        self.end <= self.start
    }
}

/// The tick ranges a block's playback window covers, in processing order.
///
/// A window with `start < end` covers the single range `[start, end)`. A
/// window with `start >= end` crosses the loop boundary and is split into
/// `[start, loop_range.end)` followed by `[loop_range.start, end)`.
pub open spec fn ranges_of(play: TickRange, loop_range: TickRange) -> Seq<TickRange> {
    if play.start < play.end {
        seq![play]
    } else {
        seq![
            TickRange { start: play.start, end: loop_range.end },
            TickRange { start: loop_range.start, end: play.end },
        ]
    }
}

/// On a wrapped window (`start >= end`) the two generated sub-ranges
/// partition the covered ticks exactly: together they cover precisely
/// `[start, loop_range.end)` and `[loop_range.start, end)`, and no tick
/// falls in both sub-ranges, so nothing at the loop boundary is
/// double-counted or skipped.
pub proof fn lemma_wrap_ranges_partition(play: TickRange, loop_range: TickRange)
    requires
        play.end <= play.start,
    ensures
        ranges_of(play, loop_range).len() == 2,
        forall|t: int|
            ranges_of(play, loop_range)[0].spec_contains(t) <==> play.start <= t
                < loop_range.end,
        forall|t: int|
            ranges_of(play, loop_range)[1].spec_contains(t) <==> loop_range.start <= t
                < play.end,
        forall|t: int|
            !(ranges_of(play, loop_range)[0].spec_contains(t) && ranges_of(play, loop_range)[1].spec_contains(t)),
{
}

} // verus!
