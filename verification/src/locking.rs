//! Phase locking: which bin, and which channel, the others take their phase
//! reference from.
//!
//! Bins that belong to one transient are locked to a shared reference. Where
//! several candidates are in reach, the one with the largest magnitude is the
//! reference; among equally strong ones, the first. Magnitudes are compared as
//! unsigned levels, larger meaning stronger.

use vstd::prelude::*;
use crate::grid::PhaseGrid;

verus! {

/// Whether `at` is the strongest of `levels[from..to]`, and the first of those
/// that are as strong.
pub open spec fn is_strongest(levels: Seq<u32>, from: int, to: int, at: int) -> bool {
    &&& from <= at < to
    &&& forall|i: int| from <= i < to ==> levels[i] <= levels[at]
    &&& forall|i: int| from <= i < at ==> levels[i] < levels[at]
}

/// First bin within `reach` of `bin`.
pub open spec fn reach_from(bin: int, reach: int) -> int {
    if bin > reach {
        bin - reach
    } else {
        0
    }
}

/// One past the last bin within `reach` of `bin`, among `bin_count` bins.
pub open spec fn reach_to(bin: int, reach: int, bin_count: int) -> int {
    if bin + reach + 1 < bin_count {
        bin + reach + 1
    } else {
        bin_count
    }
}

/// The levels of one bin across the channels.
pub open spec fn across_channels(levels: Seq<Seq<u32>>, bin: int) -> Seq<u32> {
    Seq::new(levels.len(), |c: int| levels[c][bin])
}

/// A range has one strongest item only.
pub proof fn lemma_strongest_is_unique(levels: Seq<u32>, from: int, to: int, one: int, other: int)
    requires
        is_strongest(levels, from, to, one),
        is_strongest(levels, from, to, other),
    ensures
        one == other,
{
    assert(levels[one] <= levels[other]);
    assert(levels[other] <= levels[one]);
    if one < other {
        assert(levels[one] < levels[other]);
    } else if other < one {
        assert(levels[other] < levels[one]);
    }
}

/// A bin that is stronger than every other within reach is its own reference.
pub proof fn lemma_peak_is_its_own_reference(levels: Seq<u32>, bin: int, reach: int, at: int)
    requires
        0 <= bin < levels.len(),
        0 <= reach,
        is_strongest(levels, reach_from(bin, reach), reach_to(bin, reach, levels.len() as int), at),
        forall|i: int|
            reach_from(bin, reach) <= i < reach_to(bin, reach, levels.len() as int) && i != bin
                ==> levels[i] < levels[bin],
    ensures
        at == bin,
{
    assert(levels[bin] <= levels[at]);
    if at != bin {
        assert(levels[at] < levels[bin]);
    }
}

/// The bins within `reach` of `bin` on either side, as a half-open range that
/// stays inside the spectrum.
pub fn neighbourhood(bin: usize, reach: usize, bin_count: usize) -> (range: (usize, usize))
    requires
        bin < bin_count,
    ensures
        range.0 == reach_from(bin as int, reach as int),
        range.1 == reach_to(bin as int, reach as int, bin_count as int),
        range.0 <= bin < range.1 <= bin_count,
{
    let from: usize = if bin > reach {
        bin - reach
    } else {
        0
    };
    let to: usize = if reach < bin_count - bin - 1 {
        bin + reach + 1
    } else {
        bin_count
    };
    (from, to)
}

/// The first strongest of `levels[from..to]` in a row of the grid.
fn strongest_in_row(levels: &PhaseGrid<u32>, channel: usize, from: usize, to: usize) -> (at: usize)
    requires
        levels.wf(),
        channel < levels.channels(),
        from < to <= levels.bins(),
    ensures
        is_strongest(levels@[channel as int], from as int, to as int, at as int),
{
    let mut at: usize = from;
    let mut best: u32 = levels.get(channel, from);
    let mut i: usize = from + 1;
    while i < to
        invariant
            levels.wf(),
            channel < levels.channels(),
            from < i <= to <= levels.bins(),
            best == levels@[channel as int][at as int],
            is_strongest(levels@[channel as int], from as int, i as int, at as int),
        decreases to - i,
    {
        let level: u32 = levels.get(channel, i);
        if level > best {
            at = i;
            best = level;
        }
        i = i + 1;
    }
    at
}

/// The bin that bin `bin` of channel `channel` is locked to: the strongest
/// within `reach` bins on either side, and the first of those that are as
/// strong.
pub fn lock_reference(levels: &PhaseGrid<u32>, channel: usize, bin: usize, reach: usize) -> (at:
    usize)
    requires
        levels.wf(),
        channel < levels.channels(),
        bin < levels.bins(),
    ensures
        is_strongest(
            levels@[channel as int],
            reach_from(bin as int, reach as int),
            reach_to(bin as int, reach as int, levels.bins()),
            at as int,
        ),
        levels@[channel as int][at as int] >= levels@[channel as int][bin as int],
{
    let (from, to) = neighbourhood(bin, reach, levels.bin_count());
    strongest_in_row(levels, channel, from, to)
}

/// The channel that the others take their reference from at bin `bin`: the
/// one that is strongest there, and the first of those that are as strong.
pub fn lead_channel(levels: &PhaseGrid<u32>, bin: usize) -> (channel: usize)
    requires
        levels.wf(),
        0 < levels.channels(),
        bin < levels.bins(),
    ensures
        is_strongest(
            across_channels(levels@, bin as int),
            0,
            levels.channels(),
            channel as int,
        ),
{
    proof {
        levels.lemma_view_has_shape();
    }
    let channel_count: usize = levels.channel_count();
    let mut lead: usize = 0;
    let mut best: u32 = levels.get(0, bin);
    let mut c: usize = 1;
    while c < channel_count
        invariant
            levels.wf(),
            bin < levels.bins(),
            channel_count == levels.channels(),
            levels@.len() == channel_count,
            0 < c <= channel_count,
            best == levels@[lead as int][bin as int],
            is_strongest(across_channels(levels@, bin as int), 0, c as int, lead as int),
        decreases channel_count - c,
    {
        let level: u32 = levels.get(c, bin);
        if level > best {
            lead = c;
            best = level;
        }
        c = c + 1;
    }
    lead
}

} // verus!
