//! Block and hop scheduling: which spectral frames a call has to run, where
//! each one reads its input and where it places its output.
//!
//! A call hands the engine some input frames and asks for some output frames;
//! the two counts are independent. Synthesis runs once every hop interval of
//! output. The block analysed for a synthesis step ends at the input position
//! that corresponds to the step's output position under the call's ratio of
//! input to output frames.

use vstd::prelude::*;
use vstd::arithmetic::div_mod::lemma_fundamental_div_mod;
use vstd::arithmetic::div_mod::lemma_mod_bound;
use crate::ratio::lemma_scaled_bounded;
use crate::ratio::lemma_scaled_monotonic;
use crate::ratio::scale_round;
use crate::ratio::scaled;

verus! {

/// `value`, or the largest `usize` where `value` is larger.
pub open spec fn capped(value: int) -> int {
    if value > usize::MAX {
        usize::MAX as int
    } else {
        value
    }
}

/// Number of synthesis steps that fall inside `output_frames` frames when the
/// first is due after `first` frames and one follows every `hop` frames.
pub open spec fn steps_due(first: int, hop: int, output_frames: int) -> int {
    if output_frames > first {
        (output_frames - first - 1) / hop + 1
    } else {
        0
    }
}

/// Every due step starts inside the output, and the one after the last due
/// step does not.
pub proof fn lemma_steps_due_bounds(first: int, hop: int, output_frames: int)
    requires
        0 <= first,
        0 < hop,
        0 <= output_frames,
    ensures
        0 <= steps_due(first, hop, output_frames),
        steps_due(first, hop, output_frames) > 0 <==> output_frames > first,
        first + steps_due(first, hop, output_frames) * hop >= output_frames,
        steps_due(first, hop, output_frames) > 0 ==> first + (steps_due(
            first,
            hop,
            output_frames,
        ) - 1) * hop < output_frames,
{
    if output_frames > first {
        let x = output_frames - first - 1;
        let q = x / hop;
        lemma_fundamental_div_mod(x, hop);
        lemma_mod_bound(x, hop);
        assert(x == hop * q + x % hop);
        assert(0 <= q) by (nonlinear_arith)
            requires
                0 <= x,
                0 < hop,
                x == hop * q + x % hop,
                0 <= x % hop < hop,
        ;
        assert((q + 1) * hop == hop * q + hop) by (nonlinear_arith);
        assert((q + 1 - 1) * hop == hop * q) by (nonlinear_arith);
    } else {
        assert(0 * hop == 0);
    }
}

/// One spectral frame that a call has to run.
#[derive(Clone, Copy, Debug, PartialEq, Eq, Structural)]
pub struct Step {
    /// Output frame, counted from the start of the call's output, at which the
    /// synthesized block begins.
    pub output_offset: usize,
    /// Input frame, counted from the start of the call's input, before which
    /// the analysed block ends. The block reaches back one block length from
    /// here, into earlier input where it has to.
    pub input_end: usize,
    /// Input frames between this analysis position and the one before it.
    pub advance: usize,
    /// Whether the step starts from fresh phase state: it is the first after
    /// construction, a reset, a seek or a flush.
    pub reprimed: bool,
}

impl Step {
    /// Whether the step has to analyse a new spectrum: always after the phase
    /// state was primed anew, and otherwise whenever the analysis position
    /// moved.
    pub open spec fn is_fresh(self) -> bool {
        self.reprimed || self.advance > 0
    }

    /// Divisor of the step's time factor: the advance, but at least one.
    pub open spec fn time_divisor(self) -> int {
        if self.advance > 1 {
            self.advance as int
        } else {
            1
        }
    }

    /// Whether the step has to analyse a new spectrum.
    pub fn fresh(&self) -> (yes: bool)
        ensures
            yes == self.is_fresh(),
    {
        self.reprimed || self.advance > 0
    }

    /// The step's time factor as a fraction: output frames per input frame
    /// over this step. The numerator is the hop interval, the denominator the
    /// advance, with a floor of one.
    pub fn time_factor(&self, hop_interval: usize) -> (factor: (usize, usize))
        ensures
            factor.0 == hop_interval,
            factor.1 == self.time_divisor(),
    {
        if self.advance > 1 {
            (hop_interval, self.advance)
        } else {
            (hop_interval, 1)
        }
    }
}

/// What one `process` call has to do, as numbers: the frame counts it was
/// called with and the spectral frames to run.
#[derive(Clone, Copy, Debug, PartialEq, Eq)]
pub struct Plan {
    /// Input frames handed in with the call.
    pub input_frames: usize,
    /// Output frames asked for by the call.
    pub output_frames: usize,
    /// Block length of the engine.
    pub block_length: usize,
    /// Hop interval of the engine.
    pub hop_interval: usize,
    /// Output offset of the first step.
    pub first_offset: usize,
    /// Number of steps.
    pub step_count: usize,
    /// Input frames that earlier calls took in after the last analysis
    /// position.
    pub carried: usize,
    /// Advance taken for granted at the first step where the phase state is
    /// fresh, `None` where it is not.
    pub primed: Option<usize>,
}

impl Plan {
    /// The hop fits the block and the step count is the number of steps due.
    pub open spec fn wf(self) -> bool {
        &&& 0 < self.hop_interval <= self.block_length
        &&& self.step_count == steps_due(
            self.first_offset as int,
            self.hop_interval as int,
            self.output_frames as int,
        )
    }

    /// Output offset of step `k`.
    pub open spec fn offset(self, k: int) -> int {
        self.first_offset + k * self.hop_interval
    }

    /// Input position at which the block of step `k` ends: the output offset
    /// scaled by the call's ratio of input to output frames.
    pub open spec fn input_end(self, k: int) -> int {
        scaled(self.offset(k), self.input_frames as int, self.output_frames as int)
    }

    /// Input frames between the analysis position of step `k` and the one
    /// before it. The first step of a call measures from the last position of
    /// earlier calls, unless the phase state is fresh: then the primed advance
    /// stands in.
    pub open spec fn advance(self, k: int) -> int {
        if k > 0 {
            self.input_end(k) - self.input_end(k - 1)
        } else {
            match self.primed {
                Some(assumed) => assumed as int,
                None => capped(self.carried + self.input_end(0)),
            }
        }
    }

    /// Step `k` of the plan.
    pub open spec fn step(self, k: int) -> Step {
        Step {
            output_offset: self.offset(k) as usize,
            input_end: self.input_end(k) as usize,
            advance: self.advance(k) as usize,
            reprimed: k == 0 && self.primed is Some,
        }
    }

    /// Sum of the advances of the first `n` steps.
    pub open spec fn total_advance(self, n: int) -> int
        decreases n,
    {
        if n <= 0 {
            0
        } else {
            self.total_advance(n - 1) + self.advance(n - 1)
        }
    }

    /// Step `k` as plain numbers.
    pub fn step_at(&self, k: usize) -> (step: Step)
        requires
            self.wf(),
            k < self.step_count,
        ensures
            step == self.step(k as int),
            step.output_offset == self.offset(k as int),
            step.input_end == self.input_end(k as int),
            step.advance == self.advance(k as int),
            step.output_offset < self.output_frames,
            step.input_end <= self.input_frames,
    {
        proof {
            lemma_steps_due_bounds(
                self.first_offset as int,
                self.hop_interval as int,
                self.output_frames as int,
            );
            assert(k * self.hop_interval <= (self.step_count - 1) * self.hop_interval)
                by (nonlinear_arith)
                requires
                    k <= self.step_count - 1,
                    0 < self.hop_interval,
            ;
            assert((k - 1) * self.hop_interval == k * self.hop_interval - self.hop_interval)
                by (nonlinear_arith);
        }
        let offset: usize = self.first_offset + k * self.hop_interval;
        proof {
            lemma_scaled_bounded(offset as int, self.input_frames as int, self.output_frames as int);
        }
        let end: usize = scale_round(offset, self.input_frames, self.output_frames);
        let reprimed: bool = k == 0 && self.primed.is_some();
        let advance: usize = if k > 0 {
            let before: usize = offset - self.hop_interval;
            proof {
                lemma_scaled_bounded(
                    before as int,
                    self.input_frames as int,
                    self.output_frames as int,
                );
                lemma_scaled_monotonic(
                    before as int,
                    offset as int,
                    self.input_frames as int,
                    self.output_frames as int,
                );
            }
            end - scale_round(before, self.input_frames, self.output_frames)
        } else {
            match self.primed {
                Some(assumed) => assumed,
                None => self.carried.saturating_add(end),
            }
        };
        Step { output_offset: offset, input_end: end, advance, reprimed }
    }
}

} // verus!
