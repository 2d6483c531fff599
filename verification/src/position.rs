//! Where an engine stands between two calls, and how each call moves it.
//!
//! Everything the scheduler remembers is a handful of frame counts. The
//! functions here say, as mathematics, what a call returns and what it leaves
//! behind; the engine's methods are proved to compute exactly that.

use vstd::prelude::*;
use crate::config::EngineConfig;
use crate::ratio::scaled;
use crate::ratio::scaled_capped;
use crate::schedule::capped;
use crate::schedule::steps_due;
use crate::schedule::Plan;

verus! {

/// Which frames of a pre-roll buffer a seek keeps.
#[derive(Clone, Copy, Debug, PartialEq, Eq, Structural)]
pub struct SeekPlan {
    /// Leading frames that are too old to reach any later analysis block.
    pub skipped: usize,
    /// Trailing frames that become the input history.
    pub kept: usize,
}

/// How a flush fills its output buffer from the synthesized tail.
#[derive(Clone, Copy, Debug, PartialEq, Eq, Structural)]
pub struct FlushPlan {
    /// Leading output frames that take the tail as it stands.
    pub plain: usize,
    /// Tail frames beyond the buffer that are folded back, time-reversed,
    /// onto its last frames.
    pub folded: usize,
    /// Trailing output frames that the tail does not reach: silence.
    pub silent: usize,
}

/// The scheduler's state between two calls.
#[derive(Clone, Copy, Debug, PartialEq, Eq)]
pub struct Position {
    /// The engine's fixed configuration.
    pub config: EngineConfig,
    /// Output frames still to emit before the next synthesis step is due.
    pub until_next: usize,
    /// Input frames taken in since the last analysis position.
    pub since_analysis: usize,
    /// `Some` while the phase state is fresh; holds the advance that the next
    /// step takes for granted.
    pub primed: Option<usize>,
    /// Synthesized frames that were not emitted yet.
    pub pending: usize,
}

impl Position {
    /// The configuration is valid, a step is due within one hop, and the tail
    /// is no longer than a block.
    pub open spec fn valid(self) -> bool {
        &&& self.config.valid()
        &&& self.until_next < self.config.hop_interval
        &&& self.pending <= self.config.block_length
    }

    /// The state of a new engine: a step is due at once, nothing was taken in
    /// or synthesized, and the first step assumes an advance of one hop.
    pub open spec fn initial(config: EngineConfig) -> Position {
        Position {
            config,
            until_next: 0,
            since_analysis: 0,
            primed: Some(config.hop_interval),
            pending: 0,
        }
    }

    /// Number of steps that a call for `output_frames` runs.
    pub open spec fn steps(self, output_frames: int) -> int {
        steps_due(self.until_next as int, self.config.hop_interval as int, output_frames)
    }

    /// Output offset of the last step of a call that runs at least one.
    pub open spec fn last_offset(self, output_frames: int) -> int {
        self.until_next + (self.steps(output_frames) - 1) * self.config.hop_interval
    }

    /// The plan that `process` returns.
    pub open spec fn plan(self, input_frames: int, output_frames: int) -> Plan {
        Plan {
            input_frames: input_frames as usize,
            output_frames: output_frames as usize,
            block_length: self.config.block_length,
            hop_interval: self.config.hop_interval,
            first_offset: self.until_next,
            step_count: self.steps(output_frames) as usize,
            carried: self.since_analysis,
            primed: self.primed,
        }
    }

    /// The state that `process` leaves behind.
    ///
    /// Where the call runs a step, the next one is due one hop after the last,
    /// the input taken in since then is what lies behind its analysis
    /// position, the phase state is no longer fresh, and the tail is what the
    /// last block reaches beyond the output. Where it runs none, the counts
    /// just move on by the frames of the call.
    pub open spec fn after_process(self, input_frames: int, output_frames: int) -> Position {
        if self.steps(output_frames) > 0 {
            let last = self.last_offset(output_frames);
            Position {
                config: self.config,
                until_next: (last + self.config.hop_interval - output_frames) as usize,
                since_analysis: (input_frames - scaled(last, input_frames, output_frames)) as usize,
                primed: None,
                pending: (last + self.config.block_length - output_frames) as usize,
            }
        } else {
            Position {
                config: self.config,
                until_next: (self.until_next - output_frames) as usize,
                since_analysis: capped(self.since_analysis + input_frames) as usize,
                primed: self.primed,
                pending: if self.pending > output_frames {
                    (self.pending - output_frames) as usize
                } else {
                    0
                },
            }
        }
    }

    /// The frames of a pre-roll of `input_frames` that `seek` keeps: the last
    /// block length of them, or all where there are fewer.
    pub open spec fn seek_plan(self, input_frames: int) -> SeekPlan {
        if input_frames > self.config.block_length {
            SeekPlan {
                skipped: (input_frames - self.config.block_length) as usize,
                kept: self.config.block_length,
            }
        } else {
            SeekPlan { skipped: 0, kept: input_frames as usize }
        }
    }

    /// The state that `seek` leaves behind: the analysis position is the end
    /// of the pre-roll, and the next step is primed with the advance of one
    /// hop at the playback rate `rate_num / rate_den`. The output side does
    /// not move.
    pub open spec fn after_seek(self, rate_num: int, rate_den: int) -> Position {
        Position {
            config: self.config,
            until_next: self.until_next,
            since_analysis: 0,
            primed: Some(
                scaled_capped(self.config.hop_interval as int, rate_num, rate_den) as usize,
            ),
            pending: self.pending,
        }
    }

    /// Number of tail frames that a flush into `output_frames` drains.
    pub open spec fn drained(self, output_frames: int) -> int {
        if self.pending <= 2 * output_frames {
            self.pending as int
        } else {
            2 * output_frames
        }
    }

    /// How `flush` fills a buffer of `output_frames`.
    pub open spec fn flush_plan(self, output_frames: int) -> FlushPlan {
        let plain = if self.pending < output_frames {
            self.pending as int
        } else {
            output_frames
        };
        FlushPlan {
            plain: plain as usize,
            folded: (self.drained(output_frames) - plain) as usize,
            silent: (output_frames - plain) as usize,
        }
    }

    /// The state that `flush` leaves behind: what was drained is gone from the
    /// tail, and input starts from zero again with fresh phase state.
    pub open spec fn after_flush(self, output_frames: int) -> Position {
        Position {
            config: self.config,
            until_next: 0,
            since_analysis: 0,
            primed: Some(self.config.hop_interval),
            pending: (self.pending - self.drained(output_frames)) as usize,
        }
    }
}

} // verus!
