//! The engine's scheduler: construction, latency queries and the three
//! data-plane calls, each reduced to the frame counts it decides.

use vstd::prelude::*;
use crate::config::cheaper_block_length;
use crate::config::cheaper_hop_interval;
use crate::config::default_block_length;
use crate::config::default_hop_interval;
use crate::config::input_latency_of;
use crate::config::output_latency_of;
use crate::config::EngineConfig;
use crate::frames::frames_of;
use crate::frames::whole_frames;
use crate::position::FlushPlan;
use crate::position::Position;
use crate::position::SeekPlan;
use crate::ratio::lemma_scaled_bounded;
use crate::ratio::scale_round;
use crate::schedule::lemma_steps_due_bounds;
use crate::schedule::Plan;

verus! {

/// Provides the scheduling for time stretching and pitch shifting of audio.
///
/// The value keeps the engine's configuration and its position between calls.
/// Each data-plane call takes the lengths of the interleaved buffers that the
/// caller holds and returns what has to be done with them.
pub struct Stretch {
    at: Position,
}

impl View for Stretch {
    type V = Position;

    closed spec fn view(&self) -> Position {
        self.at
    }
}

impl Stretch {
    /// The invariant of every engine: its position is valid.
    pub open spec fn wf(&self) -> bool {
        self@.valid()
    }

    /// A new engine for a valid configuration.
    pub fn with_config(config: EngineConfig) -> (engine: Stretch)
        requires
            config.valid(),
        ensures
            engine.wf(),
            engine@ == Position::initial(config),
    {
        Stretch {
            at: Position {
                config,
                until_next: 0,
                since_analysis: 0,
                primed: Some(config.hop_interval),
                pending: 0,
            },
        }
    }

    /// Creates a new instance with the given block length and hop interval.
    pub fn new(channel_count: u32, block_length: usize, interval: usize) -> (engine: Stretch)
        requires
            channel_count > 0,
            0 < interval <= block_length,
        ensures
            engine.wf(),
            engine@ == Position::initial(
                EngineConfig {
                    channel_count: channel_count as usize,
                    block_length,
                    hop_interval: interval,
                },
            ),
    {
        Stretch::with_config(
            EngineConfig {
                channel_count: channel_count as usize,
                block_length,
                hop_interval: interval,
            },
        )
    }

    /// Creates a new instance with the default block and hop for the sample
    /// rate.
    pub fn preset_default(channel_count: u32, sample_rate: u32) -> (engine: Stretch)
        requires
            channel_count > 0,
            sample_rate >= 34,
        ensures
            engine.wf(),
            engine@ == Position::initial(
                EngineConfig {
                    channel_count: channel_count as usize,
                    block_length: default_block_length(sample_rate as int) as usize,
                    hop_interval: default_hop_interval(sample_rate as int) as usize,
                },
            ),
    {
        Stretch::with_config(EngineConfig::preset_default(channel_count, sample_rate).unwrap())
    }

    /// Creates a new instance with the block and hop for the sample rate that
    /// cost less to compute.
    pub fn preset_cheaper(channel_count: u32, sample_rate: u32) -> (engine: Stretch)
        requires
            channel_count > 0,
            sample_rate >= 25,
        ensures
            engine.wf(),
            engine@ == Position::initial(
                EngineConfig {
                    channel_count: channel_count as usize,
                    block_length: cheaper_block_length(sample_rate as int) as usize,
                    hop_interval: cheaper_hop_interval(sample_rate as int) as usize,
                },
            ),
    {
        Stretch::with_config(EngineConfig::preset_cheaper(channel_count, sample_rate).unwrap())
    }

    /// Resets the instance to the state it was constructed in.
    pub fn reset(&mut self)
        requires
            old(self).wf(),
        ensures
            final(self).wf(),
            final(self)@ == Position::initial(old(self)@.config),
    {
        self.at.until_next = 0;
        self.at.since_analysis = 0;
        self.at.primed = Some(self.at.config.hop_interval);
        self.at.pending = 0;
    }

    /// The engine's configuration.
    pub fn config(&self) -> (config: EngineConfig)
        ensures
            config == self@.config,
    {
        self.at.config
    }

    /// The engine's position.
    pub fn position(&self) -> (at: Position)
        ensures
            at == self@,
    {
        self.at
    }

    /// The input latency, in frames: the delay between samples passed to
    /// `process` and the centre of the block that analyses them.
    pub fn input_latency(&self) -> (frames: usize)
        ensures
            frames == input_latency_of(self@.config.block_length as int),
    {
        self.at.config.input_latency()
    }

    /// The output latency, in frames: the delay between the centre of a
    /// synthesized block and the output that `process` generates from it.
    pub fn output_latency(&self) -> (frames: usize)
        ensures
            frames == output_latency_of(self@.config.block_length as int),
    {
        self.at.config.output_latency()
    }

    /// Adds input to the stream and asks for output. `input_len` and
    /// `output_len` are the lengths of the two interleaved buffers; they may
    /// differ, which stretches time.
    ///
    /// Returns the spectral frames to run for this call and moves the position
    /// past the call's frames.
    pub fn process(&mut self, input_len: usize, output_len: usize) -> (plan: Plan)
        requires
            old(self).wf(),
            whole_frames(input_len as int, old(self)@.config.channel_count as int),
            whole_frames(output_len as int, old(self)@.config.channel_count as int),
        ensures
            final(self).wf(),
            plan.wf(),
            plan == old(self)@.plan(
                frames_of(input_len as int, old(self)@.config.channel_count as int),
                frames_of(output_len as int, old(self)@.config.channel_count as int),
            ),
            final(self)@ == old(self)@.after_process(
                frames_of(input_len as int, old(self)@.config.channel_count as int),
                frames_of(output_len as int, old(self)@.config.channel_count as int),
            ),
    {
        let channels: usize = self.at.config.channel_count;
        let hop: usize = self.at.config.hop_interval;
        let block: usize = self.at.config.block_length;
        let input_frames: usize = input_len / channels;
        let output_frames: usize = output_len / channels;
        let first: usize = self.at.until_next;
        proof {
            lemma_steps_due_bounds(first as int, hop as int, output_frames as int);
        }
        let step_count: usize = if output_frames > first {
            (output_frames - first - 1) / hop + 1
        } else {
            0
        };
        let plan = Plan {
            input_frames,
            output_frames,
            block_length: block,
            hop_interval: hop,
            first_offset: first,
            step_count,
            carried: self.at.since_analysis,
            primed: self.at.primed,
        };
        if step_count > 0 {
            let last: usize = first + (step_count - 1) * hop;
            let short: usize = output_frames - last;
            proof {
                lemma_scaled_bounded(last as int, input_frames as int, output_frames as int);
                assert(step_count * hop == (step_count - 1) * hop + hop) by (nonlinear_arith);
            }
            let end: usize = scale_round(last, input_frames, output_frames);
            self.at.until_next = hop - short;
            self.at.since_analysis = input_frames - end;
            self.at.primed = None;
            self.at.pending = block - short;
        } else {
            self.at.until_next = first - output_frames;
            self.at.since_analysis = self.at.since_analysis.saturating_add(input_frames);
            self.at.pending = if self.at.pending > output_frames {
                self.at.pending - output_frames
            } else {
                0
            };
        }
        plan
    }

    /// Takes a pre-roll buffer of `input_len` interleaved samples as the input
    /// that came before, played at the rate `rate_num / rate_den`, without
    /// moving the output.
    ///
    /// Returns which frames of the buffer become the input history.
    pub fn seek(&mut self, input_len: usize, rate_num: u32, rate_den: u32) -> (plan: SeekPlan)
        requires
            old(self).wf(),
            whole_frames(input_len as int, old(self)@.config.channel_count as int),
            rate_den > 0,
        ensures
            final(self).wf(),
            plan == old(self)@.seek_plan(
                frames_of(input_len as int, old(self)@.config.channel_count as int),
            ),
            final(self)@ == old(self)@.after_seek(rate_num as int, rate_den as int),
    {
        let input_frames: usize = input_len / self.at.config.channel_count;
        let block: usize = self.at.config.block_length;
        let assumed: usize = scale_round(
            self.at.config.hop_interval,
            rate_num as usize,
            rate_den as usize,
        );
        self.at.since_analysis = 0;
        self.at.primed = Some(assumed);
        if input_frames > block {
            SeekPlan { skipped: input_frames - block, kept: block }
        } else {
            SeekPlan { skipped: 0, kept: input_frames }
        }
    }

    /// Drains the synthesized tail into an output buffer of `output_len`
    /// interleaved samples, with no further input.
    ///
    /// Returns how the buffer is filled.
    pub fn flush(&mut self, output_len: usize) -> (plan: FlushPlan)
        requires
            old(self).wf(),
            whole_frames(output_len as int, old(self)@.config.channel_count as int),
        ensures
            final(self).wf(),
            plan == old(self)@.flush_plan(
                frames_of(output_len as int, old(self)@.config.channel_count as int),
            ),
            final(self)@ == old(self)@.after_flush(
                frames_of(output_len as int, old(self)@.config.channel_count as int),
            ),
    {
        let output_frames: usize = output_len / self.at.config.channel_count;
        let pending: usize = self.at.pending;
        let plain: usize = if pending < output_frames {
            pending
        } else {
            output_frames
        };
        let beyond: usize = pending - plain;
        let folded: usize = if beyond < output_frames {
            beyond
        } else {
            output_frames
        };
        self.at.until_next = 0;
        self.at.since_analysis = 0;
        self.at.primed = Some(self.at.config.hop_interval);
        self.at.pending = beyond - folded;
        FlushPlan { plain, folded, silent: output_frames - plain }
    }
}

} // verus!
