//! The configuration that is fixed for the lifetime of an engine, the presets
//! that derive it from a sample rate, and the latencies that follow from it.

use vstd::prelude::*;

verus! {

/// Channel count, analysis block length and hop interval of one engine.
#[derive(Clone, Copy, Debug, PartialEq, Eq, Structural)]
pub struct EngineConfig {
    /// Number of interleaved channels in every buffer.
    pub channel_count: usize,
    /// Length of the analysis window, in frames.
    pub block_length: usize,
    /// Number of frames between two successive spectral frames.
    pub hop_interval: usize,
}

/// Block length of the default preset: 120 ms of audio.
pub open spec fn default_block_length(sample_rate: int) -> int {
    sample_rate * 12 / 100
}

/// Hop interval of the default preset: 30 ms of audio, a quarter of its block.
pub open spec fn default_hop_interval(sample_rate: int) -> int {
    sample_rate * 3 / 100
}

/// Block length of the cheaper preset: 100 ms of audio.
pub open spec fn cheaper_block_length(sample_rate: int) -> int {
    sample_rate / 10
}

/// Hop interval of the cheaper preset: 40 ms of audio.
pub open spec fn cheaper_hop_interval(sample_rate: int) -> int {
    sample_rate / 25
}

/// Frames between a sample entering the engine and the centre of the block
/// that analyses it.
pub open spec fn input_latency_of(block_length: int) -> int {
    block_length / 2
}

/// Frames between the centre of a synthesized block and the last frame that
/// the block contributes to.
pub open spec fn output_latency_of(block_length: int) -> int {
    block_length - block_length / 2
}

/// Number of frequency bins that a real block of `block_length` frames has.
pub open spec fn bin_count_of(block_length: int) -> int {
    block_length / 2 + 1
}

impl EngineConfig {
    /// At least one channel, and a hop that is positive and no longer than the
    /// block.
    pub open spec fn valid(self) -> bool {
        &&& self.channel_count > 0
        &&& 0 < self.hop_interval
        &&& self.hop_interval <= self.block_length
    }

    /// The configuration with exactly the given numbers, or `None` where they
    /// break a rule of `valid`.
    pub fn new(channel_count: u32, block_length: usize, interval: usize) -> (made: Option<
        EngineConfig,
    >)
        ensures
            made is Some <==> channel_count > 0 && 0 < interval <= block_length,
            made is Some ==> made->0 == (EngineConfig {
                channel_count: channel_count as usize,
                block_length,
                hop_interval: interval,
            }),
            made is Some ==> made->0.valid(),
    {
        if channel_count == 0 || interval == 0 || interval > block_length {
            None
        } else {
            Some(
                EngineConfig {
                    channel_count: channel_count as usize,
                    block_length,
                    hop_interval: interval,
                },
            )
        }
    }

    /// The default preset for a sample rate, or `None` where there is no
    /// channel or the rate is too low to give a hop of one frame.
    pub fn preset_default(channel_count: u32, sample_rate: u32) -> (made: Option<EngineConfig>)
        ensures
            made is Some <==> channel_count > 0 && sample_rate >= 34,
            made is Some ==> made->0 == (EngineConfig {
                channel_count: channel_count as usize,
                block_length: default_block_length(sample_rate as int) as usize,
                hop_interval: default_hop_interval(sample_rate as int) as usize,
            }),
            made is Some ==> made->0.valid(),
    {
        let rate: u64 = sample_rate as u64;
        let block: u64 = rate * 12 / 100;
        let hop: u64 = rate * 3 / 100;
        EngineConfig::new(channel_count, block as usize, hop as usize)
    }

    /// The cheaper preset for a sample rate, or `None` where there is no
    /// channel or the rate is too low to give a hop of one frame.
    pub fn preset_cheaper(channel_count: u32, sample_rate: u32) -> (made: Option<EngineConfig>)
        ensures
            made is Some <==> channel_count > 0 && sample_rate >= 25,
            made is Some ==> made->0 == (EngineConfig {
                channel_count: channel_count as usize,
                block_length: cheaper_block_length(sample_rate as int) as usize,
                hop_interval: cheaper_hop_interval(sample_rate as int) as usize,
            }),
            made is Some ==> made->0.valid(),
    {
        EngineConfig::new(channel_count, (sample_rate / 10) as usize, (sample_rate / 25) as usize)
    }

    /// Input latency in frames: half a block, rounded down.
    pub fn input_latency(&self) -> (frames: usize)
        ensures
            frames == input_latency_of(self.block_length as int),
    {
        self.block_length / 2
    }

    /// Output latency in frames: the rest of the block.
    pub fn output_latency(&self) -> (frames: usize)
        ensures
            frames == output_latency_of(self.block_length as int),
    {
        self.block_length - self.block_length / 2
    }

    /// Number of frequency bins per channel.
    pub fn bin_count(&self) -> (bins: usize)
        ensures
            bins == bin_count_of(self.block_length as int),
    {
        self.block_length / 2 + 1
    }
}

/// The two latencies together span exactly one block.
pub proof fn lemma_latencies_span_block(block_length: int)
    ensures
        input_latency_of(block_length) + output_latency_of(block_length) == block_length,
{
}

/// The cheaper preset never runs more spectral frames per second than the
/// default one, and never transforms a longer block.
pub proof fn lemma_cheaper_preset_costs_less(sample_rate: int)
    requires
        0 <= sample_rate,
    ensures
        cheaper_hop_interval(sample_rate) >= default_hop_interval(sample_rate),
        cheaper_block_length(sample_rate) <= default_block_length(sample_rate),
{
}

} // verus!
