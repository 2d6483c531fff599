//! Interleaved sample buffers and the input history of one channel.
//!
//! Samples are opaque here: they are copied, never computed with. The history
//! of a channel is a window over everything the channel received so far, one
//! block long. An analysis block is cut from the history followed by the
//! input of the current call.

use vstd::prelude::*;
use vstd::arithmetic::div_mod::lemma_fundamental_div_mod;
use crate::ring::Ring;

verus! {

/// Number of frames in an interleaved buffer of `len` samples.
pub open spec fn frames_of(len: int, channel_count: int) -> int {
    len / channel_count
}

/// Whether an interleaved buffer of `len` samples holds whole frames only.
pub open spec fn whole_frames(len: int, channel_count: int) -> bool {
    len % channel_count == 0
}

/// The samples of one channel of an interleaved buffer, in order.
pub open spec fn channel_of<T>(samples: Seq<T>, channel_count: int, channel: int) -> Seq<T> {
    Seq::new(
        frames_of(samples.len() as int, channel_count) as nat,
        |f: int| samples[f * channel_count + channel],
    )
}

/// The last `n` items of a sequence.
pub open spec fn newest<T>(items: Seq<T>, n: int) -> Seq<T> {
    items.subrange(items.len() - n, items.len() as int)
}

/// Sample `channel` of frame `f` lies inside an interleaved buffer of whole
/// frames.
pub proof fn lemma_sample_in_buffer(len: int, channel_count: int, channel: int, f: int)
    requires
        0 <= channel < channel_count,
        0 <= len,
        len % channel_count == 0,
        0 <= f < len / channel_count,
    ensures
        0 <= f * channel_count + channel < len,
{
    lemma_fundamental_div_mod(len, channel_count);
    let frames = len / channel_count;
    assert(f * channel_count + channel_count <= frames * channel_count) by (nonlinear_arith)
        requires
            f + 1 <= frames,
            0 < channel_count,
    ;
    assert(0 <= f * channel_count) by (nonlinear_arith)
        requires
            0 <= f,
            0 < channel_count,
    ;
    assert(frames * channel_count == channel_count * frames) by (nonlinear_arith);
}

/// Takes the samples of one channel of `input` into the channel's history:
/// afterwards the history shows the newest items of what it showed before
/// followed by the channel's input.
pub fn store_input<T: Copy>(
    history: &mut Ring<T>,
    input: &[T],
    channel_count: usize,
    channel: usize,
)
    requires
        old(history).wf(),
        channel < channel_count,
        whole_frames(input@.len() as int, channel_count as int),
    ensures
        final(history).wf(),
        final(history)@ == newest(
            old(history)@ + channel_of(input@, channel_count as int, channel as int),
            old(history)@.len() as int,
        ),
{
    let frames: usize = input.len() / channel_count;
    let block: usize = history.len();
    let start: usize = if frames > block {
        frames - block
    } else {
        0
    };
    let ghost stream = channel_of(input@, channel_count as int, channel as int);
    let mut f: usize = start;
    proof {
        assert(stream.subrange(start as int, f as int) =~= Seq::<T>::empty());
        assert(history@ =~= newest(
            old(history)@ + stream.subrange(start as int, f as int),
            block as int,
        ));
    }
    while f < frames
        invariant
            history.wf(),
            history@.len() == block,
            old(history)@.len() == block,
            block > 0,
            start <= f <= frames,
            frames == frames_of(input@.len() as int, channel_count as int),
            channel < channel_count,
            whole_frames(input@.len() as int, channel_count as int),
            input@.len() <= usize::MAX,
            stream == channel_of(input@, channel_count as int, channel as int),
            history@ == newest(
                old(history)@ + stream.subrange(start as int, f as int),
                block as int,
            ),
        decreases frames - f,
    {
        proof {
            lemma_sample_in_buffer(
                input@.len() as int,
                channel_count as int,
                channel as int,
                f as int,
            );
        }
        let sample: T = input[f * channel_count + channel];
        let ghost before = old(history)@ + stream.subrange(start as int, f as int);
        let ghost shown = history@;
        history.push(sample);
        f = f + 1;
        proof {
            let after = old(history)@ + stream.subrange(start as int, f as int);
            assert(stream.len() == frames);
            assert(sample == stream[f - 1]);
            assert(after =~= before.push(sample));
            assert(shown == newest(before, block as int));
            assert(before.len() == block + (f - 1 - start));
            let shifted = shown.skip(1).push(sample);
            let wanted = newest(after, block as int);
            assert(after.len() == block + (f - start));
            assert forall|i: int| 0 <= i < block implies shifted[i] == wanted[i] by {
                if i < block - 1 {
                    assert(shifted[i] == shown[i + 1]);
                    assert(shown[i + 1] == before[before.len() - block + i + 1]);
                }
            }
            assert(shifted =~= wanted);
        }
    }
    proof {
        let whole = old(history)@ + stream;
        let fed = old(history)@ + stream.subrange(start as int, frames as int);
        assert(newest(fed, block as int) =~= newest(whole, block as int));
    }
}

/// Cuts the analysis block of one channel that ends before input frame `end`
/// of the current call: one history length of samples from the channel's
/// stream, which is its history followed by its input.
pub fn gather_block<T: Copy>(
    history: &Ring<T>,
    input: &[T],
    channel_count: usize,
    channel: usize,
    end: usize,
    block: &mut Vec<T>,
)
    requires
        history.wf(),
        channel < channel_count,
        whole_frames(input@.len() as int, channel_count as int),
        end <= frames_of(input@.len() as int, channel_count as int),
    ensures
        final(block)@ == (history@ + channel_of(
            input@,
            channel_count as int,
            channel as int,
        )).subrange(end as int, end + history@.len()),
{
    let length: usize = history.len();
    let from_history: usize = if end < length {
        length - end
    } else {
        0
    };
    let ghost stream = history@ + channel_of(input@, channel_count as int, channel as int);
    assert(input@.len() == input.len());
    block.clear();
    let mut j: usize = 0;
    while j < length
        invariant
            history.wf(),
            history@.len() == length,
            j <= length,
            from_history == if end < length {
                length - end
            } else {
                0
            },
            channel < channel_count,
            whole_frames(input@.len() as int, channel_count as int),
            end <= frames_of(input@.len() as int, channel_count as int),
            input@.len() <= usize::MAX,
            stream == history@ + channel_of(input@, channel_count as int, channel as int),
            block@ == stream.subrange(end as int, end + j),
        decreases length - j,
    {
        let sample: T = if j < from_history {
            history.get(end + j)
        } else {
            let f: usize = if end < length {
                j - from_history
            } else {
                (end - length) + j
            };
            proof {
                lemma_sample_in_buffer(
                    input@.len() as int,
                    channel_count as int,
                    channel as int,
                    f as int,
                );
            }
            input[f * channel_count + channel]
        };
        block.push(sample);
        j = j + 1;
        proof {
            assert(sample == stream[end + j - 1]);
            assert(block@ =~= stream.subrange(end as int, end + j));
        }
    }
}

/// Splitting an interleaved buffer between two frames splits each channel at
/// the same frame.
pub proof fn lemma_channel_of_concat<T>(
    first: Seq<T>,
    second: Seq<T>,
    channel_count: int,
    channel: int,
)
    requires
        0 <= channel < channel_count,
        whole_frames(first.len() as int, channel_count),
        whole_frames(second.len() as int, channel_count),
    ensures
        channel_of(first + second, channel_count, channel) == channel_of(
            first,
            channel_count,
            channel,
        ) + channel_of(second, channel_count, channel),
{
    let a = first.len() as int;
    let b = second.len() as int;
    let fa = a / channel_count;
    let fb = b / channel_count;
    lemma_fundamental_div_mod(a, channel_count);
    lemma_fundamental_div_mod(b, channel_count);
    assert(a + b == channel_count * (fa + fb)) by (nonlinear_arith)
        requires
            a == channel_count * fa,
            b == channel_count * fb,
    ;
    assert(0 <= fa && 0 <= fb) by (nonlinear_arith)
        requires
            a == channel_count * fa,
            b == channel_count * fb,
            0 <= a,
            0 <= b,
            0 < channel_count,
    ;
    vstd::arithmetic::div_mod::lemma_fundamental_div_mod_converse(
        a + b,
        channel_count,
        fa + fb,
        0,
    );
    let joined = channel_of(first + second, channel_count, channel);
    let apart = channel_of(first, channel_count, channel) + channel_of(
        second,
        channel_count,
        channel,
    );
    assert(joined.len() == apart.len());
    assert forall|f: int| 0 <= f < joined.len() implies joined[f] == apart[f] by {
        if f < fa {
            lemma_sample_in_buffer(a, channel_count, channel, f);
        } else {
            lemma_sample_in_buffer(b, channel_count, channel, f - fa);
            assert((f - fa) * channel_count + channel == f * channel_count + channel - a)
                by (nonlinear_arith)
                requires
                    a == channel_count * fa,
            ;
        }
    }
    assert(joined =~= apart);
}

/// Storing a stream in two pieces leaves the history that storing it in one
/// piece leaves.
pub proof fn lemma_store_in_pieces<T>(history: Seq<T>, first: Seq<T>, second: Seq<T>)
    ensures
        newest(newest(history + first, history.len() as int) + second, history.len() as int)
            == newest(history + first + second, history.len() as int),
{
    let n = history.len() as int;
    assert(newest(newest(history + first, n) + second, n) =~= newest(
        history + first + second,
        n,
    ));
}

/// Once a stream at least as long as the history was stored, nothing is left
/// of what the history showed before: a seek over so much pre-roll leaves the
/// history that processing the same frames would have left, whatever came
/// earlier.
pub proof fn lemma_history_forgets<T>(one: Seq<T>, other: Seq<T>, stored: Seq<T>)
    requires
        one.len() == other.len(),
        stored.len() >= one.len(),
    ensures
        newest(one + stored, one.len() as int) == newest(stored, one.len() as int),
        newest(one + stored, one.len() as int) == newest(other + stored, other.len() as int),
{
    let n = one.len() as int;
    assert(newest(one + stored, n) =~= newest(stored, n));
    assert(newest(other + stored, n) =~= newest(stored, n));
}

/// The block that ends before frame `end` of the current input is the same
/// window of the whole stream, however much of the stream the history has
/// already dropped.
pub proof fn lemma_block_is_window_of_stream<T>(
    earlier: Seq<T>,
    input: Seq<T>,
    length: int,
    end: int,
)
    requires
        0 <= length <= earlier.len(),
        0 <= end <= input.len(),
    ensures
        (newest(earlier, length) + input).subrange(end, end + length) == (earlier
            + input).subrange(earlier.len() - length + end, earlier.len() + end),
{
    assert((newest(earlier, length) + input).subrange(end, end + length) =~= (earlier
        + input).subrange(earlier.len() - length + end, earlier.len() + end));
}

} // verus!
