//! What holds of the scheduler over all inputs and over whole runs of calls.

use vstd::prelude::*;
use crate::config::input_latency_of;
use crate::config::output_latency_of;
use crate::position::Position;
use crate::ratio::lemma_scaled_bounded;
use crate::ratio::lemma_scaled_is_nearest;
use crate::ratio::lemma_scaled_monotonic;
use crate::ratio::lemma_scaled_unity;
use crate::schedule::lemma_steps_due_bounds;
use crate::schedule::Plan;

verus! {

/// One call on an engine, with the frame counts it is made with.
pub enum Call {
    /// `process` with this many input and output frames.
    Process { input_frames: int, output_frames: int },
    /// `seek` at the playback rate `rate_num / rate_den`.
    Seek { rate_num: int, rate_den: int },
    /// `flush` into this many output frames.
    Flush { output_frames: int },
    /// `reset`.
    Reset,
}

impl Call {
    /// The frame counts are such as a caller can hand over.
    pub open spec fn admissible(self) -> bool {
        match self {
            Call::Process { input_frames, output_frames } => {
                0 <= input_frames <= usize::MAX && 0 <= output_frames <= usize::MAX
            },
            Call::Seek { rate_num, rate_den } => 0 <= rate_num && 0 < rate_den,
            Call::Flush { output_frames } => 0 <= output_frames <= usize::MAX,
            Call::Reset => true,
        }
    }
}

/// The position after one call.
pub open spec fn after_call(at: Position, call: Call) -> Position {
    match call {
        Call::Process { input_frames, output_frames } => at.after_process(
            input_frames,
            output_frames,
        ),
        Call::Seek { rate_num, rate_den } => at.after_seek(rate_num, rate_den),
        Call::Flush { output_frames } => at.after_flush(output_frames),
        Call::Reset => Position::initial(at.config),
    }
}

/// The position after a run of calls, made in order.
pub open spec fn after_calls(at: Position, calls: Seq<Call>) -> Position
    decreases calls.len(),
{
    if calls.len() == 0 {
        at
    } else {
        after_call(after_calls(at, calls.drop_last()), calls.last())
    }
}

/// Every call leaves a valid position valid and the configuration as it was.
pub proof fn lemma_call_keeps_validity(at: Position, call: Call)
    requires
        at.valid(),
        call.admissible(),
    ensures
        after_call(at, call).valid(),
        after_call(at, call).config == at.config,
{
    match call {
        Call::Process { input_frames, output_frames } => {
            lemma_steps_due_bounds(
                at.until_next as int,
                at.config.hop_interval as int,
                output_frames,
            );
            if at.steps(output_frames) > 0 {
                let steps = at.steps(output_frames);
                assert(steps * at.config.hop_interval == (steps - 1) * at.config.hop_interval
                    + at.config.hop_interval) by (nonlinear_arith);
                assert(0 <= (steps - 1) * at.config.hop_interval) by (nonlinear_arith)
                    requires
                        steps >= 1,
                        at.config.hop_interval > 0,
                ;
                lemma_scaled_bounded(at.last_offset(output_frames), input_frames, output_frames);
            }
        },
        Call::Seek { rate_num, rate_den } => {},
        Call::Flush { output_frames } => {},
        Call::Reset => {},
    }
}

/// The latencies are fixed by the configuration: whatever calls are made in
/// between, in whatever order, both latencies are afterwards what they were
/// before, and the position is still valid.
pub proof fn lemma_latency_is_constant(at: Position, calls: Seq<Call>)
    requires
        at.valid(),
        forall|i: int| 0 <= i < calls.len() ==> (#[trigger] calls[i]).admissible(),
    ensures
        after_calls(at, calls).valid(),
        after_calls(at, calls).config == at.config,
        input_latency_of(after_calls(at, calls).config.block_length as int) == input_latency_of(
            at.config.block_length as int,
        ),
        output_latency_of(after_calls(at, calls).config.block_length as int) == output_latency_of(
            at.config.block_length as int,
        ),
    decreases calls.len(),
{
    if calls.len() > 0 {
        lemma_latency_is_constant(at, calls.drop_last());
        lemma_call_keeps_validity(after_calls(at, calls.drop_last()), calls.last());
    }
}

/// Two engines with the same block length report the same latencies, wherever
/// each of them stands in its stream.
pub proof fn lemma_latency_depends_on_block_only(a: Position, b: Position)
    requires
        a.config.block_length == b.config.block_length,
    ensures
        input_latency_of(a.config.block_length as int) == input_latency_of(
            b.config.block_length as int,
        ),
        output_latency_of(a.config.block_length as int) == output_latency_of(
            b.config.block_length as int,
        ),
{
}

/// With as many output frames as input frames, every step analyses the block
/// that ends where its synthesized block begins. A frame of that block leaves
/// the engine one block length after it entered: the sum of the two latencies.
pub proof fn lemma_unity_rate_delay(at: Position, frames: int, k: int, j: int)
    requires
        at.valid(),
        0 <= frames <= usize::MAX,
        0 <= k < at.steps(frames),
        0 <= j < at.config.block_length,
    ensures
        at.plan(frames, frames).input_end(k) == at.plan(frames, frames).offset(k),
        ({
            let plan = at.plan(frames, frames);
            let entered = plan.input_end(k) - at.config.block_length + j;
            let left = plan.offset(k) + j;
            left - entered == input_latency_of(at.config.block_length as int) + output_latency_of(
                at.config.block_length as int,
            )
        }),
{
    lemma_steps_due_bounds(at.until_next as int, at.config.hop_interval as int, frames);
    lemma_scaled_unity(at.plan(frames, frames).offset(k), frames);
}

/// Each step's analysis position is its output position times the call's
/// ratio of input to output frames, to within half a frame.
pub proof fn lemma_step_tracks_ratio(at: Position, input_frames: int, output_frames: int, k: int)
    requires
        at.valid(),
        0 <= input_frames <= usize::MAX,
        0 <= output_frames <= usize::MAX,
        0 <= k < at.steps(output_frames),
    ensures
        ({
            let plan = at.plan(input_frames, output_frames);
            -output_frames < 2 * (plan.input_end(k) * output_frames - plan.offset(k)
                * input_frames) <= output_frames
        }),
{
    lemma_steps_due_bounds(at.until_next as int, at.config.hop_interval as int, output_frames);
    lemma_scaled_is_nearest(
        at.plan(input_frames, output_frames).offset(k),
        input_frames,
        output_frames,
    );
}

/// The analysis positions of a call never move backwards, and none lies
/// outside the call's input.
pub proof fn lemma_analysis_moves_forward(
    at: Position,
    input_frames: int,
    output_frames: int,
    k: int,
)
    requires
        at.valid(),
        0 <= input_frames <= usize::MAX,
        0 <= output_frames <= usize::MAX,
        0 <= k < at.steps(output_frames),
    ensures
        0 <= at.plan(input_frames, output_frames).input_end(k) <= input_frames,
        0 <= at.plan(input_frames, output_frames).offset(k) < output_frames,
        k > 0 ==> at.plan(input_frames, output_frames).advance(k) >= 0,
{
    let plan = at.plan(input_frames, output_frames);
    let hop = at.config.hop_interval as int;
    lemma_steps_due_bounds(at.until_next as int, hop, output_frames);
    assert(0 <= k * hop <= (at.steps(output_frames) - 1) * hop) by (nonlinear_arith)
        requires
            0 <= k <= at.steps(output_frames) - 1,
            0 < hop,
    ;
    lemma_scaled_bounded(plan.offset(k), input_frames, output_frames);
    if k > 0 {
        assert((k - 1) * hop <= k * hop) by (nonlinear_arith)
            requires
                0 < hop,
        ;
        lemma_scaled_monotonic(plan.offset(k - 1), plan.offset(k), input_frames, output_frames);
    }
}

/// The advances of the first `n` steps of a plan add up to the first advance
/// plus the distance from the first analysis position to the last.
pub proof fn lemma_total_advance(plan: Plan, n: int)
    requires
        1 <= n,
    ensures
        plan.total_advance(n) == plan.advance(0) + plan.input_end(n - 1) - plan.input_end(0),
    decreases n,
{
    if n == 1 {
        assert(plan.total_advance(0) == 0);
        assert(plan.total_advance(1) == plan.total_advance(0) + plan.advance(0));
    } else {
        lemma_total_advance(plan, n - 1);
    }
}

/// Output accounting of one call: one hop of output is due per step, so the
/// frames emitted and the frames still to emit before the next step add up to
/// what was outstanding before plus one hop for each step run.
pub proof fn lemma_output_accounting(at: Position, input_frames: int, output_frames: int)
    requires
        at.valid(),
        0 <= input_frames <= usize::MAX,
        0 <= output_frames <= usize::MAX,
    ensures
        at.after_process(input_frames, output_frames).until_next + output_frames == at.until_next
            + at.steps(output_frames) * at.config.hop_interval,
{
    let hop = at.config.hop_interval as int;
    let steps = at.steps(output_frames);
    lemma_steps_due_bounds(at.until_next as int, hop, output_frames);
    assert(steps * hop == (steps - 1) * hop + hop) by (nonlinear_arith);
    if steps > 0 {
        assert(0 <= (steps - 1) * hop) by (nonlinear_arith)
            requires
                steps >= 1,
                hop > 0,
        ;
    } else {
        assert(steps * hop == 0) by (nonlinear_arith)
            requires
                steps == 0,
        ;
    }
}

/// Input accounting of one call: every input frame is either behind an
/// analysis position that a step advanced to, or still waiting for the next
/// step. It holds where the phase state is not fresh (a fresh first step takes
/// its advance for granted) and the waiting count has not reached its cap.
pub proof fn lemma_input_accounting(at: Position, input_frames: int, output_frames: int)
    requires
        at.valid(),
        at.primed is None,
        0 <= input_frames,
        0 <= output_frames <= usize::MAX,
        at.since_analysis + input_frames <= usize::MAX,
    ensures
        at.after_process(input_frames, output_frames).primed is None,
        at.after_process(input_frames, output_frames).since_analysis + at.plan(
            input_frames,
            output_frames,
        ).total_advance(at.steps(output_frames)) == at.since_analysis + input_frames,
{
    let plan = at.plan(input_frames, output_frames);
    let hop = at.config.hop_interval as int;
    let steps = at.steps(output_frames);
    lemma_steps_due_bounds(at.until_next as int, hop, output_frames);
    if steps > 0 {
        lemma_total_advance(plan, steps);
        lemma_analysis_moves_forward(at, input_frames, output_frames, 0);
        lemma_analysis_moves_forward(at, input_frames, output_frames, steps - 1);
        assert(plan.offset(steps - 1) == at.last_offset(output_frames));
    } else {
        assert(plan.total_advance(0) == 0);
    }
}

/// Input frames that the `process` calls of a run hand in, all together.
pub open spec fn consumed(calls: Seq<Call>) -> int
    decreases calls.len(),
{
    if calls.len() == 0 {
        0
    } else {
        consumed(calls.drop_last()) + match calls.last() {
            Call::Process { input_frames, output_frames } => input_frames,
            _ => 0,
        }
    }
}

/// Output frames that the `process` calls of a run ask for, all together.
pub open spec fn emitted(calls: Seq<Call>) -> int
    decreases calls.len(),
{
    if calls.len() == 0 {
        0
    } else {
        emitted(calls.drop_last()) + match calls.last() {
            Call::Process { input_frames, output_frames } => output_frames,
            _ => 0,
        }
    }
}

/// Steps that the `process` calls of a run, started at `at`, run all together.
pub open spec fn steps_run(at: Position, calls: Seq<Call>) -> int
    decreases calls.len(),
{
    if calls.len() == 0 {
        0
    } else {
        steps_run(at, calls.drop_last()) + match calls.last() {
            Call::Process { input_frames, output_frames } => after_calls(
                at,
                calls.drop_last(),
            ).steps(output_frames),
            _ => 0,
        }
    }
}

/// Input frames that the steps of a run, started at `at`, advance over all
/// together.
pub open spec fn advanced(at: Position, calls: Seq<Call>) -> int
    decreases calls.len(),
{
    if calls.len() == 0 {
        0
    } else {
        advanced(at, calls.drop_last()) + match calls.last() {
            Call::Process { input_frames, output_frames } => {
                let before = after_calls(at, calls.drop_last());
                before.plan(input_frames, output_frames).total_advance(before.steps(output_frames))
            },
            _ => 0,
        }
    }
}

/// A run of `process` calls at the constant ratio `rate_num / rate_den` of
/// input to output frames consumes input that many times as fast as it emits
/// output, and its steps follow: they advance over all the input but what
/// still waits for the next step, while one hop of output is emitted per step
/// but for what is still due before the next one. Both remainders are left in
/// the position, so over a long run the input advanced over approaches the
/// ratio times the output synthesized.
pub proof fn lemma_stretch_ratio(at: Position, calls: Seq<Call>, rate_num: int, rate_den: int)
    requires
        at.valid(),
        at.primed is None,
        forall|i: int|
            0 <= i < calls.len() ==> (#[trigger] calls[i]).admissible() && calls[i] is Process
                && calls[i]->input_frames * rate_den == calls[i]->Process_output_frames
                * rate_num,
        at.since_analysis + consumed(calls) <= usize::MAX,
    ensures
        after_calls(at, calls).valid(),
        after_calls(at, calls).primed is None,
        consumed(calls) * rate_den == emitted(calls) * rate_num,
        0 <= consumed(calls),
        0 <= advanced(at, calls),
        after_calls(at, calls).since_analysis + advanced(at, calls) == at.since_analysis
            + consumed(calls),
        after_calls(at, calls).until_next + emitted(calls) == at.until_next + steps_run(at, calls)
            * at.config.hop_interval,
    decreases calls.len(),
{
    if calls.len() == 0 {
        assert(steps_run(at, calls) * at.config.hop_interval == 0) by (nonlinear_arith)
            requires
                steps_run(at, calls) == 0,
        ;
    } else {
        let earlier = calls.drop_last();
        let before = after_calls(at, earlier);
        let input_frames = calls.last()->input_frames;
        let output_frames = calls.last()->Process_output_frames;
        assert(calls.last() == calls[calls.len() - 1]);
        assert(forall|i: int| 0 <= i < earlier.len() ==> earlier[i] == calls[i]);
        assert(0 <= consumed(earlier)) by {
            lemma_consumed_is_not_negative(earlier);
        }
        lemma_stretch_ratio(at, earlier, rate_num, rate_den);
        lemma_latency_is_constant(at, earlier);
        lemma_call_keeps_validity(before, calls.last());
        lemma_input_accounting(before, input_frames, output_frames);
        lemma_output_accounting(before, input_frames, output_frames);
        lemma_advance_is_not_negative(before, input_frames, output_frames);
        assert((consumed(earlier) + input_frames) * rate_den == (emitted(earlier) + output_frames)
            * rate_num) by (nonlinear_arith)
            requires
                consumed(earlier) * rate_den == emitted(earlier) * rate_num,
                input_frames * rate_den == output_frames * rate_num,
        ;
        assert((steps_run(at, earlier) + before.steps(output_frames)) * at.config.hop_interval
            == steps_run(at, earlier) * at.config.hop_interval + before.steps(output_frames)
            * at.config.hop_interval) by (nonlinear_arith);
    }
}

/// No run consumes a negative number of frames.
pub proof fn lemma_consumed_is_not_negative(calls: Seq<Call>)
    requires
        forall|i: int| 0 <= i < calls.len() ==> (#[trigger] calls[i]).admissible(),
    ensures
        0 <= consumed(calls),
    decreases calls.len(),
{
    if calls.len() > 0 {
        assert(calls.last() == calls[calls.len() - 1]);
        lemma_consumed_is_not_negative(calls.drop_last());
    }
}

/// The steps of a call never advance backwards, taken together.
pub proof fn lemma_advance_is_not_negative(at: Position, input_frames: int, output_frames: int)
    requires
        at.valid(),
        0 <= input_frames <= usize::MAX,
        0 <= output_frames <= usize::MAX,
    ensures
        0 <= at.plan(input_frames, output_frames).total_advance(at.steps(output_frames)),
{
    let plan = at.plan(input_frames, output_frames);
    let steps = at.steps(output_frames);
    let hop = at.config.hop_interval as int;
    lemma_steps_due_bounds(at.until_next as int, hop, output_frames);
    if steps > 0 {
        lemma_total_advance(plan, steps);
        lemma_analysis_moves_forward(at, input_frames, output_frames, 0);
        assert(0 <= (steps - 1) * hop) by (nonlinear_arith)
            requires
                steps >= 1,
                hop > 0,
        ;
        lemma_scaled_monotonic(plan.offset(0), plan.offset(steps - 1), input_frames, output_frames);
    } else {
        assert(plan.total_advance(0) == 0);
    }
}

/// A flush into at least `output_latency` frames drains the whole tail, and a
/// flush that follows it finds nothing: all of its output is silence.
pub proof fn lemma_flush_is_complete(at: Position, output_frames: int, again: int)
    requires
        at.valid(),
        output_latency_of(at.config.block_length as int) <= output_frames <= usize::MAX,
        0 <= again <= usize::MAX,
    ensures
        at.flush_plan(output_frames).plain + at.flush_plan(output_frames).folded == at.pending,
        at.flush_plan(output_frames).folded <= at.flush_plan(output_frames).plain,
        at.after_flush(output_frames).pending == 0,
        at.after_flush(output_frames).flush_plan(again) == (crate::position::FlushPlan {
            plain: 0,
            folded: 0,
            silent: again as usize,
        }),
        at.after_flush(output_frames).after_flush(again) == at.after_flush(output_frames),
{
}

/// A seek moves nothing on the output side, and the steps of the next call
/// read and write where they would have without it.
pub proof fn lemma_seek_keeps_stream_position(
    at: Position,
    rate_num: int,
    rate_den: int,
    input_frames: int,
    output_frames: int,
    k: int,
)
    requires
        at.valid(),
        0 <= rate_num,
        0 < rate_den,
    ensures
        at.after_seek(rate_num, rate_den).valid(),
        at.after_seek(rate_num, rate_den).until_next == at.until_next,
        at.after_seek(rate_num, rate_den).pending == at.pending,
        at.after_seek(rate_num, rate_den).steps(output_frames) == at.steps(output_frames),
        at.after_seek(rate_num, rate_den).plan(input_frames, output_frames).offset(k) == at.plan(
            input_frames,
            output_frames,
        ).offset(k),
        at.after_seek(rate_num, rate_den).plan(input_frames, output_frames).input_end(k)
            == at.plan(input_frames, output_frames).input_end(k),
{
}

} // verus!
