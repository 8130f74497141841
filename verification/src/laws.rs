//! What holds of every conversion, whatever the rates, the input and the kernel.

use vstd::prelude::*;
use crate::model::{renders, yields, State};
use crate::sample::{saturated, Sample};
use crate::timeline::{
    instant, lemma_emitted_additive, lemma_emitted_bounds, lemma_emitted_monotonic,
    lemma_locate_in_second_run, lemma_phase_offset_in_range, lemma_position_after_bound,
    lemma_source_is_consumed, NUM_PHASES, TAPS_PER_PHASE,
};

verus! {

/// `kernel` gives one amplitude, and no other, for each phase and window.
pub open spec fn single_valued<K: Fn(usize, &[Sample; TAPS_PER_PHASE]) -> i32>(kernel: K) -> bool {
    forall|phase: usize, window: [Sample; TAPS_PER_PHASE], a: i32, b: i32|
        #[trigger] call_ensures(kernel, (phase, &window), a) && #[trigger] call_ensures(
            kernel,
            (phase, &window),
            b,
        ) ==> a == b
}

/// Every sample of `signal` is `level`.
pub open spec fn holds_level(signal: Seq<Sample>, level: Sample) -> bool {
    forall|i: int| 0 <= i < signal.len() ==> #[trigger] signal[i] == level
}

/// `kernel` answers a window that holds one value throughout with that value:
/// every phase of the filter has unity gain at zero frequency.
pub open spec fn unity_gain<K: Fn(usize, &[Sample; TAPS_PER_PHASE]) -> i32>(kernel: K) -> bool {
    forall|phase: usize, window: [Sample; TAPS_PER_PHASE], level: Sample, amplitude: i32|
        #[trigger] call_ensures(kernel, (phase, &window), amplitude) && #[trigger] holds_level(
            window@,
            level,
        ) ==> amplitude == level
}

/// The output is as long as the input times the ratio of the rates, to within
/// one sample: multiplied out by the input rate, the two differ by less than
/// the input rate.  A converter that starts from rest gives exactly the product
/// rounded up.
pub proof fn lemma_length_tracks_ratio(state: State, input_len: nat)
    requires
        state.well_formed(),
    ensures
        input_len * state.output_rate - state.input_rate < state.output_len(input_len)
            * state.input_rate,
        state.output_len(input_len) * state.input_rate < input_len * state.output_rate
            + state.input_rate,
        state.position == 0 ==> input_len * state.output_rate <= state.output_len(input_len)
            * state.input_rate,
{
    let len = state.output_len(input_len);
    lemma_emitted_bounds(state.position, state.input_rate, state.output_rate, input_len);
    if len > 0 {
        assert(len * state.input_rate == (len - 1) * state.input_rate + state.input_rate)
            by (nonlinear_arith);
    } else {
        assert(0 * state.input_rate == 0) by (nonlinear_arith);
    }
}

/// Every phase the converter asks its kernel about is one of the
/// `NUM_PHASES` phases.
pub proof fn lemma_phase_in_range(state: State, k: nat)
    requires
        state.well_formed(),
    ensures
        state.phase(k) < NUM_PHASES,
{
    let t = instant(state.position, state.input_rate, k);
    lemma_phase_offset_in_range(t % state.output_rate, state.output_rate);
}

/// A longer input never gives a shorter output.
pub proof fn lemma_length_monotonic(state: State, shorter: nat, longer: nat)
    requires
        state.well_formed(),
        shorter <= longer,
    ensures
        state.output_len(shorter) <= state.output_len(longer),
{
    lemma_emitted_monotonic(
        state.position,
        state.input_rate,
        state.output_rate,
        shorter,
        longer,
    );
}

/// A well-formed state stays well formed as input goes through.
pub proof fn lemma_advance_well_formed(state: State, input: Seq<Sample>)
    requires
        state.well_formed(),
    ensures
        state.advance(input).well_formed(),
{
    lemma_position_after_bound(
        state.position,
        state.input_rate,
        state.output_rate,
        input.len(),
    );
}

/// With a kernel that gives one answer per question, the same state and the
/// same input leave room for one output only: two runs agree sample for sample.
pub proof fn lemma_output_is_determined<K: Fn(usize, &[Sample; TAPS_PER_PHASE]) -> i32>(
    kernel: K,
    state: State,
    input: Seq<Sample>,
    one: Seq<Sample>,
    other: Seq<Sample>,
)
    requires
        single_valued(kernel),
        renders(kernel, state, input, one),
        renders(kernel, state, input, other),
    ensures
        one == other,
{
    assert forall|k: int| 0 <= k < one.len() implies one[k] == other[k] by {
        let phase = state.phase(k as nat);
        let window = state.window(input, state.source(k as nat));
        let (taps_one, amplitude_one) = choose|taps: [Sample; TAPS_PER_PHASE], amplitude: i32|
            {
                &&& taps@ == window
                &&& #[trigger] call_ensures(kernel, (phase as usize, &taps), amplitude)
                &&& one[k] as int == saturated(amplitude as int)
            };
        let (taps_other, amplitude_other) = choose|taps: [Sample; TAPS_PER_PHASE], amplitude: i32|
            {
                &&& taps@ == window
                &&& #[trigger] call_ensures(kernel, (phase as usize, &taps), amplitude)
                &&& other[k] as int == saturated(amplitude as int)
            };
        assert(taps_one =~= taps_other);
    }
    assert(one =~= other);
}

/// What a converter makes of one chunk, followed by what it then makes of the
/// next, is a conversion of the two chunks joined, and the converter ends in
/// the state that the joined input leads to.  Nothing is lost or doubled where
/// the chunks meet.
pub proof fn lemma_chunks_join<K: Fn(usize, &[Sample; TAPS_PER_PHASE]) -> i32>(
    kernel: K,
    state: State,
    first: Seq<Sample>,
    second: Seq<Sample>,
    first_output: Seq<Sample>,
    second_output: Seq<Sample>,
)
    requires
        state.well_formed(),
        renders(kernel, state, first, first_output),
        renders(kernel, state.advance(first), second, second_output),
    ensures
        renders(kernel, state, first + second, first_output + second_output),
        state.advance(first).advance(second) == state.advance(first + second),
{
    let middle = state.advance(first);
    let joined = first + second;
    let output = first_output + second_output;
    lemma_emitted_additive(
        state.position,
        state.input_rate,
        state.output_rate,
        first.len(),
        second.len(),
    );
    assert(middle.advance(second).history =~= state.advance(joined).history);
    assert forall|k: int| 0 <= k < output.len() implies yields(
        kernel,
        state.phase(k as nat),
        state.window(joined, state.source(k as nat)),
        #[trigger] output[k],
    ) by {
        if k < first_output.len() {
            lemma_source_is_consumed(
                state.position,
                state.input_rate,
                state.output_rate,
                first.len(),
                k as nat,
            );
            let index = state.source(k as nat);
            assert(state.window(joined, index) =~= state.window(first, index));
        } else {
            let late = (k - first_output.len()) as nat;
            lemma_locate_in_second_run(
                state.position,
                state.input_rate,
                state.output_rate,
                first.len(),
                k as nat,
            );
            lemma_source_is_consumed(
                middle.position,
                middle.input_rate,
                middle.output_rate,
                second.len(),
                late,
            );
            let index = middle.source(late);
            assert(state.window(joined, first.len() + index) =~= middle.window(second, index));
        }
    }
}

/// Once a constant signal fills the window, a kernel with unity gain at zero
/// frequency reproduces it exactly.  The window is full from the output whose
/// newest sample is number `TAPS_PER_PHASE - 1` of the input.
pub proof fn lemma_constant_signal_is_kept<K: Fn(usize, &[Sample; TAPS_PER_PHASE]) -> i32>(
    kernel: K,
    state: State,
    input: Seq<Sample>,
    output: Seq<Sample>,
    level: Sample,
    k: int,
)
    requires
        state.well_formed(),
        unity_gain(kernel),
        renders(kernel, state, input, output),
        holds_level(input, level),
        0 <= k < output.len(),
        state.source(k as nat) >= TAPS_PER_PHASE - 1,
    ensures
        output[k] == level,
{
    let index = state.source(k as nat);
    let window = state.window(input, index);
    lemma_source_is_consumed(
        state.position,
        state.input_rate,
        state.output_rate,
        input.len(),
        k as nat,
    );
    let (taps, amplitude) = choose|taps: [Sample; TAPS_PER_PHASE], amplitude: i32|
        {
            &&& taps@ == window
            &&& #[trigger] call_ensures(kernel, (state.phase(k as nat) as usize, &taps), amplitude)
            &&& output[k] as int == saturated(amplitude as int)
        };
    assert(holds_level(taps@, level)) by {
        assert forall|i: int| 0 <= i < TAPS_PER_PHASE implies #[trigger] taps@[i] == level by {
            assert(window[i] == (state.history + input)[index + 1 + i]);
        }
    }
}

} // verus!
