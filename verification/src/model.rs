//! The converter as mathematics: its state, and what it means for an output
//! to be a conversion of an input.

use vstd::prelude::*;
use crate::sample::{saturated, Sample};
use crate::timeline::{
    emitted, phase_index, position_after, source_index, NUM_PHASES, TAPS_PER_PHASE,
};

verus! {

/// What a converter remembers between calls.
pub struct State {
    /// Sampling rate of what goes in, in Hz.
    pub input_rate: nat,
    /// Sampling rate of what comes out, in Hz.
    pub output_rate: nat,
    /// The most recent input samples, oldest first.
    pub history: Seq<Sample>,
    /// How far the next output lies past the arrival of the next input
    /// sample, in units of `1 / output_rate` of an input period.
    pub position: nat,
}

impl State {
    /// The state of a converter that has seen no input: silence behind it and
    /// the first output due at once.
    pub open spec fn fresh(input_rate: nat, output_rate: nat) -> State {
        State {
            input_rate,
            output_rate,
            history: Seq::new(TAPS_PER_PHASE as nat, |i: int| 0i16),
            position: 0,
        }
    }

    /// Both rates are positive, the history fills the window, and the next
    /// output is due less than one output period after the next input sample.
    pub open spec fn well_formed(self) -> bool {
        &&& self.input_rate > 0
        &&& self.output_rate > 0
        &&& self.history.len() == TAPS_PER_PHASE
        &&& self.position < self.input_rate
    }

    /// Equal rates: the converter hands its input through untouched.
    pub open spec fn is_identity(self) -> bool {
        self.input_rate == self.output_rate
    }

    /// Number of outputs that `input_len` further input samples give rise to.
    pub open spec fn output_len(self, input_len: nat) -> nat {
        emitted(self.position, self.input_rate, self.output_rate, input_len)
    }

    /// Index, within the next input, of the newest sample that output `k` sees.
    pub open spec fn source(self, k: nat) -> nat {
        source_index(self.position, self.input_rate, self.output_rate, k)
    }

    /// Filter phase of output `k`.
    pub open spec fn phase(self, k: nat) -> nat {
        phase_index(self.position, self.input_rate, self.output_rate, k)
    }

    /// The samples under the filter when input sample `index` is the newest:
    /// that sample and the fifteen before it, reaching back into the history.
    pub open spec fn window(self, input: Seq<Sample>, index: nat) -> Seq<Sample> {
        (self.history + input).subrange(index as int + 1, index as int + 1 + TAPS_PER_PHASE)
    }

    /// The state after `input` has gone through.
    pub open spec fn advance(self, input: Seq<Sample>) -> State {
        State {
            input_rate: self.input_rate,
            output_rate: self.output_rate,
            history: (self.history + input).subrange(
                input.len() as int,
                input.len() + TAPS_PER_PHASE,
            ),
            position: position_after(
                self.position,
                self.input_rate,
                self.output_rate,
                input.len(),
            ),
        }
    }
}

/// `kernel` can be asked about every phase and every window.
pub open spec fn total<K: Fn(usize, &[Sample; TAPS_PER_PHASE]) -> i32>(kernel: K) -> bool {
    forall|phase: usize, window: [Sample; TAPS_PER_PHASE]|
        phase < NUM_PHASES ==> #[trigger] call_requires(kernel, (phase, &window))
}

/// `sample` is what the converter makes of `window` at `phase`: an amplitude
/// that `kernel` can give for them, saturated.
pub open spec fn yields<K: Fn(usize, &[Sample; TAPS_PER_PHASE]) -> i32>(
    kernel: K,
    phase: nat,
    window: Seq<Sample>,
    sample: Sample,
) -> bool {
    exists|taps: [Sample; TAPS_PER_PHASE], amplitude: i32|
        {
            &&& taps@ == window
            &&& #[trigger] call_ensures(kernel, (phase as usize, &taps), amplitude)
            &&& sample as int == saturated(amplitude as int)
        }
}

/// `output` is a conversion of `input` by a converter in `state`: it has the
/// length the timeline dictates, and each sample comes from the window and the
/// phase the timeline dictates.
pub open spec fn renders<K: Fn(usize, &[Sample; TAPS_PER_PHASE]) -> i32>(
    kernel: K,
    state: State,
    input: Seq<Sample>,
    output: Seq<Sample>,
) -> bool {
    &&& output.len() == state.output_len(input.len())
    &&& forall|k: int|
        0 <= k < output.len() ==> yields(
            kernel,
            state.phase(k as nat),
            state.window(input, state.source(k as nat)),
            #[trigger] output[k],
        )
}

} // verus!
