//! The streaming converter.

use vstd::prelude::*;
use vstd::slice::slice_to_vec;
use crate::laws::lemma_chunks_join;
use crate::model::{renders, total, yields, State};
use crate::sample::{saturate, PcmBuf, Sample};
use crate::timeline::{
    emitted, instant, lemma_emitted_unique, lemma_locate, NUM_PHASES, TAPS_PER_PHASE,
};

verus! {

/// A polyphase sample-rate converter for one mono stream.
///
/// One converter serves one stream: feed it the stream chunk by chunk and it
/// carries window and position over from each chunk to the next.
pub struct Resampler<K> {
    input_rate: usize,
    output_rate: usize,
    position: usize,
    history: [Sample; TAPS_PER_PHASE],
    kernel: K,
}

impl<K> View for Resampler<K> {
    type V = State;

    closed spec fn view(&self) -> State {
        State {
            input_rate: self.input_rate as nat,
            output_rate: self.output_rate as nat,
            history: self.history@,
            position: self.position as nat,
        }
    }
}

/// Drops the oldest sample of `history` and appends `sample` as the newest.
fn shift_in(history: &mut [Sample; TAPS_PER_PHASE], sample: Sample)
    ensures
        final(history)@ == old(history)@.subrange(1, TAPS_PER_PHASE as int).push(sample),
{
    let mut j: usize = 0;
    while j < TAPS_PER_PHASE - 1
        invariant
            j <= TAPS_PER_PHASE - 1,
            forall|m: int| 0 <= m < j ==> history@[m] == old(history)@[m + 1],
            forall|m: int| j <= m < TAPS_PER_PHASE ==> history@[m] == old(history)@[m],
        decreases TAPS_PER_PHASE - 1 - j,
    {
        history[j] = history[j + 1];
        j += 1;
    }
    history[TAPS_PER_PHASE - 1] = sample;
}

/// The number of outputs that `input_len` further input samples will give,
/// where one buffer can hold that many samples.
fn planned_len(position: usize, input_rate: usize, output_rate: usize, input_len: usize) -> (planned:
    Option<usize>)
    requires
        input_rate > 0,
    ensures
        planned matches Some(len) ==> 2 * len <= isize::MAX && len == emitted(
            position as nat,
            input_rate as nat,
            output_rate as nat,
            input_len as nat,
        ),
        planned is None ==> 2 * emitted(
            position as nat,
            input_rate as nat,
            output_rate as nat,
            input_len as nat,
        ) > isize::MAX,
{
    assert(input_len * output_rate <= 0xffff_ffff_ffff_ffff * 0xffff_ffff_ffff_ffff)
        by (nonlinear_arith)
        requires
            input_len <= 0xffff_ffff_ffff_ffff,
            output_rate <= 0xffff_ffff_ffff_ffff,
    ;
    let horizon: u128 = input_len as u128 * output_rate as u128;
    if horizon <= position as u128 {
        return Some(0);
    }
    let count: u128 = (horizon - position as u128 + (input_rate as u128 - 1)) / input_rate as u128;
    if count <= isize::MAX as u128 / 2 {
        Some(count as usize)
    } else {
        None
    }
}

impl<K: Fn(usize, &[Sample; TAPS_PER_PHASE]) -> i32> Resampler<K> {
    /// The filter kernel this converter was built with.
    pub closed spec fn kernel(&self) -> K {
        self.kernel
    }

    /// The converter is in a state it can have got into, and its kernel can be
    /// asked about whatever the converter may come to ask.
    pub open spec fn wf(&self) -> bool {
        &&& self@.well_formed()
        &&& total(self.kernel())
    }

    /// A converter from `input_rate` to `output_rate` that has seen no input.
    ///
    /// `kernel` stands for the filter bank: asked for a phase and a window of
    /// `TAPS_PER_PHASE` samples, oldest first, it answers with the filtered
    /// amplitude in whole sample units.  Both rates must be positive.
    pub fn new(input_rate: usize, output_rate: usize, kernel: K) -> (resampler: Self)
        requires
            input_rate > 0,
            output_rate > 0,
            total(kernel),
        ensures
            resampler.wf(),
            resampler@ == State::fresh(input_rate as nat, output_rate as nat),
            resampler.kernel() == kernel,
    {
        let resampler = Resampler {
            input_rate,
            output_rate,
            position: 0,
            history: [0i16; TAPS_PER_PHASE],
            kernel,
        };
        assert(resampler@.history =~= State::fresh(input_rate as nat, output_rate as nat).history);
        resampler
    }

    /// Takes one input sample in and appends to `output` the samples that fall
    /// into its period.
    fn feed(&mut self, sample: Sample, output: &mut PcmBuf)
        requires
            old(self).wf(),
        ensures
            final(self).wf(),
            final(self).kernel() == old(self).kernel(),
            final(self)@ == old(self)@.advance(seq![sample]),
            final(output)@.len() >= old(output)@.len(),
            final(output)@.take(old(output)@.len() as int) == old(output)@,
            renders(
                old(self).kernel(),
                old(self)@,
                seq![sample],
                final(output)@.skip(old(output)@.len() as int),
            ),
    {
        let ghost start = self@;
        let ghost input = seq![sample];
        let ghost base = output@;
        let step: u128 = self.input_rate as u128;
        let period: u128 = self.output_rate as u128;
        let mut pos: u128 = self.position as u128;
        shift_in(&mut self.history, sample);
        proof {
            assert(output@.take(base.len() as int) =~= base);
        }
        while pos < period
            invariant
                self.input_rate == old(self).input_rate,
                self.output_rate == old(self).output_rate,
                self.kernel == old(self).kernel,
                self.position == old(self).position,
                self.history@ == start.window(input, 0),
                start == old(self)@,
                start.well_formed(),
                total(self.kernel),
                step == start.input_rate,
                period == start.output_rate,
                output.len() >= base.len(),
                output@.take(base.len() as int) == base,
                pos < step + period,
                pos == instant(
                    start.position,
                    start.input_rate,
                    (output.len() - base.len()) as nat,
                ),
                output.len() > base.len() ==> instant(
                    start.position,
                    start.input_rate,
                    (output.len() - base.len() - 1) as nat,
                ) < period,
                forall|k: int|
                    0 <= k < output.len() - base.len() ==> yields(
                        self.kernel,
                        start.phase(k as nat),
                        start.window(input, start.source(k as nat)),
                        #[trigger] output@.skip(base.len() as int)[k],
                    ),
            decreases period + step - pos,
        {
            let ghost k = (output.len() - base.len()) as nat;
            let ghost before = output@;
            proof {
                lemma_locate(
                    start.position,
                    start.input_rate,
                    start.output_rate,
                    k,
                    0,
                    pos as nat,
                );
                assert((k + 1) * start.input_rate == k * start.input_rate + start.input_rate)
                    by (nonlinear_arith);
            }
            let phase: usize = (pos * (NUM_PHASES as u128) / period) as usize;
            let amplitude: i32 = (self.kernel)(phase, &self.history);
            output.push(saturate(amplitude));
            pos = pos + step;
            proof {
                // the window and the amplitude just used bear out the new sample;
                // the samples before it are where they were
                let tail = output@.skip(base.len() as int);
                assert(yields(
                    self.kernel,
                    start.phase(k),
                    start.window(input, start.source(k)),
                    tail[k as int],
                ));
                assert forall|j: int| 0 <= j < k implies tail[j] == before.skip(
                    base.len() as int,
                )[j] by {}
            }
        }
        proof {
            lemma_emitted_unique(
                start.position,
                start.input_rate,
                start.output_rate,
                1,
                (output.len() - base.len()) as nat,
            );
        }
        self.position = (pos - period) as usize;
    }

    /// Converts the next chunk of the stream.
    ///
    /// With equal rates the output is the input and the converter is left as
    /// it was.  Otherwise the output holds one sample for each instant of the
    /// output timeline that falls into the chunk, made by the kernel from the
    /// phase of that instant and the window that ends at its source sample,
    /// and the converter is left ready for the chunk that follows.
    pub fn resample(&mut self, input: &[Sample]) -> (output: PcmBuf)
        requires
            old(self).wf(),
        ensures
            final(self).wf(),
            final(self).kernel() == old(self).kernel(),
            old(self)@.is_identity() ==> output@ == input@ && final(self)@ == old(self)@,
            !old(self)@.is_identity() ==> renders(old(self).kernel(), old(self)@, input@, output@)
                && final(self)@ == old(self)@.advance(input@),
    {
        if self.input_rate == self.output_rate {
            return slice_to_vec(input);
        }
        let ghost start = self@;
        let mut output: PcmBuf = match planned_len(
            self.position,
            self.input_rate,
            self.output_rate,
            input.len(),
        ) {
            Some(len) => Vec::with_capacity(len),
            None => Vec::new(),
        };
        let mut i: usize = 0;
        proof {
            assert(0 * start.output_rate == 0) by (nonlinear_arith);
            assert(0 * start.input_rate == 0) by (nonlinear_arith);
            assert(start.history =~= start.advance(input@.take(0)).history);
        }
        while i < input.len()
            invariant
                i <= input.len(),
                self.wf(),
                self.kernel() == old(self).kernel(),
                start == old(self)@,
                start.well_formed(),
                self@ == start.advance(input@.take(i as int)),
                renders(self.kernel(), start, input@.take(i as int), output@),
            decreases input.len() - i,
        {
            let ghost done = output@;
            self.feed(input[i], &mut output);
            proof {
                lemma_chunks_join(
                    self.kernel(),
                    start,
                    input@.take(i as int),
                    seq![input@[i as int]],
                    done,
                    output@.skip(done.len() as int),
                );
                assert(input@.take(i as int) + seq![input@[i as int]] =~= input@.take(i + 1));
                assert(done + output@.skip(done.len() as int) =~= output@);
            }
            i += 1;
        }
        proof {
            assert(input@.take(input.len() as int) =~= input@);
        }
        output
    }
}

/// Converts a whole signal in one go, through a converter of its own.
///
/// With equal rates the result is a copy of the input and the kernel is not
/// consulted.  Otherwise both rates must be positive.
pub fn resample<K: Fn(usize, &[Sample; TAPS_PER_PHASE]) -> i32>(
    input: &[Sample],
    input_sample_rate: u32,
    output_sample_rate: u32,
    kernel: K,
) -> (output: PcmBuf)
    requires
        input_sample_rate != output_sample_rate ==> input_sample_rate > 0 && output_sample_rate
            > 0 && total(kernel),
    ensures
        input_sample_rate == output_sample_rate ==> output@ == input@,
        input_sample_rate != output_sample_rate ==> renders(
            kernel,
            State::fresh(input_sample_rate as nat, output_sample_rate as nat),
            input@,
            output@,
        ),
{
    if input_sample_rate == output_sample_rate {
        return slice_to_vec(input);
    }
    let mut r = Resampler::new(input_sample_rate as usize, output_sample_rate as usize, kernel);
    r.resample(input)
}

} // verus!
