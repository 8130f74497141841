//! The output timeline, measured in exact integers.
//!
//! Time is counted in units of `1 / output_rate` of one input-sample period.
//! One input sample therefore lasts `output_rate` units and consecutive output
//! samples are `input_rate` units apart.  A converter whose position is `p`
//! produces its next outputs at the instants `p`, `p + input_rate`,
//! `p + 2 * input_rate`, ... counted from the arrival of the next input sample.

use vstd::prelude::*;
use vstd::arithmetic::div_mod::lemma_fundamental_div_mod;
use vstd::arithmetic::div_mod::lemma_fundamental_div_mod_converse;
use vstd::arithmetic::mul::lemma_mul_inequality;

verus! {

/// Number of filter phases: the resolution of the fractional delay.
pub const NUM_PHASES: usize = 128;

/// Number of filter taps per phase, which is also the length of the history window.
pub const TAPS_PER_PHASE: usize = 16;

/// The instant of output number `k`, counted from the arrival of the first
/// input sample of a call.
pub open spec fn instant(position: nat, input_rate: nat, k: nat) -> nat {
    position + k * input_rate
}

/// The number of output samples that `consumed` input samples give rise to:
/// the number of instants that lie before the end of the last of them.
pub open spec fn emitted(position: nat, input_rate: nat, output_rate: nat, consumed: nat) -> nat {
    let horizon = consumed * output_rate;
    if horizon <= position || input_rate == 0 {
        0
    } else {
        ((horizon - position + input_rate - 1) / (input_rate as int)) as nat
    }
}

/// The index of the input sample during whose period output number `k` falls.
/// It is the newest sample in the window of that output.
pub open spec fn source_index(position: nat, input_rate: nat, output_rate: nat, k: nat) -> nat {
    instant(position, input_rate, k) / output_rate
}

/// The filter phase of output number `k`: how far into the period of its
/// source sample the output falls, in steps of `1 / NUM_PHASES`, rounded down.
pub open spec fn phase_index(position: nat, input_rate: nat, output_rate: nat, k: nat) -> nat {
    (instant(position, input_rate, k) % output_rate) * NUM_PHASES as nat / output_rate
}

/// The position that is left once `consumed` input samples have gone by.
pub open spec fn position_after(
    position: nat,
    input_rate: nat,
    output_rate: nat,
    consumed: nat,
) -> nat {
    (instant(position, input_rate, emitted(position, input_rate, output_rate, consumed))
        - consumed * output_rate) as nat
}

/// `emitted` counts up to the first instant at or past the horizon.
pub proof fn lemma_emitted_bounds(position: nat, input_rate: nat, output_rate: nat, consumed: nat)
    requires
        input_rate > 0,
    ensures
        instant(position, input_rate, emitted(position, input_rate, output_rate, consumed))
            >= consumed * output_rate,
        emitted(position, input_rate, output_rate, consumed) > 0 ==> instant(
            position,
            input_rate,
            (emitted(position, input_rate, output_rate, consumed) - 1) as nat,
        ) < consumed * output_rate,
{
    let horizon = consumed * output_rate;
    if horizon > position {
        let gap: int = horizon - position;
        let step: int = input_rate as int;
        let count: int = (gap + step - 1) / step;
        lemma_fundamental_div_mod(gap + step - 1, step);
        assert(step * (count - 1) == step * count - step) by (nonlinear_arith);
        assert(count * step == step * count) by (nonlinear_arith);
        assert((count - 1) * step == step * (count - 1)) by (nonlinear_arith);
    }
}

/// Output number `k` is produced while consuming `consumed` input samples
/// exactly if its instant lies before their end.
pub proof fn lemma_emitted_iff_before_horizon(
    position: nat,
    input_rate: nat,
    output_rate: nat,
    consumed: nat,
    k: nat,
)
    requires
        input_rate > 0,
    ensures
        k < emitted(position, input_rate, output_rate, consumed) <==> instant(
            position,
            input_rate,
            k,
        ) < consumed * output_rate,
{
    let count = emitted(position, input_rate, output_rate, consumed);
    lemma_emitted_bounds(position, input_rate, output_rate, consumed);
    if k < count {
        lemma_mul_inequality(k as int, count - 1, input_rate as int);
    } else {
        lemma_mul_inequality(count as int, k as int, input_rate as int);
    }
}

/// The count of outputs is the only number whose instant is the first one at
/// or past the horizon.
pub proof fn lemma_emitted_unique(
    position: nat,
    input_rate: nat,
    output_rate: nat,
    consumed: nat,
    count: nat,
)
    requires
        input_rate > 0,
        instant(position, input_rate, count) >= consumed * output_rate,
        count > 0 ==> instant(position, input_rate, (count - 1) as nat) < consumed * output_rate,
    ensures
        emitted(position, input_rate, output_rate, consumed) == count,
{
    lemma_emitted_iff_before_horizon(position, input_rate, output_rate, consumed, count);
    if count > 0 {
        lemma_emitted_iff_before_horizon(
            position,
            input_rate,
            output_rate,
            consumed,
            (count - 1) as nat,
        );
    }
}

/// An instant that falls into the period of input sample `index`, `offset`
/// units after its start, has that sample as its source and the phase that
/// `offset` selects.
pub proof fn lemma_locate(
    position: nat,
    input_rate: nat,
    output_rate: nat,
    k: nat,
    index: nat,
    offset: nat,
)
    requires
        output_rate > 0,
        offset < output_rate,
        instant(position, input_rate, k) == index * output_rate + offset,
    ensures
        source_index(position, input_rate, output_rate, k) == index,
        phase_index(position, input_rate, output_rate, k) == offset * NUM_PHASES as nat
            / output_rate,
        phase_index(position, input_rate, output_rate, k) < NUM_PHASES,
{
    let t = instant(position, input_rate, k) as int;
    lemma_fundamental_div_mod_converse(t, output_rate as int, index as int, offset as int);
    lemma_phase_offset_in_range(offset, output_rate);
}

/// An offset inside one input period selects one of the `NUM_PHASES` phases.
pub proof fn lemma_phase_offset_in_range(offset: nat, output_rate: nat)
    requires
        offset < output_rate,
    ensures
        offset * NUM_PHASES as nat / output_rate < NUM_PHASES,
{
    assert(offset * 128 / output_rate < 128) by (nonlinear_arith)
        requires
            offset < output_rate,
    ;
}

/// The source of an output that is produced while `consumed` samples go by is
/// one of those samples.
pub proof fn lemma_source_is_consumed(
    position: nat,
    input_rate: nat,
    output_rate: nat,
    consumed: nat,
    k: nat,
)
    requires
        input_rate > 0,
        output_rate > 0,
        k < emitted(position, input_rate, output_rate, consumed),
    ensures
        source_index(position, input_rate, output_rate, k) < consumed,
{
    lemma_emitted_iff_before_horizon(position, input_rate, output_rate, consumed, k);
    let t = instant(position, input_rate, k);
    assert(t / output_rate < consumed) by (nonlinear_arith)
        requires
            t < consumed * output_rate,
            output_rate > 0,
    ;
}

/// More input never gives fewer outputs.
pub proof fn lemma_emitted_monotonic(
    position: nat,
    input_rate: nat,
    output_rate: nat,
    fewer: nat,
    more: nat,
)
    requires
        input_rate > 0,
        fewer <= more,
    ensures
        emitted(position, input_rate, output_rate, fewer) <= emitted(
            position,
            input_rate,
            output_rate,
            more,
        ),
{
    let low = emitted(position, input_rate, output_rate, fewer);
    if low > 0 {
        let last = (low - 1) as nat;
        lemma_emitted_iff_before_horizon(position, input_rate, output_rate, fewer, last);
        assert(fewer * output_rate <= more * output_rate) by (nonlinear_arith)
            requires
                fewer <= more,
        ;
        lemma_emitted_iff_before_horizon(position, input_rate, output_rate, more, last);
    }
}

/// The position left behind stays below one output period.
pub proof fn lemma_position_after_bound(
    position: nat,
    input_rate: nat,
    output_rate: nat,
    consumed: nat,
)
    requires
        input_rate > 0,
        position < input_rate,
    ensures
        position_after(position, input_rate, output_rate, consumed) < input_rate,
        position_after(position, input_rate, output_rate, consumed) + consumed * output_rate
            == instant(
            position,
            input_rate,
            emitted(position, input_rate, output_rate, consumed),
        ),
{
    let count = emitted(position, input_rate, output_rate, consumed);
    lemma_emitted_bounds(position, input_rate, output_rate, consumed);
    if count > 0 {
        assert(count * input_rate == (count - 1) * input_rate + input_rate) by (nonlinear_arith);
    } else {
        assert(0 * input_rate == 0) by (nonlinear_arith);
    }
}

/// Consuming two runs of samples one after the other is consuming them at once:
/// the counts add up and the position arrives at the same place.
pub proof fn lemma_emitted_additive(
    position: nat,
    input_rate: nat,
    output_rate: nat,
    first: nat,
    second: nat,
)
    requires
        input_rate > 0,
    ensures
        emitted(position, input_rate, output_rate, first + second) == emitted(
            position,
            input_rate,
            output_rate,
            first,
        ) + emitted(
            position_after(position, input_rate, output_rate, first),
            input_rate,
            output_rate,
            second,
        ),
        position_after(position, input_rate, output_rate, first + second) == position_after(
            position_after(position, input_rate, output_rate, first),
            input_rate,
            output_rate,
            second,
        ),
{
    let c1 = emitted(position, input_rate, output_rate, first);
    let middle = position_after(position, input_rate, output_rate, first);
    let c2 = emitted(middle, input_rate, output_rate, second);
    lemma_emitted_bounds(position, input_rate, output_rate, first);
    lemma_emitted_bounds(middle, input_rate, output_rate, second);
    assert((c1 + c2) * input_rate == c1 * input_rate + c2 * input_rate) by (nonlinear_arith);
    assert((first + second) * output_rate == first * output_rate + second * output_rate)
        by (nonlinear_arith);
    if c2 > 0 {
        assert((c1 + c2 - 1) * input_rate == c1 * input_rate + (c2 - 1) * input_rate)
            by (nonlinear_arith);
    }
    lemma_emitted_unique(position, input_rate, output_rate, first + second, c1 + c2);
}

/// An output of the second of two runs falls on the same phase, and on the
/// same sample, whether it is counted from the start of the first run or of the
/// second.
pub proof fn lemma_locate_in_second_run(
    position: nat,
    input_rate: nat,
    output_rate: nat,
    first: nat,
    k: nat,
)
    requires
        input_rate > 0,
        output_rate > 0,
        k >= emitted(position, input_rate, output_rate, first),
    ensures
        source_index(position, input_rate, output_rate, k) == first + source_index(
            position_after(position, input_rate, output_rate, first),
            input_rate,
            output_rate,
            (k - emitted(position, input_rate, output_rate, first)) as nat,
        ),
        phase_index(position, input_rate, output_rate, k) == phase_index(
            position_after(position, input_rate, output_rate, first),
            input_rate,
            output_rate,
            (k - emitted(position, input_rate, output_rate, first)) as nat,
        ),
{
    let c1 = emitted(position, input_rate, output_rate, first);
    let middle = position_after(position, input_rate, output_rate, first);
    let rest = (k - c1) as nat;
    lemma_emitted_bounds(position, input_rate, output_rate, first);
    assert(k * input_rate == c1 * input_rate + rest * input_rate) by (nonlinear_arith)
        requires
            k == c1 + rest,
    ;
    let late = instant(middle, input_rate, rest);
    assert(instant(position, input_rate, k) == late + first * output_rate);
    let q = late / output_rate;
    let r = late % output_rate;
    lemma_fundamental_div_mod(late as int, output_rate as int);
    assert((first + q) * output_rate == first * output_rate + output_rate * q)
        by (nonlinear_arith);
    lemma_locate(position, input_rate, output_rate, k, first + q, r);
}

} // verus!
