//! The converter driven by kernels that make its decisions visible.

use polyphase::{resample, saturate, Resampler, NUM_PHASES, TAPS_PER_PHASE};

/// Answers with the phase it was asked for.
fn phase_probe(phase: usize, _window: &[i16; 16]) -> i32 {
    phase as i32
}

/// Answers with the newest sample of the window.
fn newest(_phase: usize, window: &[i16; 16]) -> i32 {
    window[TAPS_PER_PHASE - 1] as i32
}

/// Answers with the oldest sample of the window.
fn oldest(_phase: usize, window: &[i16; 16]) -> i32 {
    window[0] as i32
}

/// Must never be asked.
fn unreachable_kernel(_phase: usize, _window: &[i16; 16]) -> i32 {
    panic!("the kernel was consulted")
}

/// The mean of the window, rounded towards zero: unity gain on a constant.
fn mean(_phase: usize, window: &[i16; 16]) -> i32 {
    let sum: i32 = window.iter().map(|s| *s as i32).sum();
    sum / TAPS_PER_PHASE as i32
}

/// Mixes phase and every sample of the window, each with a weight of its own.
fn mix(phase: usize, window: &[i16; 16]) -> i32 {
    let mut acc: i64 = phase as i64 * 7;
    for (i, s) in window.iter().enumerate() {
        acc += (i as i64 + 1) * *s as i64;
    }
    (acc / 64) as i32
}

/// A repeatable signal that uses the whole 16-bit range.
fn signal(len: usize) -> Vec<i16> {
    let mut state: u32 = 0x2545_f491;
    let mut out = Vec::with_capacity(len);
    for _ in 0..len {
        state = state.wrapping_mul(1_664_525).wrapping_add(1_013_904_223);
        out.push((state >> 16) as u16 as i16);
    }
    out
}

fn ceil_div(a: u128, b: u128) -> usize {
    ((a + b - 1) / b) as usize
}

#[test]
fn constants_are_the_documented_ones() {
    assert_eq!(NUM_PHASES, 128);
    assert_eq!(TAPS_PER_PHASE, 16);
}

#[test]
fn one_shot_with_equal_rates_returns_the_input() {
    let input = signal(257);
    for rate in [0u32, 1, 8000, 44100, 48000, u32::MAX] {
        assert_eq!(resample(&input, rate, rate, unreachable_kernel), input);
    }
    let empty: Vec<i16> = Vec::new();
    assert_eq!(resample(&empty, 8000, 8000, unreachable_kernel), empty);
}

#[test]
fn streaming_with_equal_rates_returns_each_chunk() {
    let mut resampler = Resampler::new(16000, 16000, unreachable_kernel);
    let first = signal(40);
    let second = vec![i16::MIN, -1, 0, 1, i16::MAX];
    assert_eq!(resampler.resample(&first), first);
    assert_eq!(resampler.resample(&second), second);
    assert_eq!(resampler.resample(&[]), Vec::<i16>::new());
}

#[test]
fn empty_input_gives_empty_output() {
    let mut resampler = Resampler::new(8000, 48000, newest);
    assert!(resampler.resample(&[]).is_empty());
    assert!(resample(&[], 48000, 8000, newest).is_empty());
}

#[test]
fn output_length_is_the_ratio_rounded_up() {
    let cases: [(u32, u32, usize, usize); 10] = [
        (8000, 16000, 80, 160),
        (16000, 8000, 160, 80),
        (48000, 8000, 48000, 8000),
        (8000, 48000, 100, 600),
        (44100, 48000, 441, 480),
        (44100, 48000, 1, 2),
        (48000, 44100, 7, 7),
        (3, 2, 7, 5),
        (2, 3, 4, 6),
        (7, 1, 6, 1),
    ];
    for (input_rate, output_rate, len, expected) in cases {
        let input = vec![0i16; len];
        let output = resample(&input, input_rate, output_rate, newest);
        assert_eq!(output.len(), expected);
        assert_eq!(
            output.len(),
            ceil_div(len as u128 * output_rate as u128, input_rate as u128)
        );
    }
}

#[test]
fn output_length_grows_with_the_input() {
    let mut last = 0;
    for len in 0..200 {
        let output = resample(&vec![0i16; len], 44100, 16000, newest);
        assert!(output.len() >= last);
        assert!(output.len() - last <= 1);
        last = output.len();
    }
}

#[test]
fn phases_follow_the_timeline() {
    let input = vec![0i16; 4];
    assert_eq!(resample(&input, 2, 3, phase_probe), vec![0, 85, 42, 0, 85, 42]);
    assert_eq!(resample(&input, 1, 2, phase_probe), vec![0, 64, 0, 64, 0, 64, 0, 64]);
    assert_eq!(resample(&input, 1, 4, phase_probe)[..4], [0, 32, 64, 96]);
    assert_eq!(resample(&input, 2, 1, phase_probe), vec![0, 0]);
}

#[test]
fn phases_stay_below_the_number_of_phases() {
    let input = vec![0i16; 500];
    for (input_rate, output_rate) in [(44100u32, 48000u32), (8000, 44100), (1, 1000), (999, 1000)] {
        let output = resample(&input, input_rate, output_rate, phase_probe);
        assert!(output.iter().all(|p| (0..NUM_PHASES as i16).contains(p)));
        assert!(output.iter().any(|p| *p > 0));
    }
}

#[test]
fn upsampling_repeats_the_source_sample() {
    let input = vec![5i16, 7, -3];
    assert_eq!(resample(&input, 1, 2, newest), vec![5, 5, 7, 7, -3, -3]);
    assert_eq!(resample(&input, 2, 3, newest), vec![5, 5, 7, -3, -3]);
}

#[test]
fn downsampling_picks_the_source_sample() {
    let input: Vec<i16> = (0..20).collect();
    assert_eq!(resample(&input, 3, 1, newest), vec![0, 3, 6, 9, 12, 15, 18]);
    assert_eq!(resample(&input, 5, 2, newest), vec![0, 2, 5, 7, 10, 12, 15, 17]);
}

#[test]
fn window_reaches_back_fifteen_samples() {
    let input: Vec<i16> = (1..=40).collect();
    let output = resample(&input, 2, 1, oldest);
    // outputs fall on the input samples 0, 2, 4, ...; the oldest sample in the
    // window of input sample i is number i - 15, silence before the start
    let expected: Vec<i16> = (0..20).map(|k| if 2 * k >= 15 { 2 * k - 15 + 1 } else { 0 }).collect();
    assert_eq!(output, expected);
}

#[test]
fn history_carries_over_between_chunks() {
    let mut resampler = Resampler::new(1, 2, oldest);
    let first: Vec<i16> = (1..=10).collect();
    let second: Vec<i16> = (11..=20).collect();
    assert_eq!(resampler.resample(&first), vec![0i16; 20]);
    let output = resampler.resample(&second);
    // input sample number 15 (value 16) is the first whose window starts at
    // the first sample of the stream
    assert_eq!(output, vec![0, 0, 0, 0, 0, 0, 0, 0, 0, 0, 1, 1, 2, 2, 3, 3, 4, 4, 5, 5]);
}

#[test]
fn amplitudes_are_saturated() {
    assert_eq!(saturate(0), 0);
    assert_eq!(saturate(1000), 1000);
    assert_eq!(saturate(-1000), -1000);
    assert_eq!(saturate(32767), 32767);
    assert_eq!(saturate(32768), 32767);
    assert_eq!(saturate(-32768), -32768);
    assert_eq!(saturate(-32769), -32768);
    assert_eq!(saturate(i32::MAX), 32767);
    assert_eq!(saturate(i32::MIN), -32768);
}

#[test]
fn loud_output_sticks_to_the_bounds() {
    let doubling = |_phase: usize, window: &[i16; 16]| 2 * window[TAPS_PER_PHASE - 1] as i32;
    let input = vec![100i16, 16383, 16384, 30000, -16384, -16385, -30000];
    assert_eq!(
        resample(&input, 2, 1, doubling),
        vec![200, 32767, -32768, -32768]
    );
    assert_eq!(resample(&input, 1, 1, doubling), input);
    let mut resampler = Resampler::new(1, 2, doubling);
    assert_eq!(
        resampler.resample(&input),
        vec![200, 200, 32766, 32766, 32767, 32767, 32767, 32767, -32768, -32768, -32768, -32768, -32768, -32768]
    );
}

#[test]
fn two_chunks_equal_one_call() {
    let whole = signal(300);
    for (input_rate, output_rate) in [(8000usize, 16000usize), (48000, 8000), (44100, 48000), (48000, 44100), (3, 7)] {
        let mut fresh = Resampler::new(input_rate, output_rate, mix);
        let expected = fresh.resample(&whole);
        for cut in [0usize, 1, 15, 16, 17, 150, 299, 300] {
            let mut resampler = Resampler::new(input_rate, output_rate, mix);
            let mut output = resampler.resample(&whole[..cut]);
            output.extend(resampler.resample(&whole[cut..]));
            assert_eq!(output, expected);
        }
    }
}

#[test]
fn sample_by_sample_equals_one_call() {
    let whole = signal(200);
    let expected = resample(&whole, 44100, 16000, mix);
    let mut resampler = Resampler::new(44100, 16000, mix);
    let mut output = Vec::new();
    for s in &whole {
        output.extend(resampler.resample(&[*s]));
    }
    assert_eq!(output, expected);
}

#[test]
fn a_new_converter_per_chunk_loses_the_history() {
    let whole: Vec<i16> = (1..=40).collect();
    let expected = resample(&whole, 1, 2, oldest);
    let mut output = resample(&whole[..20], 1, 2, oldest);
    output.extend(resample(&whole[20..], 1, 2, oldest));
    assert_eq!(output.len(), expected.len());
    assert_ne!(output, expected);
}

#[test]
fn fresh_converters_agree() {
    let input = signal(500);
    let one = resample(&input, 44100, 48000, mix);
    let other = resample(&input, 44100, 48000, mix);
    assert_eq!(one, other);
    let mut a = Resampler::new(44100, 48000, mix);
    let mut b = Resampler::new(44100, 48000, mix);
    assert_eq!(a.resample(&input), one);
    assert_eq!(b.resample(&input), one);
}

#[test]
fn constant_signal_is_kept_once_the_window_is_full() {
    for (input_rate, output_rate) in [(8000u32, 16000u32), (16000, 8000), (44100, 48000)] {
        let input = vec![1000i16; 100];
        let output = resample(&input, input_rate, output_rate, mean);
        // output k falls on input sample k * input_rate / output_rate
        for (k, s) in output.iter().enumerate() {
            let source = k as u64 * input_rate as u64 / output_rate as u64;
            if source >= TAPS_PER_PHASE as u64 - 1 {
                assert_eq!(*s, 1000);
            } else {
                assert!(*s < 1000);
            }
        }
    }
}

#[test]
fn rates_near_the_machine_limit_are_exact() {
    let mut resampler = Resampler::new(usize::MAX, usize::MAX - 1, newest);
    assert_eq!(resampler.resample(&[1, 2, 3]), vec![1, 2, 3]);
    let mut resampler = Resampler::new(usize::MAX, usize::MAX - 1, phase_probe);
    assert_eq!(resampler.resample(&[0, 0, 0]), vec![0, 0, 0]);
    let mut resampler = Resampler::new(usize::MAX, 1, newest);
    assert_eq!(resampler.resample(&[9, 8, 7]), vec![9]);
    assert_eq!(resampler.resample(&[6, 5]), Vec::<i16>::new());
    let output = resample(&[4, 5], u32::MAX - 1, u32::MAX, phase_probe);
    assert_eq!(output, vec![0, 127, 127]);
}
