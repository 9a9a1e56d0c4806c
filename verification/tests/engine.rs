//! End-to-end engine behavior: the per-sample signal flow, initialization,
//! reset, channel handling, and the tail estimate.

use loveless_delay::engine::{calculate_delay_samples, estimate_tail_samples, DelayEngine};

/// Convert a value to Q32.32 fixed point.
fn q(x: f64) -> i64 {
    (x * 4294967296.0).round() as i64
}

/// Convert a Q32.32 fixed-point value back to a float for comparisons.
fn fq(x: i64) -> f64 {
    x as f64 / 4294967296.0
}

/// 500 ms at 44100 Hz is exactly 22050 samples.
#[test]
fn test_calculate_delay_samples() {
    assert_eq!(calculate_delay_samples(q(500.0), q(44100.0)), q(22050.0));
    assert_eq!(calculate_delay_samples(q(100.0), q(44100.0)), q(4410.0));
    assert_eq!(calculate_delay_samples(q(2000.0), q(44100.0)), q(88200.0));
    assert_eq!(calculate_delay_samples(q(0.0), q(48000.0)), 0);
}

/// Initialization sizes each channel to 2.1 seconds of storage and starts
/// from silence.
#[test]
fn test_initialize_capacity_and_channels() {
    let mut engine = DelayEngine::default();
    assert!(engine.initialize(q(44100.0), 2));
    assert_eq!(engine.delay_lines.len(), 2);
    assert_eq!(engine.filters.len(), 2);
    // floor(2.1 * 44100) = 92610 samples per channel.
    assert_eq!(engine.delay_lines[0].buffer_len, 92610);
    assert_eq!(engine.delay_lines[0].write_pos, 0);
    assert_eq!(engine.filters[0].coefficient, 0);
    assert_eq!(engine.filters[0].prev_output, 0);
}

/// An impulse with no feedback and a fully wet mix produces exactly one
/// echo, one delay period later.
#[test]
fn test_single_echo_impulse() {
    let mut engine = DelayEngine::default();
    assert!(engine.initialize(q(44100.0), 1));
    let delay_ms = q(500.0); // 22050 samples
    let cutoff = q(20000.0);
    let mut echo = 0.0_f64;
    for t in 0..44101_usize {
        let input = if t == 0 { q(1.0) } else { 0 };
        let out = engine.process_sample(0, input, delay_ms, 0, q(1.0), cutoff);
        if t == 22050 {
            echo = fq(out);
        } else {
            assert!(
                fq(out).abs() < 1e-6,
                "Expected silence at tick {t}, got {}",
                fq(out)
            );
        }
    }
    assert!((echo - 1.0).abs() < 1e-6, "Expected unit echo, got {echo}");
}

/// With feedback 0.5 the echo train repeats each delay period, decaying
/// roughly geometrically (the feedback filter colors each repeat).
#[test]
fn test_feedback_echo_train() {
    let mut engine = DelayEngine::default();
    assert!(engine.initialize(q(44100.0), 1));
    let delay_ms = q(500.0); // 22050 samples
    let cutoff = q(20000.0);
    let feedback = q(0.5);
    let mut peaks = [0.0_f64; 3];
    for t in 0..66200_usize {
        let input = if t == 0 { q(1.0) } else { 0 };
        let out = engine.process_sample(0, input, delay_ms, feedback, q(1.0), cutoff);
        match t {
            22050 => peaks[0] = fq(out),
            44100 => peaks[1] = fq(out),
            66150 => peaks[2] = fq(out),
            _ => {}
        }
    }
    // First echo is the impulse itself, unscaled (mix 1.0, no feedback on
    // the first pass through the line).
    assert!((peaks[0] - 1.0).abs() < 1e-6, "first echo {}", peaks[0]);
    // Second echo carries feedback 0.5, slightly darkened by the filter.
    assert!((peaks[1] - 0.47).abs() < 0.02, "second echo {}", peaks[1]);
    // Third echo decays by roughly the same factor again.
    assert!((peaks[2] - 0.22).abs() < 0.02, "third echo {}", peaks[2]);
    assert!(peaks[0] > peaks[1] && peaks[1] > peaks[2]);
}

/// A fully dry mix returns the input unchanged, echoes suppressed.
#[test]
fn test_dry_mix_passthrough() {
    let mut engine = DelayEngine::default();
    assert!(engine.initialize(q(48000.0), 1));
    for t in 0..100_usize {
        let input = q(((t % 7) as f64 - 3.0) / 4.0);
        let out = engine.process_sample(0, input, q(250.0), q(0.4), 0, q(8000.0));
        assert_eq!(out, input, "dry output must equal input at tick {t}");
    }
}

/// A channel index with no allocated state passes the input through and
/// changes nothing, instead of failing the whole block.
#[test]
fn test_missing_channel_is_skipped() {
    let mut engine = DelayEngine::default();
    assert!(engine.initialize(q(44100.0), 1));
    let input = q(0.625);
    let out = engine.process_sample(5, input, q(500.0), q(0.5), q(1.0), q(8000.0));
    assert_eq!(out, input);
    // The allocated channel is untouched: a wet read is still silent.
    let out0 = engine.process_sample(0, 0, q(500.0), 0, q(1.0), q(8000.0));
    assert_eq!(out0, 0);
}

/// Reset forces every delay buffer and filter memory back to silence.
#[test]
fn test_reset_clears_engine() {
    let mut engine = DelayEngine::default();
    assert!(engine.initialize(q(44100.0), 2));
    for t in 0..500_usize {
        let input = if t % 2 == 0 { q(0.8) } else { q(-0.8) };
        engine.process_sample(0, input, q(5.0), q(0.9), q(0.5), q(2000.0));
        engine.process_sample(1, input, q(5.0), q(0.9), q(0.5), q(2000.0));
    }
    engine.reset();
    assert_eq!(engine.filters[0].prev_output, 0);
    assert_eq!(engine.filters[1].prev_output, 0);
    assert_eq!(engine.delay_lines[0].write_pos, 0);
    // With silent input and a fully wet mix, the output after reset is
    // exact silence: no stale audio bleeds through.
    for t in 0..200_usize {
        let out = engine.process_sample(0, 0, q(5.0), q(0.9), q(1.0), q(2000.0));
        assert_eq!(out, 0, "stale audio after reset at tick {t}");
    }
}

/// Tail length with no feedback: a single echo, one delay period.
#[test]
fn test_tail_without_feedback() {
    assert_eq!(estimate_tail_samples(q(22050.0), 0), 22050);
    // 0.001 rounds down to the threshold itself, still "no feedback".
    assert_eq!(estimate_tail_samples(q(22050.0), q(0.001)), 22050);
    // A negative delay contributes no tail.
    assert_eq!(estimate_tail_samples(q(-10.0), 0), 0);
}

/// Tail length with feedback follows -3 / log10(feedback) repeats: about
/// 9.97 repeats at feedback 0.5, about 134.7 at 0.95.
#[test]
fn test_tail_with_feedback() {
    let half = estimate_tail_samples(q(22050.0), q(0.5));
    assert!(
        (219_000..=220_500).contains(&half),
        "tail at feedback 0.5: {half}"
    );
    let heavy = estimate_tail_samples(q(22050.0), q(0.95));
    assert!(
        (2_940_000..=3_000_000).contains(&heavy),
        "tail at feedback 0.95: {heavy}"
    );
    let light = estimate_tail_samples(q(22050.0), q(0.0011));
    assert!(
        (22_050..=22_700).contains(&light),
        "tail at feedback 0.0011: {light}"
    );
}

/// The default engine has no channels and the conventional rate; process
/// calls pass audio through until initialization.
#[test]
fn test_default_engine_passthrough() {
    let mut engine = DelayEngine::default();
    assert_eq!(engine.sample_rate, q(44100.0));
    assert_eq!(engine.delay_lines.len(), 0);
    let input = q(0.3);
    assert_eq!(
        engine.process_sample(0, input, q(500.0), q(0.4), q(0.5), q(8000.0)),
        input
    );
}

/// Sub-sample delays stay glitch-free: with a fractional delay under one
/// sample, the same-tick write feeds the interpolated read of the next.
#[test]
fn test_fractional_delay_blend() {
    let mut engine = DelayEngine::default();
    assert!(engine.initialize(q(44100.0), 1));
    // Delay of half a sample: 0.5 / 44.1 ms.
    let delay_ms = q(0.5 / 44.1);
    let out0 = engine.process_sample(0, q(1.0), delay_ms, 0, q(1.0), q(20000.0));
    // First tick: the line was silent a half-sample ago on the older tap,
    // and the write of this tick has not advanced yet.
    let out1 = engine.process_sample(0, 0, delay_ms, 0, q(1.0), q(20000.0));
    // Second tick: the 1.0 written one tick ago sits half a sample back.
    assert!(fq(out0).abs() < 1e-6, "tick 0: {}", fq(out0));
    assert!((fq(out1) - 0.5).abs() < 1e-6, "tick 1: {}", fq(out1));
}
