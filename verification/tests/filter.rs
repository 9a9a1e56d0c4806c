//! One-pole filter behavior: passthrough, attenuation, coefficient range,
//! reset, and DC response.

use loveless_delay::dsp::filter::OnePoleFilter;

/// Convert a value to Q32.32 fixed point.
fn q(x: f64) -> i64 {
    (x * 4294967296.0).round() as i64
}

/// Convert a Q32.32 fixed-point value back to a float for comparisons.
fn fq(x: i64) -> f64 {
    x as f64 / 4294967296.0
}

/// With coefficient = 0 (the initial state), the filter passes input
/// through unchanged, so the effect is transparent at maximum cutoff.
#[test]
fn test_passthrough_when_coefficient_zero() {
    let mut filter = OnePoleFilter::new();

    assert!(
        (fq(filter.process(q(1.0))) - 1.0).abs() < 1e-6,
        "Filter should pass 1.0 through unchanged"
    );
    assert!(
        (fq(filter.process(q(0.5))) - 0.5).abs() < 1e-6,
        "Filter should pass 0.5 through unchanged"
    );
    assert!(
        (fq(filter.process(q(-0.3))) - (-0.3)).abs() < 1e-6,
        "Filter should pass -0.3 through unchanged"
    );
}

/// A very low cutoff should heavily attenuate a signal alternating between
/// +1 and -1 every sample — the highest representable frequency.
#[test]
fn test_filter_attenuates_high_freq() {
    let mut filter = OnePoleFilter::new();
    filter.set_cutoff(q(100.0), q(44100.0)); // Very low cutoff

    let mut max_output = 0.0_f64;
    for i in 0..1000 {
        let input = if i % 2 == 0 { q(1.0) } else { q(-1.0) };
        let output = fq(filter.process(input));
        max_output = max_output.max(output.abs());
    }

    // A 100 Hz lowpass should reduce a ~22050 Hz signal to almost nothing.
    assert!(
        max_output < 0.05,
        "Expected heavy attenuation, got max output {max_output}"
    );
}

/// Verify that the coefficient is in the expected range for different
/// cutoff frequencies. This catches math errors in set_cutoff().
#[test]
fn test_coefficient_range() {
    let mut filter = OnePoleFilter::new();

    // High cutoff (near Nyquist): coefficient should be small (near 0).
    filter.set_cutoff(q(20000.0), q(44100.0));
    assert!(
        fq(filter.coefficient) < 0.1,
        "High cutoff should give small coefficient, got {}",
        fq(filter.coefficient)
    );

    // Low cutoff: coefficient should be large (near 1).
    filter.set_cutoff(q(20.0), q(44100.0));
    assert!(
        fq(filter.coefficient) > 0.99,
        "Low cutoff should give large coefficient, got {}",
        fq(filter.coefficient)
    );
}

/// Verify that reset() clears the filter's memory.
#[test]
fn test_reset_clears_state() {
    let mut filter = OnePoleFilter::new();
    filter.set_cutoff(q(1000.0), q(44100.0));

    // Process a sample so prev_output is non-zero.
    filter.process(q(1.0));
    assert!(
        fq(filter.prev_output).abs() > 0.0,
        "prev_output should be non-zero after processing"
    );

    filter.reset();
    assert!(
        fq(filter.prev_output).abs() < 1e-6,
        "prev_output should be zero after reset"
    );
}

/// A DC signal (constant value) should pass through the lowpass filter
/// unchanged, regardless of cutoff frequency.
#[test]
fn test_dc_passes_through() {
    let mut filter = OnePoleFilter::new();
    filter.set_cutoff(q(100.0), q(44100.0)); // Very low cutoff

    // Feed constant 1.0 for many samples. The output should converge to 1.0.
    let mut output = 0.0;
    for _ in 0..10000 {
        output = fq(filter.process(q(1.0)));
    }

    assert!(
        (output - 1.0).abs() < 1e-4,
        "DC signal should pass through lowpass, got {output}"
    );
}

/// A lower cutoff attenuates a maximum-frequency signal more than a higher
/// cutoff does.
#[test]
fn test_attenuation_monotonic_in_cutoff() {
    let mut steady = [0.0_f64; 2];
    for (slot, cutoff) in [200.0, 2000.0].into_iter().enumerate() {
        let mut filter = OnePoleFilter::new();
        filter.set_cutoff(q(cutoff), q(44100.0));
        let mut max_output = 0.0_f64;
        for i in 0..2000 {
            let input = if i % 2 == 0 { q(1.0) } else { q(-1.0) };
            let output = fq(filter.process(input));
            // Measure the steady state, after the filter has settled.
            if i >= 1000 {
                max_output = max_output.max(output.abs());
            }
        }
        steady[slot] = max_output;
    }
    assert!(
        steady[0] < steady[1],
        "Lower cutoff should attenuate more: {} vs {}",
        steady[0],
        steady[1]
    );
}

/// The filter's memory is exactly the value it last returned.
#[test]
fn test_prev_output_tracks_result() {
    let mut filter = OnePoleFilter::new();
    filter.set_cutoff(q(500.0), q(48000.0));
    let out = filter.process(q(0.7));
    assert_eq!(filter.prev_output, out);
    let out2 = filter.process(q(-0.2));
    assert_eq!(filter.prev_output, out2);
    assert_ne!(out, out2);
}
