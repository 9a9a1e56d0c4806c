//! Delay line behavior: exact reads, interpolation, wrapping, clearing.

use loveless_delay::dsp::delay_line::DelayLine;

/// Convert a sample value to Q32.32 fixed point.
fn q(x: f64) -> i64 {
    (x * 4294967296.0).round() as i64
}

/// Convert a Q32.32 fixed-point value back to a float for comparisons.
fn fq(x: i64) -> f64 {
    x as f64 / 4294967296.0
}

/// Verify basic write-then-read at an exact sample position.
#[test]
fn test_write_and_read_exact() {
    let mut dl = DelayLine::new(100);

    // Write 0.75 at position 0, then advance to position 1.
    dl.write(q(0.75));
    dl.advance();

    // Reading 1 sample back should give us the 0.75 we just wrote.
    let result = fq(dl.read(q(1.0)));
    assert!((result - 0.75).abs() < 1e-6, "Expected 0.75, got {result}");
}

/// Verify linear interpolation between two samples.
#[test]
fn test_interpolation() {
    let mut dl = DelayLine::new(100);

    // Write two known values: 0.0 at pos 0, then 1.0 at pos 1.
    dl.write(q(0.0));
    dl.advance();
    dl.write(q(1.0));
    dl.advance();

    // Reading 1.5 samples back blends the two half and half.
    let result = fq(dl.read(q(1.5)));
    assert!((result - 0.5).abs() < 1e-6, "Expected 0.5, got {result}");
}

/// Verify the buffer wraps correctly past its boundaries.
#[test]
fn test_wrapping() {
    let mut dl = DelayLine::new(4);

    // Write values 0 through 5 into a buffer of size 4: the buffer keeps
    // the last 4 values written.
    for i in 0..6 {
        dl.write(q(i as f64));
        dl.advance();
    }

    // Reading 1 sample back returns the most recent value.
    let result = fq(dl.read(q(1.0)));
    assert!((result - 5.0).abs() < 1e-6, "Expected 5.0, got {result}");
}

/// A delay beyond the capacity is clamped to the oldest still-readable
/// sample, consistent with the overwritten history.
#[test]
fn test_wrapping_oldest_retained() {
    let mut dl = DelayLine::new(4);
    for i in 0..6 {
        dl.write(q(i as f64));
        dl.advance();
    }

    // Capacity 4 keeps values 2..5; the largest readable whole delay is 3,
    // which reaches the value 3.0, and a request for 5 clamps to it.
    let result = fq(dl.read(q(5.0)));
    assert!((result - 3.0).abs() < 1e-6, "Expected 3.0, got {result}");
}

/// Verify that clearing resets everything to silence.
#[test]
fn test_clear() {
    let mut dl = DelayLine::new(10);

    dl.write(q(0.5));
    dl.advance();
    dl.clear();

    // After clearing, reading anywhere should return 0.0.
    let result = fq(dl.read(q(1.0)));
    assert!(result.abs() < 1e-6, "Expected 0.0 after clear, got {result}");
}

/// A buffer initialized to silence should output silence at any delay.
#[test]
fn test_silence_in_silence_out() {
    let dl = DelayLine::new(100);

    for delay in [1.0, 10.0, 50.0, 99.0] {
        let result = fq(dl.read(q(delay)));
        assert!(
            result.abs() < 1e-6,
            "Expected silence at delay {delay}, got {result}"
        );
    }
}

/// Fractional delays over silence are silent too, at every fraction.
#[test]
fn test_silence_fractional_delays() {
    let dl = DelayLine::new(100);
    for delay in [0.25, 1.5, 49.9, 98.75] {
        let result = dl.read(q(delay));
        assert_eq!(result, 0, "Expected exact silence at delay {delay}");
    }
}

/// Verify that writing multiple samples and reading them back produces the
/// correct sequence (FIFO behavior).
#[test]
fn test_fifo_sequence() {
    let mut dl = DelayLine::new(10);

    // Write a recognizable sequence: 1, 2, 3, 4, 5.
    for i in 1..=5 {
        dl.write(q(i as f64));
        dl.advance();
    }

    // Read back in order: most recent first.
    assert!((fq(dl.read(q(1.0))) - 5.0).abs() < 1e-6);
    assert!((fq(dl.read(q(2.0))) - 4.0).abs() < 1e-6);
    assert!((fq(dl.read(q(3.0))) - 3.0).abs() < 1e-6);
    assert!((fq(dl.read(q(4.0))) - 2.0).abs() < 1e-6);
    assert!((fq(dl.read(q(5.0))) - 1.0).abs() < 1e-6);
}

/// A whole-delay read is exact to the bit, not merely within tolerance.
#[test]
fn test_whole_delay_read_is_exact() {
    let mut dl = DelayLine::new(16);
    let v = q(0.123456789);
    dl.write(v);
    dl.advance();
    assert_eq!(dl.read(q(1.0)), v);

    let w = q(-0.987654321);
    dl.write(w);
    dl.advance();
    assert_eq!(dl.read(q(1.0)), w);
    assert_eq!(dl.read(q(2.0)), v);
}

/// Negative delay amounts clamp to zero instead of failing.
#[test]
fn test_negative_delay_clamps() {
    let mut dl = DelayLine::new(8);
    dl.write(q(0.25));
    // Delay 0 reads the slot about to be overwritten (just written, not
    // yet advanced past), and a negative request behaves the same.
    assert_eq!(dl.read(q(-3.0)), dl.read(0));
}
