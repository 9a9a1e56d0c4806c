//! The per-channel processing engine: one delay line and one feedback
//! filter per audio channel, driven one sample at a time.
//!
//! Per tick and channel the signal flow is:
//!
//! 1. convert the delay time to samples,
//! 2. update the filter coefficient for the current cutoff,
//! 3. read the delayed sample,
//! 4. filter it,
//! 5. scale it by the feedback amount,
//! 6. write input + feedback back into the delay line,
//! 7. mix dry and wet for the output — the wet side is the *pre-filter*
//!    delayed sample: the filter only colors what re-enters the loop,
//! 8. advance the write cursor.
//!
//! The write happens strictly after the read of the same tick, which is why
//! advancing the cursor is a separate final step; that ordering is what
//! makes very small delay amounts behave.  Channels are fully independent.
//! The engine holds no parameter state: each tick receives freshly resolved
//! parameter values from the caller's smoothing layer.

use vstd::prelude::*;
use vstd::arithmetic::div_mod::{
    lemma_div_is_ordered, lemma_div_is_ordered_by_denominator, lemma_div_multiples_vanish,
    lemma_div_pos_is_pos,
};
use crate::dsp::delay_line::{DelayLine, MAX_CAPACITY};
use crate::dsp::filter::{coeff_spec, OnePoleFilter, MAX_SAMPLE_RATE, MIN_SAMPLE_RATE};
use crate::fixedpoint::{ln_q, ln_spec, sadd, sat_add_spec, smul, smul_spec, SCALE, THREE_LN10};

verus! {

/// The feedback cap, 0.95 in Q32.32 (rounded up): at 1.0 and above the echo
/// train would never decay, so the parameter range stops short of it.
pub const FEEDBACK_MAX: i64 = 4080218932;

/// Saturation of an exact value to the `i64` range.
pub open spec fn sat64_spec(x: int) -> int {
    if x > i64::MAX as int {
        i64::MAX as int
    } else if x < i64::MIN as int {
        i64::MIN as int
    } else {
        x
    }
}

/// A delay time in milliseconds converted to samples (both Q32.32):
/// `delay_ms * sample_rate / 1000`, truncated toward zero and saturated.
pub open spec fn calc_delay_spec(delay_ms: int, sample_rate: int) -> int {
    if delay_ms >= 0 {
        sat64_spec(delay_ms * sample_rate / 1000 / (SCALE as int))
    } else {
        sat64_spec(-((-delay_ms) * sample_rate / 1000 / (SCALE as int)))
    }
}

/// Milliseconds to samples: `delay_ms * sample_rate / 1000`.  At 44100 Hz,
/// 500 ms becomes exactly 22050 samples.  The result is often fractional,
/// which is why the delay line interpolates.
pub fn calculate_delay_samples(delay_ms: i64, sample_rate: i64) -> (r: i64)
    requires
        1 <= sample_rate,
    ensures
        r == calc_delay_spec(delay_ms as int, sample_rate as int),
{
    let m: i128 = delay_ms as i128;
    let mag: u128 = if m < 0 {
        (-m) as u128
    } else {
        m as u128
    };
    proof {
        assert(mag * (sample_rate as u128) <= 0x8000_0000_0000_0000u128
            * 0x8000_0000_0000_0000u128) by (nonlinear_arith)
            requires
                mag <= 0x8000_0000_0000_0000u128,
                sample_rate as u128 <= 0x8000_0000_0000_0000u128,
        ;
        lemma_div_pos_is_pos(mag as int * sample_rate as int, 1000);
        lemma_div_pos_is_pos(mag as int * sample_rate as int / 1000, SCALE as int);
    }
    let v: u128 = mag * (sample_rate as u128) / 1000 / (SCALE as u128);
    if m < 0 {
        if v >= 0x8000_0000_0000_0000u128 {
            i64::MIN
        } else {
            (-(v as i128)) as i64
        }
    } else {
        if v > i64::MAX as u128 {
            i64::MAX
        } else {
            v as i64
        }
    }
}

/// The "no audible feedback" threshold of the tail estimate: 0.001 in
/// Q32.32, rounded down.
pub const FEEDBACK_SILENT: i64 = 4294967;

/// The advisory tail length, in whole samples, that a host should keep
/// processing after the input goes silent.  With audible feedback the echo
/// train decays to −60 dB after `-3 / log10(feedback)` repeats — written in
/// nats, `3·ln 10 / ln(1/feedback)` — each one delay period apart; with
/// feedback at or below the threshold a single echo remains.  The estimate
/// deliberately ignores the filter's own decay; it is advisory, and a host
/// may round it further.
pub open spec fn tail_spec(delay_samples: int, feedback: int) -> int {
    let s = SCALE as int;
    let d = if delay_samples < 0 {
        0
    } else {
        delay_samples
    };
    if feedback > FEEDBACK_SILENT as int {
        let repeats = (THREE_LN10 as int * s) / ln_spec((s * s) / feedback);
        (repeats * d) / (s * s)
    } else {
        d / s
    }
}

/// Estimate how many samples of tail the echo train still carries, given
/// the delay in samples and the feedback amount (both Q32.32).
pub fn estimate_tail_samples(delay_samples: i64, feedback: i64) -> (r: u64)
    requires
        0 <= feedback <= FEEDBACK_MAX,
    ensures
        r as int == tail_spec(delay_samples as int, feedback as int),
{
    let d: u64 = if delay_samples < 0 {
        0
    } else {
        delay_samples as u64
    };
    if feedback > FEEDBACK_SILENT {
        proof {
            // 1/feedback lies in [1 + 1/32, 1024], the logarithm's domain,
            // and far enough above 1 that the logarithm is sizable.
            lemma_div_is_ordered_by_denominator(
                0x1_0000_0000_0000_0000,
                FEEDBACK_SILENT as int + 1,
                feedback as int,
            );
            lemma_div_is_ordered_by_denominator(
                0x1_0000_0000_0000_0000,
                feedback as int,
                FEEDBACK_MAX as int,
            );
            lemma_div_pos_is_pos(0x1_0000_0000_0000_0000, feedback as int);
        }
        let z: u64 = (((SCALE as u128) * (SCALE as u128)) / (feedback as u128)) as u64;
        let l: i64 = ln_q(z);
        proof {
            lemma_div_is_ordered_by_denominator(
                THREE_LN10 as int * SCALE as int,
                SCALE as int / 64,
                l as int,
            );
            lemma_div_pos_is_pos(THREE_LN10 as int * SCALE as int, l as int);
        }
        let repeats: u128 = (THREE_LN10 as u128) * (SCALE as u128) / (l as u128);
        proof {
            assert(repeats * (d as u128) <= 1_898_789_312_704u128
                * 0x8000_0000_0000_0000u128) by (nonlinear_arith)
                requires
                    repeats <= 1_898_789_312_704u128,
                    (d as u128) <= 0x8000_0000_0000_0000u128,
            ;
            lemma_div_pos_is_pos(repeats as int * d as int, SCALE as int * SCALE as int);
            lemma_div_is_ordered(
                repeats as int * d as int,
                1_898_789_312_704int * 0x8000_0000_0000_0000,
                SCALE as int * SCALE as int,
            );
        }
        let t: u128 = repeats * (d as u128) / ((SCALE as u128) * (SCALE as u128));
        t as u64
    } else {
        d / (SCALE as u64)
    }
}

/// Per-channel storage: 2.1 seconds of samples at the given rate — the
/// 2-second maximum delay plus headroom for smoothing overshoot.
pub open spec fn capacity_spec(sample_rate: int) -> int {
    sample_rate * 21 / 10 / (SCALE as int)
}

/// The complete engine state: one (delay line, filter) pair per channel.
pub struct DelayEngine {
    /// The sample rate in Q32.32 Hz, fixed between initializations.
    pub sample_rate: i64,
    /// One delay line per channel.
    pub delay_lines: Vec<DelayLine>,
    /// One feedback filter per channel.
    pub filters: Vec<OnePoleFilter>,
}

impl DelayEngine {
    /// Structural invariant: a supported sample rate, one filter per delay
    /// line, and every component well formed.
    pub open spec fn wf(self) -> bool {
        &&& MIN_SAMPLE_RATE <= self.sample_rate <= MAX_SAMPLE_RATE
        &&& self.delay_lines@.len() == self.filters@.len()
        &&& forall|i: int|
            0 <= i < self.delay_lines@.len() ==> (#[trigger] self.delay_lines@[i]).wf()
        &&& forall|i: int| 0 <= i < self.filters@.len() ==> (#[trigger] self.filters@[i]).wf()
    }

    /// What one call of [`process_sample`](Self::process_sample) does, in
    /// full: how the output is formed, and how the channel's delay line and
    /// filter move on.  A channel index with no allocated state is skipped:
    /// the input passes through and nothing changes, so one malformed
    /// channel can never take down the whole block.
    pub open spec fn tick_post(
        pre: DelayEngine,
        post: DelayEngine,
        channel: int,
        input: int,
        delay_ms: int,
        feedback: int,
        mix: int,
        filter_cutoff: int,
        out: int,
    ) -> bool {
        if channel >= pre.delay_lines@.len() {
            &&& post == pre
            &&& out == input
        } else {
            let rate = pre.sample_rate as int;
            let line = pre.delay_lines@[channel];
            let delayed = line.read_spec(calc_delay_spec(delay_ms, rate));
            let a = coeff_spec(filter_cutoff, rate);
            let filtered = OnePoleFilter::step_spec(
                a,
                delayed,
                pre.filters@[channel].prev_output as int,
            );
            let written = sat_add_spec(input, smul_spec(filtered, feedback));
            &&& out == sat_add_spec(
                smul_spec(input, SCALE as int - mix),
                smul_spec(delayed, mix),
            )
            &&& post.sample_rate == pre.sample_rate
            &&& post.delay_lines@.len() == pre.delay_lines@.len()
            &&& post.filters@.len() == pre.filters@.len()
            &&& post.filters@[channel].coefficient == a
            &&& post.filters@[channel].prev_output == filtered
            &&& post.delay_lines@[channel].buffer_len == line.buffer_len
            &&& post.delay_lines@[channel].buffer@ == line.buffer@.update(
                line.write_pos as int,
                written as i64,
            )
            &&& post.delay_lines@[channel].write_pos == (line.write_pos + 1) % (
            line.buffer_len as int)
            &&& forall|j: int|
                0 <= j < pre.delay_lines@.len() && j != channel
                    ==> post.delay_lines@[j] == pre.delay_lines@[j]
            &&& forall|j: int|
                0 <= j < pre.filters@.len() && j != channel
                    ==> post.filters@[j] == pre.filters@[j]
        }
    }

    /// (Re)build the per-channel state for a sample rate and channel count.
    /// Any previous state is replaced; every buffer starts silent.  Always
    /// succeeds for the supported rate range, and says so.
    pub fn initialize(&mut self, sample_rate: i64, num_channels: usize) -> (r: bool)
        requires
            MIN_SAMPLE_RATE <= sample_rate <= MAX_SAMPLE_RATE,
            1 <= num_channels,
        ensures
            r == true,
            final(self).wf(),
            final(self).sample_rate == sample_rate,
            final(self).delay_lines@.len() == num_channels,
            final(self).filters@.len() == num_channels,
            forall|i: int|
                0 <= i < num_channels ==> {
                    let line = #[trigger] final(self).delay_lines@[i];
                    line.is_silent() && line.write_pos == 0 && line.buffer_len as int
                        == capacity_spec(sample_rate as int)
                },
            forall|i: int|
                0 <= i < num_channels ==> (#[trigger] final(self).filters@[i]).coefficient == 0
                    && final(self).filters@[i].prev_output == 0,
    {
        proof {
            // 210 <= capacity <= 2_100_000: positive and within MAX_CAPACITY.
            assert(100 * (SCALE as int) * 21 <= sample_rate as int * 21);
            lemma_div_is_ordered(100 * (SCALE as int) * 21, sample_rate as int * 21, 10);
            assert(100 * (SCALE as int) * 21 == 10 * (210 * SCALE as int));
            lemma_div_multiples_vanish(210 * SCALE as int, 10);
            lemma_div_is_ordered(210 * SCALE as int, sample_rate as int * 21 / 10, SCALE as int);
            lemma_div_multiples_vanish(210, SCALE as int);
            assert(210 * SCALE as int == SCALE as int * 210);
            assert(sample_rate as int * 21 <= 1_000_000 * (SCALE as int) * 21);
            lemma_div_is_ordered(sample_rate as int * 21, 1_000_000 * (SCALE as int) * 21, 10);
            assert(1_000_000 * (SCALE as int) * 21 == 10 * (2_100_000 * SCALE as int));
            lemma_div_multiples_vanish(2_100_000 * SCALE as int, 10);
            lemma_div_is_ordered(
                sample_rate as int * 21 / 10,
                2_100_000 * SCALE as int,
                SCALE as int,
            );
            lemma_div_multiples_vanish(2_100_000, SCALE as int);
            assert(2_100_000 * SCALE as int == SCALE as int * 2_100_000);
        }
        let cap: usize = ((sample_rate as u64) * 21 / 10 / (SCALE as u64)) as usize;
        self.sample_rate = sample_rate;
        let mut lines: Vec<DelayLine> = Vec::new();
        let mut filters: Vec<OnePoleFilter> = Vec::new();
        let mut i: usize = 0;
        while i < num_channels
            invariant
                i <= num_channels,
                lines@.len() == i,
                filters@.len() == i,
                1 <= cap <= MAX_CAPACITY,
                cap as int == capacity_spec(sample_rate as int),
                forall|j: int|
                    0 <= j < i ==> {
                        let line = #[trigger] lines@[j];
                        line.wf() && line.is_silent() && line.write_pos == 0
                            && line.buffer_len == cap
                    },
                forall|j: int|
                    0 <= j < i ==> (#[trigger] filters@[j]).coefficient == 0
                        && filters@[j].prev_output == 0 && filters@[j].wf(),
            decreases num_channels - i,
        {
            lines.push(DelayLine::new(cap));
            filters.push(OnePoleFilter::new());
            i = i + 1;
        }
        self.delay_lines = lines;
        self.filters = filters;
        true
    }

    /// Zero every delay buffer and every filter memory, so that stale audio
    /// cannot bleed into the next playback session.  Capacities, the sample
    /// rate and the filter coefficients are kept.
    pub fn reset(&mut self)
        requires
            old(self).wf(),
        ensures
            final(self).wf(),
            final(self).sample_rate == old(self).sample_rate,
            final(self).delay_lines@.len() == old(self).delay_lines@.len(),
            final(self).filters@.len() == old(self).filters@.len(),
            forall|i: int|
                0 <= i < old(self).delay_lines@.len() ==> {
                    let line = #[trigger] final(self).delay_lines@[i];
                    line.is_silent() && line.write_pos == 0
                        && line.buffer_len == old(self).delay_lines@[i].buffer_len
                },
            forall|i: int|
                0 <= i < old(self).filters@.len()
                    ==> (#[trigger] final(self).filters@[i]).prev_output == 0
                    && final(self).filters@[i].coefficient == old(self).filters@[i].coefficient,
    {
        let n: usize = self.delay_lines.len();
        let mut i: usize = 0;
        while i < n
            invariant
                old(self).wf(),
                i <= n,
                n == old(self).delay_lines@.len(),
                self.delay_lines@.len() == n,
                self.filters == old(self).filters,
                self.sample_rate == old(self).sample_rate,
                forall|j: int|
                    0 <= j < i ==> {
                        let line = #[trigger] self.delay_lines@[j];
                        line.wf() && line.is_silent() && line.write_pos == 0
                            && line.buffer_len == old(self).delay_lines@[j].buffer_len
                    },
                forall|j: int|
                    i <= j < n ==> #[trigger] self.delay_lines@[j] == old(self).delay_lines@[j],
            decreases n - i,
        {
            proof {
                assert(self.delay_lines@[i as int] == old(self).delay_lines@[i as int]);
            }
            let line = &mut self.delay_lines[i];
            line.clear();
            i = i + 1;
        }
        let m: usize = self.filters.len();
        let mut k: usize = 0;
        while k < m
            invariant
                old(self).wf(),
                k <= m,
                m == old(self).filters@.len(),
                self.filters@.len() == m,
                self.delay_lines@.len() == old(self).delay_lines@.len(),
                self.sample_rate == old(self).sample_rate,
                forall|j: int|
                    0 <= j < old(self).delay_lines@.len() ==> {
                        let line = #[trigger] self.delay_lines@[j];
                        line.wf() && line.is_silent() && line.write_pos == 0
                            && line.buffer_len == old(self).delay_lines@[j].buffer_len
                    },
                forall|j: int|
                    0 <= j < k ==> (#[trigger] self.filters@[j]).prev_output == 0
                        && self.filters@[j].coefficient == old(self).filters@[j].coefficient
                        && self.filters@[j].wf(),
                forall|j: int| k <= j < m ==> #[trigger] self.filters@[j] == old(self).filters@[j],
            decreases m - k,
        {
            proof {
                assert(self.filters@[k as int] == old(self).filters@[k as int]);
            }
            let filter = &mut self.filters[k];
            filter.reset();
            k = k + 1;
        }
    }

    /// Process one sample on one channel, under the parameter values that
    /// the caller's smoothing layer resolved for this tick.  Returns the
    /// output sample; the exact effect is [`tick_post`](Self::tick_post).
    pub fn process_sample(
        &mut self,
        channel: usize,
        input: i64,
        delay_ms: i64,
        feedback: i64,
        mix: i64,
        filter_cutoff: i64,
    ) -> (out: i64)
        requires
            old(self).wf(),
            0 <= feedback <= FEEDBACK_MAX,
            0 <= mix <= SCALE,
        ensures
            final(self).wf(),
            DelayEngine::tick_post(
                *old(self),
                *final(self),
                channel as int,
                input as int,
                delay_ms as int,
                feedback as int,
                mix as int,
                filter_cutoff as int,
                out as int,
            ),
    {
        if channel >= self.delay_lines.len() {
            return input;
        }
        let rate: i64 = self.sample_rate;
        let delay_samples: i64 = calculate_delay_samples(delay_ms, rate);
        let filter = &mut self.filters[channel];
        filter.set_cutoff(filter_cutoff, rate);
        let line = &self.delay_lines[channel];
        let delayed: i64 = line.read(delay_samples);
        let filtered: i64 = filter.process(delayed);
        let feedback_sample: i64 = smul(filtered, feedback);
        let written: i64 = sadd(input, feedback_sample);
        let line = &mut self.delay_lines[channel];
        line.write(written);
        let out: i64 = sadd(smul(input, SCALE - mix), smul(delayed, mix));
        line.advance();
        out
    }
}

/// An engine at rest stays at rest: on a channel whose delay line is
/// silent and whose filter memory is zero, a zero input sample yields a
/// zero output and leaves the channel silent again, under every parameter
/// setting.  Initialization and reset establish exactly this state, so
/// silence in means silence out until real audio arrives.
pub proof fn lemma_engine_silence(
    pre: DelayEngine,
    post: DelayEngine,
    channel: int,
    delay_ms: int,
    feedback: int,
    mix: int,
    filter_cutoff: int,
    out: int,
)
    requires
        pre.wf(),
        0 <= channel < pre.delay_lines@.len(),
        pre.delay_lines@[channel].is_silent(),
        pre.filters@[channel].prev_output == 0,
        DelayEngine::tick_post(pre, post, channel, 0, delay_ms, feedback, mix, filter_cutoff, out),
    ensures
        out == 0,
        post.delay_lines@[channel].is_silent(),
        post.filters@[channel].prev_output == 0,
{
    let rate = pre.sample_rate as int;
    let line = pre.delay_lines@[channel];
    crate::dsp::delay_line::lemma_silent_read(line, calc_delay_spec(delay_ms, rate));
    let a = coeff_spec(filter_cutoff, rate);
    assert(smul_spec(0, SCALE as int - a) == 0);
    assert(smul_spec(0, a) == 0);
    assert(smul_spec(0, feedback) == 0);
    assert(smul_spec(0, SCALE as int - mix) == 0);
    assert(smul_spec(0, mix) == 0);
    let posted = post.delay_lines@[channel];
    assert forall|i: int| 0 <= i < posted.buffer@.len() implies posted.buffer@[i] == 0i64 by {
        assert(posted.buffer@ == line.buffer@.update(line.write_pos as int, 0i64));
    }
}

impl Default for DelayEngine {
    /// An engine with no channels yet, at the conventional 44100 Hz; the
    /// real configuration arrives with [`DelayEngine::initialize`].
    fn default() -> (r: DelayEngine)
        ensures
            r.wf(),
            r.sample_rate == 44100 * SCALE,
            r.delay_lines@.len() == 0,
            r.filters@.len() == 0,
    {
        DelayEngine { sample_rate: 44100 * SCALE, delay_lines: Vec::new(), filters: Vec::new() }
    }
}

} // verus!
