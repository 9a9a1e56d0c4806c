//! A ring buffer that works as an audio delay line.
//!
//! A "write head" stores each incoming sample at `write_pos`; reading `N`
//! samples behind the write head retrieves audio from `N` sample periods
//! ago.  The position wraps at `buffer_len`, so the buffer is a continuously
//! moving window over the most recent `buffer_len` samples.
//!
//! The buffer is allocated once, at its maximum size, and never grows:
//! changing the delay time only moves the read position, so the per-sample
//! path performs no allocation.
//!
//! Delay amounts are Q32.32 fixed point and may be fractional: reading
//! between two stored samples blends them linearly,
//! `sample_a * (1 - frac) + sample_b * frac`, which keeps the output free of
//! "zipper noise" when the delay time is automated.  When `frac` is zero the
//! read returns `sample_a` exactly — in integer arithmetic this identity is
//! proved, not approximated (see [`lemma_read_whole_delay`]).

use vstd::prelude::*;
use vstd::arithmetic::div_mod::{
    lemma_div_is_ordered, lemma_div_multiples_vanish, lemma_div_pos_is_pos,
    lemma_fundamental_div_mod, lemma_fundamental_div_mod_converse, lemma_mod_bound,
    lemma_mod_multiples_basic, lemma_sub_mod_noop_right,
};
use vstd::arithmetic::mul::lemma_mul_inequality;
use crate::fixedpoint::{sadd, sat_add_spec, smul, smul_spec, SCALE};

verus! {

/// The largest supported capacity, in samples.  It keeps every index
/// computation and every Q32.32 delay amount comfortably inside the 64-bit
/// range (a billion samples is hours of audio at any real sample rate).
pub const MAX_CAPACITY: usize = 0x4000_0000;

/// A fixed-capacity circular store of past samples.
pub struct DelayLine {
    /// The circular buffer of samples; all slots start at 0 (silence).
    pub buffer: Vec<i64>,
    /// Where the next incoming sample will be stored.  Advances by one per
    /// sample tick, wrapping to 0 at `buffer_len`.
    pub write_pos: usize,
    /// The capacity, fixed at construction; equals `buffer.len()`.
    pub buffer_len: usize,
}

impl DelayLine {
    /// Structural invariant: non-empty bounded storage, cursor in range.
    pub open spec fn wf(self) -> bool {
        &&& self.buffer_len == self.buffer@.len()
        &&& 1 <= self.buffer_len <= MAX_CAPACITY
        &&& self.write_pos < self.buffer_len
    }

    /// Every stored sample is zero.
    pub open spec fn is_silent(self) -> bool {
        forall|i: int| 0 <= i < self.buffer@.len() ==> self.buffer@[i] == 0i64
    }

    /// The sample `k` positions behind the write head, `0 <= k <= buffer_len`
    /// (`tap(0)` is the slot the next write will fill).
    pub open spec fn tap(self, k: int) -> i64 {
        self.buffer@[(self.write_pos + self.buffer_len - k) % (self.buffer_len as int)]
    }

    /// What [`read`](Self::read) returns: the delay amount is clamped to
    /// `[0, (buffer_len - 1) * SCALE]`, split into whole part `d` and
    /// fractional part `f`, and the two adjacent taps are blended linearly.
    pub open spec fn read_spec(self, delay: int) -> int {
        let maxd = (self.buffer_len as int - 1) * (SCALE as int);
        let c = if delay < 0 {
            0
        } else if delay > maxd {
            maxd
        } else {
            delay
        };
        let d = c / (SCALE as int);
        let f = c - d * (SCALE as int);
        sat_add_spec(
            smul_spec(self.tap(d) as int, SCALE as int - f),
            smul_spec(self.tap(d + 1) as int, f),
        )
    }

    /// Create a delay line holding `max_length` zeroed samples.
    ///
    /// The capacity must be positive: zero-length ring arithmetic is
    /// undefined, so a zero capacity is rejected before any audio flows.
    pub fn new(max_length: usize) -> (r: DelayLine)
        requires
            1 <= max_length <= MAX_CAPACITY,
        ensures
            r.wf(),
            r.is_silent(),
            r.buffer_len == max_length,
            r.write_pos == 0,
    {
        let mut buffer: Vec<i64> = Vec::new();
        let mut i: usize = 0;
        while i < max_length
            invariant
                i <= max_length,
                buffer@.len() == i,
                forall|j: int| 0 <= j < i ==> buffer@[j] == 0i64,
            decreases max_length - i,
        {
            buffer.push(0);
            i = i + 1;
        }
        DelayLine { buffer, write_pos: 0, buffer_len: max_length }
    }

    /// Store `sample` at the current write position.
    ///
    /// This does not advance the cursor: [`advance`](Self::advance) is a
    /// separate, later step so that the read of a tick can see the state
    /// from before that tick's write.
    pub fn write(&mut self, sample: i64)
        requires
            old(self).wf(),
        ensures
            final(self).wf(),
            final(self).buffer@ == old(self).buffer@.update(old(self).write_pos as int, sample),
            final(self).write_pos == old(self).write_pos,
            final(self).buffer_len == old(self).buffer_len,
    {
        let wp: usize = self.write_pos;
        self.buffer.set(wp, sample);
    }

    /// Read a delayed sample with linear interpolation; the exact result is
    /// pinned by [`read_spec`](Self::read_spec).
    pub fn read(&self, delay: i64) -> (r: i64)
        requires
            self.wf(),
        ensures
            r == self.read_spec(delay as int),
    {
        proof {
            assert((self.buffer_len as int - 1) * (SCALE as int) <= 0x4000_0000_0000_0000i64 as int)
                by (nonlinear_arith)
                requires
                    self.buffer_len as int <= 0x4000_0000,
            ;
        }
        let max_delay: i64 = ((self.buffer_len - 1) as i64) * SCALE;
        let clamped: i64 = if delay < 0 {
            0
        } else if delay > max_delay {
            max_delay
        } else {
            delay
        };
        let d_wide: u64 = (clamped as u64) / (SCALE as u64);
        proof {
            lemma_div_is_ordered(
                clamped as int,
                (self.buffer_len as int - 1) * (SCALE as int),
                SCALE as int,
            );
            lemma_div_multiples_vanish(self.buffer_len as int - 1, SCALE as int);
            lemma_div_pos_is_pos(clamped as int, SCALE as int);
        }
        let d: usize = d_wide as usize;
        proof {
            lemma_fundamental_div_mod(clamped as int, SCALE as int);
            lemma_mod_bound(clamped as int, SCALE as int);
        }
        let frac: i64 = clamped - (d as i64) * SCALE;
        let ia: usize = (self.write_pos + self.buffer_len - d) % self.buffer_len;
        let ib: usize = (self.write_pos + self.buffer_len - d - 1) % self.buffer_len;
        proof {
            lemma_mod_bound(
                (self.write_pos + self.buffer_len - d) as int,
                self.buffer_len as int,
            );
            lemma_mod_bound(
                (self.write_pos + self.buffer_len - d - 1) as int,
                self.buffer_len as int,
            );
            assert(ia as int == (self.write_pos + self.buffer_len - d) % (self.buffer_len as int));
            assert(ib as int == (self.write_pos + self.buffer_len - (d + 1)) % (
            self.buffer_len as int));
        }
        let sample_a: i64 = self.buffer[ia];
        let sample_b: i64 = self.buffer[ib];
        sadd(smul(sample_a, SCALE - frac), smul(sample_b, frac))
    }

    /// Advance the write position by one sample, wrapping at the capacity.
    /// Called exactly once per sample tick, after that tick's read and write.
    pub fn advance(&mut self)
        requires
            old(self).wf(),
        ensures
            final(self).wf(),
            final(self).write_pos == (old(self).write_pos + 1) % (old(self).buffer_len as int),
            final(self).buffer@ == old(self).buffer@,
            final(self).buffer_len == old(self).buffer_len,
    {
        self.write_pos = (self.write_pos + 1) % self.buffer_len;
    }

    /// Zero the whole buffer and reset the write position, so no stale audio
    /// bleeds into the next playback session.
    pub fn clear(&mut self)
        requires
            old(self).wf(),
        ensures
            final(self).wf(),
            final(self).is_silent(),
            final(self).write_pos == 0,
            final(self).buffer_len == old(self).buffer_len,
    {
        let n: usize = self.buffer.len();
        let mut i: usize = 0;
        while i < n
            invariant
                i <= n,
                self.buffer@.len() == n,
                self.buffer_len == old(self).buffer_len,
                self.write_pos == old(self).write_pos,
                n == old(self).buffer_len,
                forall|j: int| 0 <= j < i ==> self.buffer@[j] == 0i64,
            decreases n - i,
        {
            self.buffer.set(i, 0);
            i = i + 1;
        }
        self.write_pos = 0;
    }
}

/// What slot `i` holds after a line of capacity `cap` has been fed the
/// history `vs` starting from silence (one write + advance per sample):
/// the most recent sample written to that slot, or 0 if none ever was.
pub open spec fn fed_slot(cap: int, vs: Seq<i64>, i: int) -> i64 {
    let m = vs.len() as int;
    let back = (cap + m - 1 - i) % cap;
    if back <= m - 1 {
        vs[m - 1 - back]
    } else {
        0i64
    }
}

impl DelayLine {
    /// The line is exactly the state reached from a fresh line by feeding
    /// the history `vs`, one write + advance per sample.
    pub open spec fn is_fed(self, vs: Seq<i64>) -> bool {
        &&& self.wf()
        &&& self.write_pos == vs.len() as int % (self.buffer_len as int)
        &&& forall|i: int|
            0 <= i < self.buffer_len ==> self.buffer@[i] == fed_slot(
                self.buffer_len as int,
                vs,
                i,
            )
    }
}

/// A fresh (or freshly cleared) line is the fed-state of the empty history.
pub proof fn lemma_fresh_is_fed(line: DelayLine)
    requires
        line.wf(),
        line.is_silent(),
        line.write_pos == 0,
    ensures
        line.is_fed(Seq::<i64>::empty()),
{
    let cap = line.buffer_len as int;
    assert forall|i: int| 0 <= i < cap implies line.buffer@[i] == fed_slot(
        cap,
        Seq::<i64>::empty(),
        i,
    ) by {
        lemma_mod_bound(cap - 1 - i, cap);
    }
}

/// Wrap-around correctness of a single tick: writing `v` and advancing
/// takes the line from history `vs` to history `vs.push(v)` — also when
/// the cursor wraps and the write lands on the oldest retained sample.
pub proof fn lemma_feed(pre: DelayLine, post: DelayLine, vs: Seq<i64>, v: i64)
    requires
        pre.is_fed(vs),
        post.buffer_len == pre.buffer_len,
        post.buffer@ == pre.buffer@.update(pre.write_pos as int, v),
        post.write_pos == (pre.write_pos + 1) % (pre.buffer_len as int),
    ensures
        post.is_fed(vs.push(v)),
{
    let cap = pre.buffer_len as int;
    let m = vs.len() as int;
    let wp = pre.write_pos as int;
    lemma_mod_bound(wp + 1, cap);
    lemma_fundamental_div_mod(m, cap);
    assert(cap * (m / cap + 1) == cap * (m / cap) + cap) by (nonlinear_arith);
    assert(cap * (m / cap) == (m / cap) * cap) by (nonlinear_arith);
    assert(cap * (m / cap + 1) == (m / cap + 1) * cap) by (nonlinear_arith);
    // The new cursor position is (m + 1) % cap.
    if wp + 1 == cap {
        lemma_fundamental_div_mod_converse(m + 1, cap, m / cap + 1, 0);
        vstd::arithmetic::div_mod::lemma_mod_self_0(cap);
    } else {
        lemma_fundamental_div_mod_converse(m + 1, cap, m / cap, wp + 1);
        vstd::arithmetic::div_mod::lemma_small_mod((wp + 1) as nat, cap as nat);
    }
    assert(post.write_pos == (m + 1) % cap);
    assert forall|i: int| 0 <= i < cap implies post.buffer@[i] == fed_slot(
        cap,
        vs.push(v),
        i,
    ) by {
        if i == wp {
            // The slot just written: zero ticks behind the new history.
            lemma_mod_multiples_basic(m / cap + 1, cap);
            assert(cap + m - i == (m / cap + 1) * cap);
            assert((cap + m - i) % cap == 0);
        } else {
            // Any other slot is now one tick further behind, and holds what
            // it held before.
            let back = (cap + m - 1 - i) % cap;
            lemma_mod_bound(cap + m - 1 - i, cap);
            lemma_fundamental_div_mod(cap + m - 1 - i, cap);
            let q = (cap + m - 1 - i) / cap;
            assert(cap * q == q * cap) by (nonlinear_arith);
            if back == cap - 1 {
                // A slot a whole lap behind would be the written slot itself.
                assert(m == q * cap + i);
                lemma_fundamental_div_mod_converse(m, cap, q, i);
                assert(false);
            }
            lemma_fundamental_div_mod_converse(cap + m - i, cap, q, back + 1);
            assert((cap + m - i) % cap == back + 1);
        }
    }
}

/// Reading at a whole-sample delay `k` is exact: the result is the sample
/// `k` ticks behind the write cursor, bit for bit — with a zero fractional
/// part, interpolation adds nothing.
pub proof fn lemma_read_whole_delay(line: DelayLine, k: int)
    requires
        line.wf(),
        1 <= k <= line.buffer_len - 1,
    ensures
        line.read_spec(k * (SCALE as int)) == line.tap(k),
{
    let s = SCALE as int;
    let cap = line.buffer_len as int;
    lemma_mul_inequality(k, cap - 1, s);
    assert(1 * s <= k * s) by (nonlinear_arith)
        requires
            1 <= k,
            0 < s,
    ;
    lemma_div_multiples_vanish(k, s);
    assert(k * s == s * k);
    let a = line.tap(k) as int;
    let b = line.tap(k + 1) as int;
    if a >= 0 {
        lemma_div_multiples_vanish(a, s);
        assert(a * s == s * a);
    } else {
        lemma_div_multiples_vanish(-a, s);
        assert((-a) * s == s * (-a));
    }
    assert(smul_spec(a, s - 0) == a);
    assert(smul_spec(b, 0) == 0);
}

/// Silence invariant: a freshly initialized or freshly cleared delay line
/// reads zero at every delay amount, whole or fractional.
pub proof fn lemma_silent_read(line: DelayLine, delay: int)
    requires
        line.wf(),
        line.is_silent(),
    ensures
        line.read_spec(delay) == 0,
{
    let s = SCALE as int;
    let cap = line.buffer_len as int;
    let maxd = (cap - 1) * s;
    let c = if delay < 0 {
        0
    } else if delay > maxd {
        maxd
    } else {
        delay
    };
    let d = c / s;
    lemma_mod_bound(line.write_pos + cap - d, cap);
    lemma_mod_bound(line.write_pos + cap - (d + 1), cap);
    assert(line.tap(d) == 0i64);
    assert(line.tap(d + 1) == 0i64);
}

/// FIFO ordering: after feeding the history `vs`, reading at the whole
/// delay `k` returns the `k`-th most recent sample, for every `k` that is
/// both within the history and still retained by the capacity.
pub proof fn lemma_fifo_read(line: DelayLine, vs: Seq<i64>, k: int)
    requires
        line.is_fed(vs),
        1 <= k <= line.buffer_len - 1,
        k <= vs.len(),
    ensures
        line.read_spec(k * (SCALE as int)) == vs[vs.len() - k],
{
    let cap = line.buffer_len as int;
    let m = vs.len() as int;
    let wp = line.write_pos as int;
    lemma_read_whole_delay(line, k);
    let j = (wp + cap - k) % cap;
    lemma_mod_bound(wp + cap - k, cap);
    // The tap index j sits exactly k - 1 ticks behind the newest sample.
    lemma_sub_mod_noop_right(cap + m - 1, (m % cap) + cap - k, cap);
    assert(cap + m - 1 - j == cap + m - 1 - ((wp + cap - k) % cap));
    lemma_fundamental_div_mod(m, cap);
    let q = m / cap;
    assert(cap * q == q * cap) by (nonlinear_arith);
    assert(cap + m - 1 - ((m % cap) + cap - k) == q * cap + (k - 1));
    lemma_fundamental_div_mod_converse(cap + m - 1 - ((m % cap) + cap - k), cap, q, k - 1);
    assert((cap + m - 1 - j) % cap == k - 1);
    assert(line.buffer@[j] == fed_slot(cap, vs, j));
}

/// Exact-lag correctness: on a fresh line, writing `v` and advancing once
/// makes a read at delay exactly 1.0 return `v`, bit for bit.
pub proof fn lemma_exact_lag(fresh: DelayLine, written: DelayLine, ticked: DelayLine, v: i64)
    requires
        fresh.wf(),
        fresh.is_silent(),
        fresh.write_pos == 0,
        fresh.buffer_len >= 2,
        written.buffer@ == fresh.buffer@.update(fresh.write_pos as int, v),
        written.write_pos == fresh.write_pos,
        written.buffer_len == fresh.buffer_len,
        ticked.buffer@ == written.buffer@,
        ticked.write_pos == (written.write_pos + 1) % (written.buffer_len as int),
        ticked.buffer_len == written.buffer_len,
    ensures
        ticked.read_spec(SCALE as int) == v,
{
    lemma_fresh_is_fed(fresh);
    lemma_feed(fresh, ticked, Seq::<i64>::empty(), v);
    lemma_fifo_read(ticked, Seq::<i64>::empty().push(v), 1);
    assert(1 * (SCALE as int) == SCALE as int);
}

} // verus!
