//! Envelope segments over one cycle of a tone.
//!
//! Samples are signed fixed-point values (`FULL_SCALE` stands for 1.0) and
//! gains are fractions of `UNITY_GAIN`. A segment reads the cycle table from a
//! phase offset onwards, wrapping at its end, and scales each sample by the
//! segment's gain at that position.

use vstd::arithmetic::div_mod::{
    lemma_add_mod_noop, lemma_add_mod_noop_right, lemma_mod_self_0, lemma_small_mod,
};
use vstd::prelude::*;

verus! {

/// Output samples per second.
pub const SAMPLE_RATE: u64 = 48000;

/// Sample value that stands for a full-scale amplitude of 1.0.
pub const FULL_SCALE: i32 = 16777216;

/// Gain that leaves a sample unchanged.
pub const UNITY_GAIN: u64 = 65536;

/// Nanoseconds in a second.
pub const NANOS_PER_SEC: u64 = 1000000000;

/// The number of samples in a duration, rounded to the nearest sample.
pub open spec fn samples_in(nanos: int) -> int {
    (nanos * SAMPLE_RATE + NANOS_PER_SEC / 2) / (NANOS_PER_SEC as int)
}

/// The number of samples in a duration of `nanos` nanoseconds, rounded.
pub fn samples_for(nanos: u64) -> (r: u64)
    ensures
        r == samples_in(nanos as int),
{
    let x = nanos as u128;
    assert(x * 48000 <= 0x10000000000000000 * 48000) by (nonlinear_arith)
        requires x <= 0x10000000000000000;
    let wide = (x * 48000 + 500000000) / 1000000000;
    assert(wide <= u64::MAX) by (nonlinear_arith)
        requires
            wide as int == ((nanos as int) * 48000 + 500000000) / 1000000000,
            nanos <= u64::MAX;
    wide as u64
}

/// `n / d` rounded to the nearest integer, halves upwards.
pub open spec fn round_div(n: int, d: int) -> int {
    (2 * n + d) / (2 * d)
}

/// The length of one period of a tone of `freq_millihz` thousandths of a hertz:
/// the sample rate over the frequency, rounded.
pub fn cycle_length(freq_millihz: u64) -> (r: Option<u64>)
    ensures
        r is Some <==> freq_millihz > 0,
        r is Some ==> r->Some_0 == round_div(SAMPLE_RATE * 1000, freq_millihz as int),
{
    if freq_millihz == 0 {
        return None;
    }
    let n: u128 = SAMPLE_RATE as u128 * 1000;
    let d: u128 = freq_millihz as u128;
    let r = (2 * n + d) / (2 * d);
    assert(r as int <= 96000001) by (nonlinear_arith)
        requires r as int == (2 * (n as int) + d as int) / (2 * (d as int)), d as int >= 1, n as int == 48000000;
    Some(r as u64)
}

/// The four phases of a note's envelope.
#[derive(Copy, Clone, Debug, PartialEq, Eq, Structural)]
pub enum Segment {
    Attack,
    Decay,
    Sustain,
    Release,
}

/// The gain at position `n` of a segment of `count` samples.
/// Attack ramps from silence to unity, decay from unity to the sustain
/// level, sustain holds that level and release ramps from it to silence.
pub open spec fn gain(seg: Segment, n: int, count: int, sustain: int) -> int {
    match seg {
        Segment::Attack => UNITY_GAIN * n / count,
        Segment::Decay => UNITY_GAIN - (UNITY_GAIN - sustain) * n / count,
        Segment::Sustain => sustain,
        Segment::Release => sustain - sustain * n / count,
    }
}

/// A sample scaled by a gain, rounded towards zero.
pub open spec fn scaled(sample: int, g: int) -> int {
    if sample >= 0 {
        sample * g / (UNITY_GAIN as int)
    } else {
        -((-sample) * g / (UNITY_GAIN as int))
    }
}

/// The cycle position of the `n`th sample of a segment that starts at `phase`.
pub open spec fn cycle_pos(phase: int, n: int, len: int) -> int {
    (phase + n) % len
}

/// Whether `out` is the segment `seg` of `count` samples read from `cycle` at `phase`.
pub open spec fn is_segment(
    out: Seq<i32>,
    cycle: Seq<i32>,
    phase: int,
    seg: Segment,
    count: int,
    sustain: int,
) -> bool {
    &&& out.len() == count
    &&& forall|n: int|
        0 <= n < count ==> #[trigger] out[n] == scaled(
            cycle[cycle_pos(phase, n, cycle.len() as int)] as int,
            gain(seg, n, count, sustain),
        )
}

/// A sample scaled by a gain of at most unity.
pub fn apply_gain(sample: i32, g: u64) -> (r: i32)
    requires
        g <= UNITY_GAIN,
    ensures
        r == scaled(sample as int, g as int),
{
    if sample >= 0 {
        let m = sample as u64;
        assert(m * g <= 0x80000000 * 65536) by (nonlinear_arith)
            requires m <= 0x80000000, g <= 65536;
        let p = m * g;
        let q = p / UNITY_GAIN;
        assert(q <= m) by (nonlinear_arith)
            requires q as int == (p as int) / (UNITY_GAIN as int), p as int == (m as int) * (g as int), g <= UNITY_GAIN;
        q as i32
    } else {
        let m = (-(sample as i64)) as u64;
        assert(m * g <= 0x80000000 * 65536) by (nonlinear_arith)
            requires m <= 0x80000000, g <= 65536;
        let p = m * g;
        let q = p / UNITY_GAIN;
        assert(q <= m) by (nonlinear_arith)
            requires q as int == (p as int) / (UNITY_GAIN as int), p as int == (m as int) * (g as int), g <= UNITY_GAIN;
        -(q as i64) as i32
    }
}

/// The gain at position `n` of a segment of `count` samples.
pub fn segment_gain(seg: Segment, n: u64, count: u64, sustain: u64) -> (r: u64)
    requires
        n < count,
        sustain <= UNITY_GAIN,
    ensures
        r == gain(seg, n as int, count as int, sustain as int),
        r <= UNITY_GAIN,
{
    let nn = n as u128;
    let c = count as u128;
    match seg {
        Segment::Attack => {
            let q = UNITY_GAIN as u128 * nn / c;
            assert(q <= UNITY_GAIN) by (nonlinear_arith)
                requires q as int == (UNITY_GAIN as int) * (nn as int) / (c as int), nn < c;
            q as u64
        },
        Segment::Decay => {
            assert((UNITY_GAIN - sustain) * nn <= 65536 * 0x10000000000000000) by (nonlinear_arith)
                requires UNITY_GAIN - sustain <= 65536, nn <= 0x10000000000000000;
            let q = (UNITY_GAIN - sustain) as u128 * nn / c;
            assert(q <= UNITY_GAIN - sustain) by (nonlinear_arith)
                requires q as int == ((UNITY_GAIN - sustain) as int) * (nn as int) / (c as int), nn < c, sustain <= UNITY_GAIN;
            UNITY_GAIN - q as u64
        },
        Segment::Sustain => sustain,
        Segment::Release => {
            assert(sustain * nn <= 65536 * 0x10000000000000000) by (nonlinear_arith)
                requires sustain <= 65536, nn <= 0x10000000000000000;
            let q = sustain as u128 * nn / c;
            assert(q <= sustain) by (nonlinear_arith)
                requires q as int == (sustain as int) * (nn as int) / (c as int), nn < c;
            sustain - q as u64
        },
    }
}

/// One step further along the cycle: the next position, or 0 past its end.
proof fn lemma_next_pos(phase: int, n: int, len: int)
    requires
        len > 0,
        phase >= 0,
        n >= 0,
    ensures
        cycle_pos(phase, n + 1, len) == if cycle_pos(phase, n, len) + 1 == len {
            0
        } else {
            cycle_pos(phase, n, len) + 1
        },
{
    let p = cycle_pos(phase, n, len);
    lemma_add_mod_noop(phase + n, 1, len);
    if len == 1 {
        assert(p == 0);
        lemma_mod_self_0(1);
    } else {
        lemma_small_mod(1, len as nat);
        if p + 1 == len {
            lemma_mod_self_0(len);
        } else {
            lemma_small_mod((p + 1) as nat, len as nat);
        }
    }
}

/// Renders `count` samples of segment `seg`, reading `cycle` from `phase` on.
pub fn render_segment(cycle: &Vec<i32>, phase: usize, seg: Segment, count: usize, sustain: u64) -> (r: Vec<i32>)
    requires
        cycle.len() > 0,
        phase < cycle.len(),
        sustain <= UNITY_GAIN,
    ensures
        is_segment(r@, cycle@, phase as int, seg, count as int, sustain as int),
{
    let len = cycle.len();
    let mut out: Vec<i32> = Vec::with_capacity(count);
    let mut pos: usize = phase;
    let mut n: usize = 0;
    proof { lemma_small_mod(phase as nat, len as nat); }
    while n < count
        invariant
            len == cycle.len(),
            len > 0,
            phase < len,
            sustain <= UNITY_GAIN,
            n <= count,
            pos == cycle_pos(phase as int, n as int, len as int),
            pos < len,
            out.len() == n,
            forall|k: int|
                0 <= k < n ==> #[trigger] out@[k] == scaled(
                    cycle@[cycle_pos(phase as int, k, len as int)] as int,
                    gain(seg, k, count as int, sustain as int),
                ),
        decreases count - n,
    {
        let g = segment_gain(seg, n as u64, count as u64, sustain);
        out.push(apply_gain(cycle[pos], g));
        proof { lemma_next_pos(phase as int, n as int, len as int); }
        pos = if pos + 1 == len { 0 } else { pos + 1 };
        n = n + 1;
    }
    out
}

/// The phase at which the segment after one of `count` samples from `phase` starts.
pub fn advance_phase(phase: usize, count: usize, len: usize) -> (r: usize)
    requires
        len > 0,
    ensures
        r == cycle_pos(phase as int, count as int, len as int),
        r < len,
{
    ((phase as u128 + count as u128) % len as u128) as usize
}

/// The cycle positions read by a segment of `count` samples from `phase`.
pub open spec fn segment_positions(phase: int, count: int, len: int) -> Seq<int> {
    Seq::new(count as nat, |n: int| cycle_pos(phase, n, len))
}

/// Phase continuity: an attack of `a` samples, a decay of `d` samples and a
/// sustain chunk of `c` samples, each starting where the one before left off,
/// read the cycle one position after another, wrapping only at its end.
pub proof fn lemma_phase_continuity(start: int, a: int, d: int, c: int, len: int)
    requires
        len > 0,
        0 <= start < len,
        a >= 0,
        d >= 0,
        c >= 0,
    ensures
        ({
            let after_attack = cycle_pos(start, a, len);
            let after_decay = cycle_pos(after_attack, d, len);
            let s = segment_positions(start, a, len) + segment_positions(after_attack, d, len)
                + segment_positions(after_decay, c, len);
            &&& s.len() == a + d + c
            &&& forall|k: int| 0 <= k < s.len() ==> #[trigger] s[k] == cycle_pos(start, k, len)
            &&& forall|k: int|
                0 <= k < s.len() - 1 ==> #[trigger] s[k + 1] == if s[k] + 1 == len {
                    0
                } else {
                    s[k] + 1
                }
        }),
{
    let after_attack = cycle_pos(start, a, len);
    let after_decay = cycle_pos(after_attack, d, len);
    let s = segment_positions(start, a, len) + segment_positions(after_attack, d, len) + segment_positions(
        after_decay,
        c,
        len,
    );
    assert forall|k: int| 0 <= k < s.len() implies #[trigger] s[k] == cycle_pos(start, k, len) by {
        if k < a {
        } else if k < a + d {
            lemma_add_mod_noop_right(k - a, start + a, len);
        } else {
            lemma_add_mod_noop_right(d, start + a, len);
            lemma_add_mod_noop_right(k - a - d, start + a + d, len);
        }
    }
    assert forall|k: int| 0 <= k < s.len() - 1 implies #[trigger] s[k + 1] == if s[k] + 1 == len {
        0
    } else {
        s[k] + 1
    } by {
        assert(s[k] == cycle_pos(start, k, len));
        assert(s[k + 1] == cycle_pos(start, k + 1, len));
        lemma_next_pos(start, k, len);
    }
}

} // verus!
