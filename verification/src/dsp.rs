//! Speech-band filtering for voice-activity detection: second-order IIR
//! (biquad) sections in Q20 fixed point, from the Audio EQ Cookbook
//! Butterworth (Q = 1/sqrt(2)) lowpass and highpass formulas, evaluated for
//! the telephony speech band of 300-3000 Hz at 8 kHz.

use vstd::prelude::*;

verus! {

/// Fixed-point scale: coefficients and outputs carry 20 fractional bits.
pub const Q20: i64 = 0x100000;

/// Bound on the stored filter outputs; far beyond any audio magnitude,
/// it only keeps the arithmetic inside known ranges.
pub const STATE_CLAMP: i64 = 0x100_0000_0000;

/// Ghost image of the delay line of one section.
pub struct BiquadState {
    pub x1: int,
    pub x2: int,
    pub y1: int,
    pub y2: int,
}

/// Ghost image of the bandpass chain: highpass then lowpass state.
pub struct BandpassState {
    pub hp: BiquadState,
    pub lp: BiquadState,
}

/// The all-zero delay line.
pub open spec fn rest_state() -> BiquadState {
    BiquadState { x1: 0, x2: 0, y1: 0, y2: 0 }
}

/// The bandpass chain at rest.
pub open spec fn bandpass_rest() -> BandpassState {
    BandpassState { hp: rest_state(), lp: rest_state() }
}

/// Clamp to a symmetric range.
pub open spec fn clamp_sym(v: int, lim: int) -> int {
    if v < -lim { -lim } else if v > lim { lim } else { v }
}

/// Q20 coefficients of the 300 Hz Butterworth highpass at 8 kHz.
pub open spec fn hp_coeffs() -> (int, int, int, int, int) {
    (887577, -1775154, 887577, -1750286, 751445)
}

/// Q20 coefficients of the 3000 Hz Butterworth lowpass at 8 kHz.
pub open spec fn lp_coeffs() -> (int, int, int, int, int) {
    (596677, 1193354, 596677, 988607, 349525)
}

/// One Direct-Form I step: new delay line and emitted sample.
pub open spec fn biquad_step(c: (int, int, int, int, int), st: BiquadState, x: int)
    -> (BiquadState, int) {
    let acc = c.0 * x + c.1 * st.x1 + c.2 * st.x2 - (c.3 * st.y1 + c.4 * st.y2) / (Q20 as int);
    let yq = clamp_sym(acc, STATE_CLAMP as int);
    (
        BiquadState { x1: x, x2: st.x1, y1: yq, y2: st.y1 },
        crate::codec::clamp_i16(yq / (Q20 as int)),
    )
}

/// One step of the bandpass chain.
pub open spec fn bandpass_step(st: BandpassState, x: int) -> (BandpassState, int) {
    let (hp2, mid) = biquad_step(hp_coeffs(), st.hp, x);
    let (lp2, y) = biquad_step(lp_coeffs(), st.lp, mid);
    (BandpassState { hp: hp2, lp: lp2 }, y)
}

/// The bandpass chain run over a sample buffer: final state and outputs.
pub open spec fn bandpass_run(st: BandpassState, xs: Seq<i16>) -> (BandpassState, Seq<int>)
    decreases xs.len(),
{
    if xs.len() == 0 {
        (st, Seq::empty())
    } else {
        let (st1, ys) = bandpass_run(st, xs.drop_last());
        let (st2, y) = bandpass_step(st1, xs.last() as int);
        (st2, ys + seq![y])
    }
}

/// Direct-Form I biquad section with Q20 integer coefficients.
pub struct BiquadFilter {
    b0: i64,
    b1: i64,
    b2: i64,
    a1: i64,
    a2: i64,
    x1: i64,
    x2: i64,
    y1: i64,
    y2: i64,
}

impl BiquadFilter {
    /// The section's mutable state as ghost values.
    pub closed spec fn state(self) -> BiquadState {
        BiquadState {
            x1: self.x1 as int,
            x2: self.x2 as int,
            y1: self.y1 as int,
            y2: self.y2 as int,
        }
    }

    /// The section's coefficients as ghost values.
    pub closed spec fn coeffs(self) -> (int, int, int, int, int) {
        (self.b0 as int, self.b1 as int, self.b2 as int, self.a1 as int, self.a2 as int)
    }

    /// The coefficients are a speech-band set and the state is bounded.
    pub closed spec fn wf(self) -> bool {
        &&& (self.coeffs() == hp_coeffs() || self.coeffs() == lp_coeffs())
        &&& -0x8000 <= self.x1 <= 0x7fff
        &&& -0x8000 <= self.x2 <= 0x7fff
        &&& -STATE_CLAMP <= self.y1 <= STATE_CLAMP
        &&& -STATE_CLAMP <= self.y2 <= STATE_CLAMP
    }

    /// The 300 Hz highpass section, at rest.
    pub fn highpass_speech() -> (r: BiquadFilter)
        ensures
            r.wf(),
            r.coeffs() == hp_coeffs(),
            r.state() == rest_state(),
    {
        BiquadFilter {
            b0: 887577, b1: -1775154, b2: 887577, a1: -1750286, a2: 751445,
            x1: 0, x2: 0, y1: 0, y2: 0,
        }
    }

    /// The 3000 Hz lowpass section, at rest.
    pub fn lowpass_speech() -> (r: BiquadFilter)
        ensures
            r.wf(),
            r.coeffs() == lp_coeffs(),
            r.state() == rest_state(),
    {
        BiquadFilter {
            b0: 596677, b1: 1193354, b2: 596677, a1: 988607, a2: 349525,
            x1: 0, x2: 0, y1: 0, y2: 0,
        }
    }

    /// Process one sample through the section.
    pub fn process(&mut self, x: i16) -> (y: i16)
        requires
            old(self).wf(),
        ensures
            final(self).wf(),
            final(self).coeffs() == old(self).coeffs(),
            ({
                let (st2, ys) = biquad_step(old(self).coeffs(), old(self).state(), x as int);
                final(self).state() == st2 && y as int == ys
            }),
    {
        proof {
            lemma_prod_bound(self.a1 as int, self.y1 as int, 0x200000, STATE_CLAMP as int);
            lemma_prod_bound(self.a2 as int, self.y2 as int, 0x200000, STATE_CLAMP as int);
            lemma_prod_bound(self.b0 as int, x as int, 0x200000, 0x8000);
            lemma_prod_bound(self.b1 as int, self.x1 as int, 0x200000, 0x8000);
            lemma_prod_bound(self.b2 as int, self.x2 as int, 0x200000, 0x8000);
        }
        let fb: i128 = self.a1 as i128 * self.y1 as i128 + self.a2 as i128 * self.y2 as i128;
        let fb_scaled: i128 = div_floor_i128(fb, Q20 as i128);
        let acc: i128 = self.b0 as i128 * x as i128
            + self.b1 as i128 * self.x1 as i128
            + self.b2 as i128 * self.x2 as i128
            - fb_scaled;
        let yq: i64 = if acc < -(STATE_CLAMP as i128) {
            -STATE_CLAMP
        } else if acc > STATE_CLAMP as i128 {
            STATE_CLAMP
        } else {
            acc as i64
        };
        let ys: i64 = div_floor_i64(yq, Q20);
        let y: i16 = if ys < -0x8000 {
            -0x8000
        } else if ys > 0x7fff {
            0x7fff
        } else {
            ys as i16
        };
        self.x2 = self.x1;
        self.x1 = x as i64;
        self.y2 = self.y1;
        self.y1 = yq;
        y
    }
}

/// Bound on a product of bounded factors.
pub proof fn lemma_prod_bound(a: int, b: int, ka: int, kb: int)
    requires
        -ka <= a <= ka,
        -kb <= b <= kb,
        0 <= ka,
        0 <= kb,
    ensures
        -(ka * kb) <= a * b <= ka * kb,
{
    assert(-(ka * kb) <= a * b <= ka * kb) by (nonlinear_arith)
        requires -ka <= a <= ka, -kb <= b <= kb, 0 <= ka, 0 <= kb,
    ;
}

/// Floor division by a positive divisor, matching spec-level `/`.
fn div_floor_i128(a: i128, b: i128) -> (r: i128)
    requires
        0 < b <= 0x200000,
        -0x1_0000_0000_0000_0000_0000_0000 <= a <= 0x1_0000_0000_0000_0000_0000_0000,
    ensures
        r == a as int / b as int,
        a >= 0 ==> 0 <= r <= a,
        a < 0 ==> a <= r <= 0,
{
    if a >= 0 {
        let q = a / b;
        proof {
            lemma_trunc_div_nonneg(a as int, b as int);
        }
        q
    } else {
        let q = (-a + (b - 1)) / b;
        proof {
            lemma_trunc_div_nonneg((-a + (b - 1)) as int, b as int);
            lemma_floor_div_neg(a as int, b as int);
            vstd::arithmetic::div_mod::lemma_fundamental_div_mod(a as int, b as int);
            assert(a as int <= a as int / b as int <= 0) by (nonlinear_arith)
                requires
                    a < 0,
                    b > 0,
                    a as int == b as int * (a as int / b as int) + a as int % b as int,
                    0 <= (a as int % b as int),
                    (a as int % b as int) < b as int,
            ;
        }
        -q
    }
}

/// Floor division of a negative numerator via ceiling division of its
/// negation: `a / b == -((-a + b - 1) / b)` for `a < 0 < b`.
proof fn lemma_floor_div_neg(a: int, b: int)
    requires
        a < 0,
        b > 0,
    ensures
        a / b == -((-a + b - 1) / b),
{
    let m = -a;
    vstd::arithmetic::div_mod::lemma_fundamental_div_mod(m, b);
    let q = m / b;
    let r = m % b;
    if r == 0 {
        assert(b * (-q) == -(b * q)) by (nonlinear_arith);
        vstd::arithmetic::div_mod::lemma_fundamental_div_mod_converse(a, b, -q, 0);
        assert(q * b == b * q) by (nonlinear_arith);
        vstd::arithmetic::div_mod::lemma_fundamental_div_mod_converse(m + b - 1, b, q, b - 1);
    } else {
        assert((q + 1) * b == b * q + b) by (nonlinear_arith);
        vstd::arithmetic::div_mod::lemma_fundamental_div_mod_converse(m + b - 1, b, q + 1, r - 1);
        assert((-(q + 1)) * b == -(b * q) - b) by (nonlinear_arith);
        vstd::arithmetic::div_mod::lemma_fundamental_div_mod_converse(a, b, -(q + 1), b - r);
    }
}

/// Floor division by a positive divisor, matching spec-level `/`.
pub(crate) fn div_floor_i64(a: i64, b: i64) -> (r: i64)
    requires
        0 < b <= 0x200000,
        -0x4000_0000_0000_0000 <= a <= 0x4000_0000_0000_0000,
    ensures
        r == a as int / b as int,
{
    div_floor_i128(a as i128, b as i128) as i64
}

/// Rust's truncating division agrees with Euclidean division on
/// non-negative numerators.
proof fn lemma_trunc_div_nonneg(a: int, b: int)
    requires
        a >= 0,
        b > 0,
    ensures
        a / b >= 0,
        a / b <= a,
{
    vstd::arithmetic::div_mod::lemma_div_is_ordered(0, a, b);
    vstd::arithmetic::div_mod::lemma_div_nonincreasing(a, b);
}

/// Bandpass chain: the highpass then the lowpass section, isolating the
/// speech band for energy measurement.
pub struct BandpassFilter {
    highpass: BiquadFilter,
    lowpass: BiquadFilter,
}

impl BandpassFilter {
    /// Ghost image of the chain's delay lines.
    pub closed spec fn state(self) -> BandpassState {
        BandpassState { hp: self.highpass.state(), lp: self.lowpass.state() }
    }

    /// Both sections carry their speech-band coefficients, bounded state.
    pub closed spec fn wf(self) -> bool {
        &&& self.highpass.wf()
        &&& self.highpass.coeffs() == hp_coeffs()
        &&& self.lowpass.wf()
        &&& self.lowpass.coeffs() == lp_coeffs()
    }

    /// Create the speech-band bandpass filter: 300 Hz highpass into
    /// 3000 Hz lowpass at the 8 kHz wire rate.
    pub fn new() -> (r: BandpassFilter)
        ensures
            r.wf(),
            r.state() == bandpass_rest(),
    {
        BandpassFilter {
            highpass: BiquadFilter::highpass_speech(),
            lowpass: BiquadFilter::lowpass_speech(),
        }
    }

    /// Filter samples for energy measurement. The input buffer is not
    /// altered; the delay lines persist across calls.
    pub fn filter(&mut self, samples: &[i16]) -> (r: Vec<i16>)
        requires
            old(self).wf(),
        ensures
            final(self).wf(),
            ({
                let (st2, ys) = bandpass_run(old(self).state(), samples@);
                &&& final(self).state() == st2
                &&& r@.len() == ys.len()
                &&& forall|i: int| 0 <= i < ys.len() ==> r@[i] as int == ys[i]
            }),
    {
        let mut out: Vec<i16> = Vec::new();
        let mut i: usize = 0;
        while i < samples.len()
            invariant
                i <= samples@.len(),
                out@.len() == i,
                self.wf(),
                ({
                    let (st2, ys) = bandpass_run(old(self).state(), samples@.subrange(0, i as int));
                    &&& self.state() == st2
                    &&& ys.len() == i
                    &&& forall|j: int| 0 <= j < i ==> out@[j] as int == ys[j]
                }),
            decreases samples@.len() - i,
        {
            proof {
                assert(samples@.subrange(0, i + 1).drop_last() =~= samples@.subrange(0, i as int));
                assert(samples@.subrange(0, i + 1).last() == samples@[i as int]);
            }
            let mid = self.highpass.process(samples[i]);
            let y = self.lowpass.process(mid);
            out.push(y);
            i += 1;
        }
        proof {
            assert(samples@.subrange(0, samples@.len() as int) =~= samples@);
        }
        out
    }
}

/// The chain emits one sample per input sample.
pub proof fn lemma_bandpass_run_len(st: BandpassState, xs: Seq<i16>)
    ensures
        bandpass_run(st, xs).1.len() == xs.len(),
    decreases xs.len(),
{
    if xs.len() > 0 {
        lemma_bandpass_run_len(st, xs.drop_last());
    }
}

/// A chain at rest fed with silence stays at rest and emits silence.
pub proof fn lemma_bandpass_silent(xs: Seq<i16>)
    requires
        forall|i: int| 0 <= i < xs.len() ==> xs[i] == 0,
    ensures
        bandpass_run(bandpass_rest(), xs).0 == bandpass_rest(),
        forall|i: int| 0 <= i < bandpass_run(bandpass_rest(), xs).1.len()
            ==> bandpass_run(bandpass_rest(), xs).1[i] == 0,
        bandpass_run(bandpass_rest(), xs).1.len() == xs.len(),
    decreases xs.len(),
{
    if xs.len() > 0 {
        lemma_bandpass_silent(xs.drop_last());
        assert(xs.last() == 0);
        assert(bandpass_step(bandpass_rest(), 0).0 == bandpass_rest()
            && bandpass_step(bandpass_rest(), 0).1 == 0);
    }
}

} // verus!
