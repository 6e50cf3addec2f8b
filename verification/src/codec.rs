//! ITU-T G.711 mu-law companding and the integer DSP helpers of the media
//! pipeline: buffer-level encode/decode, RMS energy and linear resampling.

use vstd::prelude::*;
use vstd::arithmetic::power2::{pow2, lemma2_to64};
use vstd::math::abs;
use vstd::bits::{lemma_u16_shr_is_div, lemma_u16_shl_is_mul, lemma_u8_shr_is_div};

verus! {

/// Bias added to the magnitude before mu-law compression.
pub const MULAW_BIAS: u16 = 0x84;

/// Largest magnitude that survives compression unclipped.
pub const MULAW_CLIP: i32 = 32635;

/// Compression segment for the top byte of the biased magnitude.
pub open spec fn compress_table_spec(v: int) -> int {
    if v < 2 { 0 }
    else if v < 4 { 1 }
    else if v < 8 { 2 }
    else if v < 16 { 3 }
    else if v < 32 { 4 }
    else if v < 64 { 5 }
    else if v < 128 { 6 }
    else { 7 }
}

/// Value of one mu-law byte as a 16-bit PCM sample.
pub open spec fn mulaw_to_pcm_spec(b: u8) -> int {
    let inv = 255 - b;
    let exponent = (inv / 16) % 8;
    let mantissa = inv % 16;
    let mag = (mantissa * 8 + 0x84) * pow2(exponent as nat) - 0x84;
    if inv >= 128 { -mag } else { mag }
}

/// Mu-law byte that encodes a 16-bit PCM sample.
pub open spec fn pcm_to_mulaw_spec(s: i16) -> int {
    let mag0 = if s < 0 { -(s as int) } else { s as int };
    let mag = if mag0 > MULAW_CLIP { MULAW_CLIP as int } else { mag0 };
    let biased = mag + MULAW_BIAS;
    let exponent = compress_table_spec(biased / 128);
    let mantissa = (biased / pow2((exponent + 3) as nat) as int) % 16;
    let sign: int = if s < 0 { 128 } else { 0 };
    255 - (sign + exponent * 16 + mantissa)
}

/// Decode a single mu-law byte to a 16-bit PCM sample.
pub fn mulaw_to_pcm(mulaw: u8) -> (r: i16)
    ensures
        r as int == mulaw_to_pcm_spec(mulaw),
{
    let inv: u8 = !mulaw;
    let exponent: u8 = (inv >> 4) & 0x07;
    let mantissa: u8 = inv & 0x0F;
    proof {
        lemma2_to64();
        lemma_u8_shr_is_div(inv, 4);
        assert((inv >> 4) & 0x07 == ((inv / 16) as u8) % 8) by (bit_vector)
            requires inv >> 4 == inv / 16;
        assert(inv & 0x0F == inv % 16) by (bit_vector);
        assert(inv == 255 - mulaw) by (bit_vector)
            requires inv == !mulaw;
    }
    let base: u16 = ((mantissa as u16) * 8 + MULAW_BIAS) << (exponent as u16);
    proof {
        lemma2_to64();
        assert(pow2(exponent as nat) <= 128);
        assert(((mantissa as u16) * 8 + MULAW_BIAS) as int * pow2(exponent as nat)
            <= 252 * 128) by (nonlinear_arith)
            requires
                ((mantissa as u16) * 8 + MULAW_BIAS) as int <= 252,
                0 <= pow2(exponent as nat) <= 128,
        ;
        lemma_u16_shl_is_mul(((mantissa as u16) * 8 + MULAW_BIAS) as u16, exponent as u16);
        assert(base as int == (mantissa as int * 8 + 0x84) * pow2(exponent as nat));
    }
    let mag: i32 = base as i32 - MULAW_BIAS as i32;
    let sample: i32 = if inv >= 128 { -mag } else { mag };
    sample as i16
}

/// Encode a 16-bit PCM sample as one mu-law byte.
pub fn pcm_to_mulaw(sample: i16) -> (r: u8)
    ensures
        r as int == pcm_to_mulaw_spec(sample),
{
    let neg = sample < 0;
    let mut mag: i32 = sample as i32;
    if neg {
        mag = -mag;
    }
    if mag > MULAW_CLIP {
        mag = MULAW_CLIP;
    }
    let biased: u16 = (mag + MULAW_BIAS as i32) as u16;
    proof {
        lemma2_to64();
        lemma_u16_shr_is_div(biased, 7);
    }
    let exponent: u8 = compress_table((biased >> 7) as u8);
    let shift: u16 = exponent as u16 + 3;
    proof {
        lemma2_to64();
        lemma_u16_shr_is_div(biased, shift);
        assert((biased >> shift) & 0x0F == ((biased >> shift) as u16) % 16) by (bit_vector);
    }
    let mantissa: u8 = ((biased >> shift) & 0x0F) as u8;
    let sign: u8 = if neg { 0x80 } else { 0 };
    let packed: u8 = sign | (exponent << 4) | mantissa;
    proof {
        assert(sign | (exponent << 4) | mantissa == sign + exponent * 16 + mantissa)
            by (bit_vector)
            requires exponent < 8, mantissa < 16, sign == 0x80u8 || sign == 0u8;
        assert(!packed == 255 - packed) by (bit_vector);
    }
    !packed
}

/// Compression segment for one top byte, per the 7-step mu-law table.
pub fn compress_table(val: u8) -> (r: u8)
    ensures
        r as int == compress_table_spec(val as int),
        r < 8,
{
    match val {
        0..=1 => 0,
        2..=3 => 1,
        4..=7 => 2,
        8..=15 => 3,
        16..=31 => 4,
        32..=63 => 5,
        64..=127 => 6,
        _ => 7,
    }
}

/// Mu-law companding is lossy, but never by more than five percent of the
/// input magnitude plus 100 units: for every 16-bit sample `s`,
/// `|decode(encode(s)) - s| <= 0.05 * |s| + 100`, stated here scaled by 20.
#[verifier::rlimit(100)]
pub proof fn lemma_mulaw_round_trip(s: i16)
    ensures
        20 * abs(mulaw_to_pcm_spec(pcm_to_mulaw_spec(s) as u8) - s as int)
            <= abs(s as int) + 2000,
{
    lemma2_to64();
    let m0 = if s < 0 { -(s as int) } else { s as int };
    let m = if m0 > MULAW_CLIP { MULAW_CLIP as int } else { m0 };
    let biased = m + 132;
    let e = compress_table_spec(biased / 128);
    let k = pow2((e + 3) as nat) as int;
    let q = biased / k;
    let mant = q % 16;
    let sign: int = if s < 0 { 128 } else { 0 };
    let inv = sign + e * 16 + mant;
    let byte = 255 - inv;
    let m2 = (mant * 8 + 132) * pow2(e as nat) as int - 132;
    assert(132 <= biased <= 32767);
    assert(0 <= e <= 7);
    assert(m0 - 133 <= m <= m0);
    // Segment by segment: the byte packs the fields, the decoder recovers
    // them, and the magnitude error stays within a quarter of the step size.
        if biased < 256 {
            assert(e == 0 && k == 8);
            let rr = biased % 8;
            assert(biased == (biased / 8) * 8 + rr);
            assert(16 <= biased / 8 <= 31);
            assert(mant == biased / 8 - 16);
            assert(m2 == (mant * 8 + 132) * 1 - 132) by (nonlinear_arith)
                requires
                    m2 == (mant * 8 + 132) * pow2(e as nat) - 132,
                    pow2(e as nat) == 1,
            ;
            assert(m2 - m == 4 * 1 - rr);
            assert(20 * abs(m2 - m0) <= m0 + 2000);
        } else if biased < 512 {
            assert(e == 1 && k == 16);
            let rr = biased % 16;
            assert(biased == (biased / 16) * 16 + rr);
            assert(16 <= biased / 16 <= 31);
            assert(mant == biased / 16 - 16);
            assert(m2 == (mant * 8 + 132) * 2 - 132) by (nonlinear_arith)
                requires
                    m2 == (mant * 8 + 132) * pow2(e as nat) - 132,
                    pow2(e as nat) == 2,
            ;
            assert(m2 - m == 4 * 2 - rr);
            assert(20 * abs(m2 - m0) <= m0 + 2000);
        } else if biased < 1024 {
            assert(e == 2 && k == 32);
            let rr = biased % 32;
            assert(biased == (biased / 32) * 32 + rr);
            assert(16 <= biased / 32 <= 31);
            assert(mant == biased / 32 - 16);
            assert(m2 == (mant * 8 + 132) * 4 - 132) by (nonlinear_arith)
                requires
                    m2 == (mant * 8 + 132) * pow2(e as nat) - 132,
                    pow2(e as nat) == 4,
            ;
            assert(m2 - m == 4 * 4 - rr);
            assert(20 * abs(m2 - m0) <= m0 + 2000);
        } else if biased < 2048 {
            assert(e == 3 && k == 64);
            let rr = biased % 64;
            assert(biased == (biased / 64) * 64 + rr);
            assert(16 <= biased / 64 <= 31);
            assert(mant == biased / 64 - 16);
            assert(m2 == (mant * 8 + 132) * 8 - 132) by (nonlinear_arith)
                requires
                    m2 == (mant * 8 + 132) * pow2(e as nat) - 132,
                    pow2(e as nat) == 8,
            ;
            assert(m2 - m == 4 * 8 - rr);
            assert(20 * abs(m2 - m0) <= m0 + 2000);
        } else if biased < 4096 {
            assert(e == 4 && k == 128);
            let rr = biased % 128;
            assert(biased == (biased / 128) * 128 + rr);
            assert(16 <= biased / 128 <= 31);
            assert(mant == biased / 128 - 16);
            assert(m2 == (mant * 8 + 132) * 16 - 132) by (nonlinear_arith)
                requires
                    m2 == (mant * 8 + 132) * pow2(e as nat) - 132,
                    pow2(e as nat) == 16,
            ;
            assert(m2 - m == 4 * 16 - rr);
            assert(20 * abs(m2 - m0) <= m0 + 2000);
        } else if biased < 8192 {
            assert(e == 5 && k == 256);
            let rr = biased % 256;
            assert(biased == (biased / 256) * 256 + rr);
            assert(16 <= biased / 256 <= 31);
            assert(mant == biased / 256 - 16);
            assert(m2 == (mant * 8 + 132) * 32 - 132) by (nonlinear_arith)
                requires
                    m2 == (mant * 8 + 132) * pow2(e as nat) - 132,
                    pow2(e as nat) == 32,
            ;
            assert(m2 - m == 4 * 32 - rr);
            assert(20 * abs(m2 - m0) <= m0 + 2000);
        } else if biased < 16384 {
            assert(e == 6 && k == 512);
            let rr = biased % 512;
            assert(biased == (biased / 512) * 512 + rr);
            assert(16 <= biased / 512 <= 31);
            assert(mant == biased / 512 - 16);
            assert(m2 == (mant * 8 + 132) * 64 - 132) by (nonlinear_arith)
                requires
                    m2 == (mant * 8 + 132) * pow2(e as nat) - 132,
                    pow2(e as nat) == 64,
            ;
            assert(m2 - m == 4 * 64 - rr);
            assert(20 * abs(m2 - m0) <= m0 + 2000);
        } else {
            assert(e == 7 && k == 1024);
            let rr = biased % 1024;
            assert(biased == (biased / 1024) * 1024 + rr);
            assert(16 <= biased / 1024 <= 31);
            assert(mant == biased / 1024 - 16);
            assert(m2 == (mant * 8 + 132) * 128 - 132) by (nonlinear_arith)
                requires
                    m2 == (mant * 8 + 132) * pow2(e as nat) - 132,
                    pow2(e as nat) == 128,
            ;
            assert(m2 - m == 4 * 128 - rr);
            assert(20 * abs(m2 - m0) <= m0 + 2000);
        }
    assert(16 <= q <= 31 && mant == q - 16);
    assert(byte == pcm_to_mulaw_spec(s));
    assert(0 <= byte <= 255);
    assert((byte as u8) as int == byte);
    assert(255 - (byte as u8) as int == inv);
    assert((inv / 16) % 8 == e && inv % 16 == mant && (inv >= 128 <==> s < 0));
    assert(mulaw_to_pcm_spec(byte as u8) == if s < 0 { -m2 } else { m2 });
    if s < 0 {
        assert(abs(-m2 - s as int) == abs(m2 - m0));
    }
}

/// Sample sequence decoded from a mu-law byte run.
pub open spec fn decode_mulaw_spec(b: Seq<u8>) -> Seq<int> {
    b.map(|_i: int, x: u8| mulaw_to_pcm_spec(x))
}

/// Decode a buffer of mu-law bytes to 16-bit PCM samples.
pub fn decode_mulaw(mulaw_data: &[u8]) -> (r: Vec<i16>)
    ensures
        r@.len() == mulaw_data@.len(),
        forall|i: int| 0 <= i < r@.len() ==> r@[i] as int == mulaw_to_pcm_spec(mulaw_data@[i]),
{
    let mut out: Vec<i16> = Vec::new();
    let mut i: usize = 0;
    while i < mulaw_data.len()
        invariant
            i <= mulaw_data@.len(),
            out@.len() == i,
            forall|j: int| 0 <= j < i ==> out@[j] as int == mulaw_to_pcm_spec(mulaw_data@[j]),
        decreases mulaw_data@.len() - i,
    {
        out.push(mulaw_to_pcm(mulaw_data[i]));
        i += 1;
    }
    out
}

/// Encode 16-bit PCM samples to mu-law bytes.
pub fn encode_mulaw(pcm_data: &[i16]) -> (r: Vec<u8>)
    ensures
        r@.len() == pcm_data@.len(),
        forall|i: int| 0 <= i < r@.len() ==> r@[i] as int == pcm_to_mulaw_spec(pcm_data@[i]),
{
    let mut out: Vec<u8> = Vec::new();
    let mut i: usize = 0;
    while i < pcm_data.len()
        invariant
            i <= pcm_data@.len(),
            out@.len() == i,
            forall|j: int| 0 <= j < i ==> out@[j] as int == pcm_to_mulaw_spec(pcm_data@[j]),
        decreases pcm_data@.len() - i,
    {
        out.push(pcm_to_mulaw(pcm_data[i]));
        i += 1;
    }
    out
}


/// Integer division truncated toward zero, as Rust's `/` behaves on
/// signed operands; spec-level `/` is Euclidean, so the distinction matters
/// for negative numerators.
pub open spec fn div_trunc(a: int, b: int) -> int {
    if a >= 0 { a / b } else { -((-a) / b) }
}

fn div_trunc_i64(a: i64, b: i64) -> (r: i64)
    requires
        b > 0,
        a > i64::MIN,
    ensures
        r == div_trunc(a as int, b as int),
        a >= 0 ==> 0 <= r <= a,
        a < 0 ==> a <= r <= 0,
{
    if a >= 0 {
        ((a as u64) / (b as u64)) as i64
    } else {
        let neg: i64 = -a;
        let q: u64 = (neg as u64) / (b as u64);
        -(q as i64)
    }
}

/// Sum of squared samples, the quantity under the RMS root.
pub open spec fn sum_squares(s: Seq<i16>) -> int
    decreases s.len(),
{
    if s.len() == 0 {
        0
    } else {
        sum_squares(s.drop_last()) + s.last() * s.last()
    }
}

proof fn lemma_sum_squares_bounds(s: Seq<i16>)
    ensures
        0 <= sum_squares(s) <= s.len() * 0x40000000,
    decreases s.len(),
{
    if s.len() > 0 {
        lemma_sum_squares_bounds(s.drop_last());
        let x = s.last() as int;
        assert(x * x <= 0x40000000) by (nonlinear_arith)
            requires -0x8000 <= x <= 0x7fff,
        ;
        assert(0 <= x * x) by (nonlinear_arith);
        assert((s.len() - 1) * 0x40000000 + 0x40000000 == s.len() * 0x40000000)
            by (nonlinear_arith);
    }
}

pub proof fn lemma_sum_squares_zero(s: Seq<i16>)
    requires
        forall|i: int| 0 <= i < s.len() ==> s[i] == 0,
    ensures
        sum_squares(s) == 0,
    decreases s.len(),
{
    if s.len() > 0 {
        lemma_sum_squares_zero(s.drop_last());
    }
}

/// The integer square root: the greatest `r` with `r * r <= n`.
pub open spec fn isqrt(n: int) -> int {
    choose|r: int| r >= 0 && #[trigger] (r * r) <= n && n < (r + 1) * (r + 1)
}

/// Any non-negative `r` whose square brackets `n` is the square root.
pub proof fn lemma_isqrt_unique(n: int, r: int)
    requires
        r >= 0,
        r * r <= n,
        n < (r + 1) * (r + 1),
    ensures
        isqrt(n) == r,
{
    assert(exists|q: int| q >= 0 && #[trigger] (q * q) <= n && n < (q + 1) * (q + 1)) by {
        assert(r >= 0 && r * r <= n && n < (r + 1) * (r + 1));
    }
    let q = isqrt(n);
    if q < r {
        assert((q + 1) * (q + 1) <= r * r) by (nonlinear_arith)
            requires 0 <= q < r,
        ;
    }
    if q > r {
        assert((r + 1) * (r + 1) <= q * q) by (nonlinear_arith)
            requires 0 <= r < q,
        ;
    }
}

/// Root-mean-square energy of a PCM buffer, rounded down to a whole unit.
/// Returns 0 on empty input; an all-zero buffer always has energy 0.
pub fn rms_energy(pcm_data: &[i16]) -> (r: u64)
    ensures
        pcm_data@.len() == 0 ==> r == 0,
        pcm_data@.len() > 0 ==> {
            let mean = sum_squares(pcm_data@) / pcm_data@.len() as int;
            r * r <= mean < (r + 1) * (r + 1)
        },
        (forall|i: int| 0 <= i < pcm_data@.len() ==> pcm_data@[i] == 0) ==> r == 0,
        r <= 0x8000,
{
    let n = pcm_data.len();
    if n == 0 {
        return 0;
    }
    let mut sum: u128 = 0;
    let mut i: usize = 0;
    while i < n
        invariant
            i <= n,
            n == pcm_data@.len(),
            sum == sum_squares(pcm_data@.subrange(0, i as int)),
            sum <= i * 0x40000000,
        decreases n - i,
    {
        let s = pcm_data[i];
        proof {
            assert(0 <= s as int * s as int <= 0x40000000) by (nonlinear_arith)
                requires -0x8000 <= s as int <= 0x7fff,
            ;
            assert(pcm_data@.subrange(0, i + 1).drop_last() =~= pcm_data@.subrange(0, i as int));
            assert((i + 1) * 0x40000000 == i * 0x40000000 + 0x40000000) by (nonlinear_arith);
        }
        let sq: u64 = (s as i64 * s as i64) as u64;
        sum = sum + sq as u128;
        i += 1;
    }
    proof {
        assert(pcm_data@.subrange(0, n as int) =~= pcm_data@);
        lemma_sum_squares_bounds(pcm_data@);
        vstd::arithmetic::div_mod::lemma_div_is_ordered(
            sum_squares(pcm_data@),
            pcm_data@.len() as int * 0x40000000,
            pcm_data@.len() as int,
        );
        assert(pcm_data@.len() as int * 0x40000000 / pcm_data@.len() as int == 0x40000000)
            by (nonlinear_arith)
            requires pcm_data@.len() > 0,
        ;
    }
    let mean: u64 = (sum / n as u128) as u64;
    proof {
        assert(sum as int / n as int == sum_squares(pcm_data@) / pcm_data@.len() as int);
        if forall|j: int| 0 <= j < pcm_data@.len() ==> pcm_data@[j] == 0 {
            lemma_sum_squares_zero(pcm_data@);
        }
    }
    // Integer square root by bisection: r * r <= mean < (r + 1) * (r + 1).
    let mut lo: u64 = 0;
    let mut hi: u64 = 0x10000;
    while lo + 1 < hi
        invariant
            lo < hi <= 0x10000,
            lo * lo <= mean,
            mean < hi * hi,
        decreases hi - lo,
    {
        let mid = lo + (hi - lo) / 2;
        proof {
            assert(mid * mid <= 0x10000 * 0x10000) by (nonlinear_arith)
                requires 0 <= mid <= 0x10000,
            ;
        }
        if mid * mid <= mean {
            lo = mid;
        } else {
            hi = mid;
        }
    }
    proof {
        assert(lo > 0 ==> lo * lo >= 1) by (nonlinear_arith);
        assert(lo > 0x8000 ==> lo * lo > 0x40000000) by (nonlinear_arith);
    }
    lo
}

/// Sample of a linear-interpolation resample at output index `i`,
/// truncated toward zero as the original's float-to-integer cast does.
pub open spec fn resample_at_spec(s: Seq<i16>, from_rate: int, to_rate: int, i: int) -> int {
    let num = i * from_rate;
    let idx = num / to_rate;
    let frac_num = num % to_rate;
    if idx + 1 < s.len() {
        let a = s[idx] as int;
        let b = s[idx + 1] as int;
        div_trunc(a * to_rate + (b - a) * frac_num, to_rate)
    } else if idx < s.len() {
        s[idx] as int
    } else {
        s[s.len() - 1] as int
    }
}

/// Resample audio by integer-indexed linear interpolation, with no
/// anti-aliasing. Returns the input unchanged when the rates match.
pub fn resample_linear(samples: &[i16], from_rate: u32, to_rate: u32) -> (r: Vec<i16>)
    requires
        from_rate > 0,
        to_rate > 0,
        samples@.len() * to_rate as int <= u64::MAX,
        samples@.len() * to_rate as int / from_rate as int <= usize::MAX,
    ensures
        from_rate == to_rate ==> r@ == samples@,
        from_rate != to_rate ==> {
            &&& r@.len() == samples@.len() * to_rate as int / from_rate as int
            &&& forall|i: int| 0 <= i < r@.len()
                ==> r@[i] as int == resample_at_spec(samples@, from_rate as int, to_rate as int, i)
        },
{
    if from_rate == to_rate {
        let mut out: Vec<i16> = Vec::new();
        let mut i: usize = 0;
        while i < samples.len()
            invariant
                i <= samples@.len(),
                out@ =~= samples@.subrange(0, i as int),
            decreases samples@.len() - i,
        {
            out.push(samples[i]);
            i += 1;
        }
        proof {
            assert(samples@.subrange(0, samples@.len() as int) =~= samples@);
        }
        return out;
    }

    let n = samples.len();
    let out_len: usize = ((n as u64 * to_rate as u64) / from_rate as u64) as usize;
    let mut out: Vec<i16> = Vec::new();
    let mut i: usize = 0;
    while i < out_len
        invariant
            i <= out_len,
            n == samples@.len(),
            from_rate > 0,
            to_rate > 0,
            samples@.len() * to_rate as int <= u64::MAX,
            out_len == samples@.len() * to_rate as int / from_rate as int,
            out@.len() == i,
            forall|j: int| 0 <= j < i
                ==> out@[j] as int == resample_at_spec(samples@, from_rate as int, to_rate as int, j),
        decreases out_len - i,
    {
        proof {
            lemma_resample_index(samples@.len() as int, from_rate as int, to_rate as int, i as int);
        }
        let num: u64 = i as u64 * from_rate as u64;
        proof {
            assert(num == i as int * from_rate as int);
            assert(num / (to_rate as u64) == i as int * from_rate as int / (to_rate as int));
            assert(num / (to_rate as u64) < samples@.len());
        }
        let idx: usize = (num / to_rate as u64) as usize;
        let frac_num: u64 = num % to_rate as u64;
        let sample: i16 = if idx + 1 < n {
            let a: i64 = samples[idx] as i64;
            let b: i64 = samples[idx + 1] as i64;
            proof {
                lemma_interp_bounds(a as int, b as int, to_rate as int, frac_num as int);
            }
            let t: i64 = a * to_rate as i64 + (b - a) * frac_num as i64;
            div_trunc_i64(t, to_rate as i64) as i16
        } else {
            samples[idx]
        };
        out.push(sample);
        i += 1;
    }
    out
}

/// An output index below the output length maps to an input index below the
/// input length, and the position numerator fits in 64 bits.
proof fn lemma_resample_index(len: int, fr: int, tr: int, i: int)
    requires
        fr > 0,
        tr > 0,
        len >= 0,
        len * tr <= u64::MAX,
        0 <= i < len * tr / fr,
    ensures
        i * fr < len * tr,
        0 <= i * fr <= u64::MAX,
        i * fr / tr < len,
        len > 0,
{
    let q = len * tr / fr;
    vstd::arithmetic::div_mod::lemma_fundamental_div_mod(len * tr, fr);
    assert(i * fr <= (q - 1) * fr) by (nonlinear_arith)
        requires i <= q - 1, fr > 0, i >= 0,
    ;
    assert((q - 1) * fr == q * fr - fr) by (nonlinear_arith);
    assert(q * fr == fr * q) by (nonlinear_arith);
    assert(len * tr % fr >= 0);
    assert(i * fr < len * tr);
    assert(i * fr >= 0) by (nonlinear_arith)
        requires i >= 0, fr > 0,
    ;
    assert(len > 0) by (nonlinear_arith)
        requires len * tr > i * fr, i * fr >= 0, tr > 0, len >= 0,
    ;
    assert(len * tr - 1 == (len - 1) * tr + (tr - 1)) by (nonlinear_arith);
    vstd::arithmetic::div_mod::lemma_fundamental_div_mod_converse(
        len * tr - 1, tr, len - 1, tr - 1);
    vstd::arithmetic::div_mod::lemma_div_is_ordered(i * fr, len * tr - 1, tr);
}

/// The interpolated value lies between the two neighbouring samples.
proof fn lemma_interp_bounds(a: int, b: int, to_rate: int, frac_num: int)
    requires
        -0x8000 <= a <= 0x7fff,
        -0x8000 <= b <= 0x7fff,
        0 < to_rate <= 0xffff_ffff,
        0 <= frac_num < to_rate,
    ensures
        -0x8000 <= div_trunc(a * to_rate + (b - a) * frac_num, to_rate) <= 0x7fff,
        i64::MIN < a * to_rate + (b - a) * frac_num <= i64::MAX,
        -0x8000_0000_0000 <= a * to_rate <= 0x8000_0000_0000,
        -0x1_0000_0000_0000 <= (b - a) * frac_num <= 0x1_0000_0000_0000,
{
    assert(-0x8000_0000_0000 <= a * to_rate <= 0x8000_0000_0000) by (nonlinear_arith)
        requires -0x8000 <= a <= 0x7fff, 0 < to_rate <= 0xffff_ffff,
    ;
    assert(-0x1_0000_0000_0000 <= (b - a) * frac_num <= 0x1_0000_0000_0000)
        by (nonlinear_arith)
        requires -0x10000 <= b - a <= 0x10000, 0 <= frac_num <= 0xffff_ffff,
    ;
    let t = a * to_rate + (b - a) * frac_num;
    assert((-0x8000) * to_rate <= t <= 0x7fff * to_rate) by (nonlinear_arith)
        requires
            -0x8000 <= a <= 0x7fff,
            -0x8000 <= b <= 0x7fff,
            to_rate > 0,
            0 <= frac_num < to_rate,
            t == a * to_rate + (b - a) * frac_num,
    ;
    assert((-0x8000) * to_rate <= t <= 0x7fff * to_rate ==>
        -0x8000 <= div_trunc(t, to_rate) <= 0x7fff) by (nonlinear_arith)
        requires to_rate > 0,
    ;
    assert((-0x8000) * to_rate >= (-0x8000) * 0x1_0000_0000
        && 0x7fff * to_rate <= 0x7fff * 0x1_0000_0000) by (nonlinear_arith)
        requires 0 < to_rate <= 0xffff_ffff,
    ;
}

/// Mean across channels of one interleaved frame, truncated toward zero.
pub open spec fn downmix_frame_spec(s: Seq<i16>, channels: int, j: int) -> int {
    let lo = j * channels;
    let hi = if lo + channels <= s.len() { lo + channels } else { s.len() as int };
    div_trunc(frame_sum(s, lo, hi), channels)
}

/// Sum of the samples in `s[lo..hi]`.
pub open spec fn frame_sum(s: Seq<i16>, lo: int, hi: int) -> int
    decreases hi - lo,
{
    if lo >= hi {
        0
    } else {
        s[lo] + frame_sum(s, lo + 1, hi)
    }
}


/// Downmix interleaved multi-channel audio to mono by the arithmetic mean
/// across channels; a trailing partial frame is still divided by the full
/// channel count.
pub fn downmix_mono(samples: &[i16], channels: usize) -> (r: Vec<i16>)
    requires
        0 < channels <= 0xffff,
        samples@.len() <= 0xffff_ffff,
        samples@.len() + channels <= usize::MAX,
    ensures
        r@.len() == (samples@.len() + channels - 1) / channels as int,
        forall|j: int| 0 <= j < r@.len()
            ==> r@[j] as int == downmix_frame_spec(samples@, channels as int, j),
{
    let n = samples.len();
    let out_len = (n + channels - 1) / channels;
    let mut out: Vec<i16> = Vec::new();
    let mut j: usize = 0;
    while j < out_len
        invariant
            j <= out_len,
            n == samples@.len(),
            0 < channels <= 0xffff,
            n <= 0xffff_ffff,
            n + channels <= usize::MAX,
            out_len == (n + channels - 1) / channels as int,
            out@.len() == j,
            forall|q: int| 0 <= q < j
                ==> out@[q] as int == downmix_frame_spec(samples@, channels as int, q),
        decreases out_len - j,
    {
        proof {
            assert(j * channels < n) by (nonlinear_arith)
                requires
                    j < (n + channels - 1) / channels as int,
                    0 < channels,
                    0 <= j,
                    0 <= n,
            ;
        }
        let lo = j * channels;
        let hi = if lo + channels <= n { lo + channels } else { n };
        let mut sum: i64 = 0;
        let mut k = lo;
        while k < hi
            invariant
                lo <= k <= hi <= n,
                n == samples@.len(),
                hi - lo <= channels <= 0xffff,
                sum == frame_sum(samples@, lo as int, k as int),
                -(k - lo) * 0x8000 <= sum <= (k - lo) * 0x7fff,
            decreases hi - k,
        {
            proof {
                lemma_frame_sum_snoc(samples@, lo as int, k as int);
                assert((k + 1 - lo) * 0x8000 == (k - lo) * 0x8000 + 0x8000) by (nonlinear_arith);
                assert((k + 1 - lo) * 0x7fff == (k - lo) * 0x7fff + 0x7fff) by (nonlinear_arith);
            }
            sum = sum + samples[k] as i64;
            k += 1;
        }
        proof {
            assert(-(0x10000i64 * 0x8000) <= sum <= 0x10000i64 * 0x7fff) by (nonlinear_arith)
                requires
                    -((hi - lo) * 0x8000) <= sum <= (hi - lo) * 0x7fff,
                    0 <= hi - lo <= 0x10000,
            ;
            assert(-0x8000 <= div_trunc(sum as int, channels as int) <= 0x7fff)
                by (nonlinear_arith)
                requires
                    -((hi - lo) * 0x8000) <= sum <= (hi - lo) * 0x7fff,
                    0 <= hi - lo <= channels,
                    0 < channels,
            ;
        }
        let mean: i64 = div_trunc_i64(sum, channels as i64);
        out.push(mean as i16);
        j += 1;
    }
    out
}

proof fn lemma_frame_sum_snoc(s: Seq<i16>, lo: int, k: int)
    requires
        lo <= k < s.len(),
    ensures
        frame_sum(s, lo, k) + s[k] == frame_sum(s, lo, k + 1),
    decreases k - lo,
{
    if lo < k {
        lemma_frame_sum_snoc(s, lo + 1, k);
        assert(frame_sum(s, lo, k) == s[lo] + frame_sum(s, lo + 1, k));
        assert(frame_sum(s, lo, k + 1) == s[lo] + frame_sum(s, lo + 1, k + 1));
    } else {
        assert(frame_sum(s, k, k) == 0);
        assert(frame_sum(s, k, k + 1) == s[k] + frame_sum(s, k + 1, k + 1));
        assert(frame_sum(s, k + 1, k + 1) == 0);
    }
}

/// Scale samples by a volume given in thousandths, truncating toward zero
/// and clamping to the 16-bit range.
pub fn apply_volume(samples: &[i16], volume_permille: u32) -> (r: Vec<i16>)
    ensures
        r@.len() == samples@.len(),
        forall|i: int| 0 <= i < r@.len() ==> r@[i] as int == clamp_i16(
            div_trunc(samples@[i] as int * volume_permille as int, 1000)),
{
    let mut out: Vec<i16> = Vec::new();
    let mut i: usize = 0;
    while i < samples.len()
        invariant
            i <= samples@.len(),
            out@.len() == i,
            forall|j: int| 0 <= j < i ==> out@[j] as int == clamp_i16(
                div_trunc(samples@[j] as int * volume_permille as int, 1000)),
        decreases samples@.len() - i,
    {
        let s = samples[i] as i64;
        proof {
            assert(-(0x8000i64 * 0xffff_ffff) <= s * volume_permille as i64
                <= 0x8000i64 * 0xffff_ffff) by (nonlinear_arith)
                requires -0x8000 <= s <= 0x7fff, 0 <= volume_permille as i64 <= 0xffff_ffff,
            ;
        }
        let scaled: i64 = div_trunc_i64(s * volume_permille as i64, 1000);
        let clamped: i16 = if scaled < -32768 {
            -32768
        } else if scaled > 32767 {
            32767
        } else {
            scaled as i16
        };
        out.push(clamped);
        i += 1;
    }
    out
}

/// Clamp a value to the signed 16-bit range.
pub open spec fn clamp_i16(v: int) -> int {
    if v < -32768 { -32768 } else if v > 32767 { 32767 } else { v }
}

/// Widen an 8-bit sample to 16 bits by scaling into the upper byte.
pub fn sample_from_8bit(s: i8) -> (r: i16)
    ensures
        r as int == s as int * 256,
{
    s as i16 * 256
}

/// Narrow a 24-bit sample (carried sign-extended in 32 bits) to 16 bits
/// by dropping the low byte, rounding toward negative infinity as an
/// arithmetic shift does.
pub fn sample_from_24bit(s: i32) -> (r: i16)
    requires
        -0x80_0000 <= s < 0x80_0000,
    ensures
        r as int == s as int / 256,
{
    crate::dsp::div_floor_i64(s as i64, 256) as i16
}

} // verus!
