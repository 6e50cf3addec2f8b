//! RIFF/WAVE framing for the speech-to-text path: 16-bit mono PCM at 8 kHz,
//! rendered and parsed byte for byte, with the exact round trip proved.

use vstd::prelude::*;

verus! {

/// Sample rate of every WAV buffer this library renders.
pub const WAV_SAMPLE_RATE: u32 = 8000;

/// Why a WAV buffer was rejected or could not be built.
#[derive(Clone, Copy, Debug, PartialEq, Eq, Structural)]
pub enum WavError {
    /// Too many samples for the 32-bit RIFF size fields.
    TooLong,
    /// Not a RIFF/WAVE stream of 16-bit mono integer PCM.
    Unsupported,
}

/// Two little-endian bytes of a 16-bit value.
pub open spec fn u16_le(v: int) -> Seq<u8> {
    seq![(v % 256) as u8, ((v / 256) % 256) as u8]
}

/// Four little-endian bytes of a 32-bit value.
pub open spec fn u32_le(v: int) -> Seq<u8> {
    seq![
        (v % 256) as u8,
        ((v / 256) % 256) as u8,
        ((v / 0x10000) % 256) as u8,
        ((v / 0x1000000) % 256) as u8,
    ]
}

/// 16-bit value read little-endian at position `p`.
pub open spec fn le16(b: Seq<u8>, p: int) -> int {
    b[p] + 256 * b[p + 1]
}

/// 32-bit value read little-endian at position `p`.
pub open spec fn le32(b: Seq<u8>, p: int) -> int {
    b[p] + 256 * b[p + 1] + 0x10000 * b[p + 2] + 0x1000000 * b[p + 3]
}

/// Two's-complement unsigned image of a 16-bit sample.
pub open spec fn to_u16(s: i16) -> int {
    if s < 0 { s + 0x10000 } else { s as int }
}

/// Signed sample for an unsigned 16-bit value.
pub open spec fn to_i16(v: int) -> int {
    if v >= 0x8000 { v - 0x10000 } else { v }
}

/// Little-endian byte run of a sample sequence.
pub open spec fn sample_bytes(v: Seq<i16>) -> Seq<u8>
    decreases v.len(),
{
    if v.len() == 0 {
        Seq::empty()
    } else {
        sample_bytes(v.drop_last()) + u16_le(to_u16(v.last()))
    }
}

/// The bytes "RIFF", the total size, and the bytes "WAVE".
pub open spec fn riff_header(n: int) -> Seq<u8> {
    seq![0x52u8, 0x49u8, 0x46u8, 0x46u8] + u32_le(36 + 2 * n)
        + seq![0x57u8, 0x41u8, 0x56u8, 0x45u8]
}

/// The "fmt " chunk: integer PCM, one channel, 8 kHz, 16 bits per sample.
pub open spec fn fmt_chunk() -> Seq<u8> {
    seq![0x66u8, 0x6du8, 0x74u8, 0x20u8] + u32_le(16) + u16_le(1) + u16_le(1)
        + u32_le(8000) + u32_le(16000) + u16_le(2) + u16_le(16)
}

/// The "data" chunk header for `n` samples.
pub open spec fn data_header(n: int) -> Seq<u8> {
    seq![0x64u8, 0x61u8, 0x74u8, 0x61u8] + u32_le(2 * n)
}

/// Full WAV image of a sample sequence: deterministic, byte for byte.
pub open spec fn wav_bytes(v: Seq<i16>) -> Seq<u8> {
    riff_header(v.len() as int) + fmt_chunk() + data_header(v.len() as int) + sample_bytes(v)
}

/// Samples decoded from `count` little-endian pairs starting at `p`.
pub open spec fn samples_of(b: Seq<u8>, p: int, count: int) -> Seq<int> {
    Seq::new(count as nat, |i: int| to_i16(le16(b, p + 2 * i)))
}

/// Walk the chunk list from `pos`; a well-formed "fmt " chunk must precede
/// the "data" chunk, whose samples are the result.
pub open spec fn scan_chunks(b: Seq<u8>, pos: int, fmt_ok: bool) -> Option<Seq<int>>
    decreases b.len() - pos,
{
    if pos + 8 > b.len() || pos < 0 {
        None::<Seq<int>>
    } else {
        let size = le32(b, pos + 4);
        let body = pos + 8;
        let next = body + size + (size % 2);
        if b[pos] == 0x66 && b[pos + 1] == 0x6d && b[pos + 2] == 0x74 && b[pos + 3] == 0x20 {
            // "fmt ": integer PCM (1), mono (1), 16 bits per sample
            if size >= 16 && next <= b.len() && le16(b, body) == 1 && le16(b, body + 2) == 1
                && le16(b, body + 14) == 16 {
                scan_chunks(b, next, true)
            } else {
                None::<Seq<int>>
            }
        } else if b[pos] == 0x64 && b[pos + 1] == 0x61 && b[pos + 2] == 0x74
            && b[pos + 3] == 0x61 {
            // "data"
            if fmt_ok && body + size <= b.len() && size % 2 == 0 {
                Some(samples_of(b, body, size / 2))
            } else {
                None::<Seq<int>>
            }
        } else {
            if next <= b.len() {
                scan_chunks(b, next, fmt_ok)
            } else {
                None::<Seq<int>>
            }
        }
    }
}

/// Samples of a WAV byte run, or nothing if it is not a RIFF/WAVE stream
/// of 16-bit mono integer PCM.
pub open spec fn parse_wav_spec(b: Seq<u8>) -> Option<Seq<int>> {
    if b.len() >= 12 && b[0] == 0x52 && b[1] == 0x49 && b[2] == 0x46 && b[3] == 0x46
        && b[8] == 0x57 && b[9] == 0x41 && b[10] == 0x56 && b[11] == 0x45 {
        scan_chunks(b, 12, false)
    } else {
        None::<Seq<int>>
    }
}

fn push_u16_le(out: &mut Vec<u8>, v: u16)
    ensures
        final(out)@ == old(out)@ + u16_le(v as int),
{
    out.push((v % 256) as u8);
    out.push((v / 256) as u8);
    proof {
        assert(out@ =~= old(out)@ + u16_le(v as int));
    }
}

fn push_u32_le(out: &mut Vec<u8>, v: u32)
    ensures
        final(out)@ == old(out)@ + u32_le(v as int),
{
    out.push((v % 256) as u8);
    out.push(((v / 256) % 256) as u8);
    out.push(((v / 0x10000) % 256) as u8);
    out.push(((v / 0x1000000) % 256) as u8);
    proof {
        assert(out@ =~= old(out)@ + u32_le(v as int));
    }
}

/// Encode PCM samples as a WAV image in memory (8 kHz, 16-bit, mono).
/// Identical inputs give identical bytes; only a buffer whose RIFF sizes
/// would not fit 32 bits is refused.
pub fn pcm_to_wav(pcm_data: &[i16]) -> (r: Result<Vec<u8>, WavError>)
    ensures
        2 * pcm_data@.len() + 36 <= u32::MAX <==> r is Ok,
        r matches Ok(b) ==> b@ == wav_bytes(pcm_data@),
{
    let n = pcm_data.len();
    if n as u64 > (u32::MAX as u64 - 36) / 2 {
        return Err(WavError::TooLong);
    }
    let n32 = n as u32;
    let mut out: Vec<u8> = Vec::new();
    out.push(0x52); // 'R'
    out.push(0x49); // 'I'
    out.push(0x46); // 'F'
    out.push(0x46); // 'F'
    push_u32_le(&mut out, 36 + 2 * n32);
    out.push(0x57); // 'W'
    out.push(0x41); // 'A'
    out.push(0x56); // 'V'
    out.push(0x45); // 'E'
    proof {
        assert(out@ =~= riff_header(n as int));
    }
    out.push(0x66); // 'f'
    out.push(0x6d); // 'm'
    out.push(0x74); // 't'
    out.push(0x20); // ' '
    push_u32_le(&mut out, 16);
    push_u16_le(&mut out, 1);
    push_u16_le(&mut out, 1);
    push_u32_le(&mut out, 8000);
    push_u32_le(&mut out, 16000);
    push_u16_le(&mut out, 2);
    push_u16_le(&mut out, 16);
    proof {
        assert(out@ =~= riff_header(n as int) + fmt_chunk());
    }
    out.push(0x64); // 'd'
    out.push(0x61); // 'a'
    out.push(0x74); // 't'
    out.push(0x61); // 'a'
    push_u32_le(&mut out, 2 * n32);
    proof {
        assert(out@ =~= riff_header(n as int) + fmt_chunk() + data_header(n as int));
    }
    let ghost header = out@;
    let mut i: usize = 0;
    while i < n
        invariant
            i <= n,
            n == pcm_data@.len(),
            out@ == header + sample_bytes(pcm_data@.subrange(0, i as int)),
        decreases n - i,
    {
        let s = pcm_data[i];
        let v: u16 = if s < 0 {
            ((s as i32) + 0x10000) as u16
        } else {
            s as u16
        };
        proof {
            assert(v as int == to_u16(pcm_data@[i as int]));
            assert(pcm_data@.subrange(0, i + 1).drop_last() =~= pcm_data@.subrange(0, i as int));
            assert(pcm_data@.subrange(0, i + 1).last() == pcm_data@[i as int]);
        }
        push_u16_le(&mut out, v);
        i += 1;
    }
    proof {
        assert(pcm_data@.subrange(0, n as int) =~= pcm_data@);
    }
    Ok(out)
}

/// Decode a WAV byte run to PCM samples. Accepts 16-bit mono integer PCM
/// and fails on any other format.
pub fn wav_to_pcm(wav_data: &[u8]) -> (r: Result<Vec<i16>, WavError>)
    ensures
        r is Ok <==> parse_wav_spec(wav_data@) is Some,
        r matches Ok(v) ==> {
            let s = parse_wav_spec(wav_data@)->Some_0;
            v@.len() == s.len() && forall|i: int| 0 <= i < s.len() ==> v@[i] as int == s[i]
        },
{
    let len = wav_data.len();
    if !(len >= 12
        && wav_data[0] == 0x52 && wav_data[1] == 0x49
        && wav_data[2] == 0x46 && wav_data[3] == 0x46
        && wav_data[8] == 0x57 && wav_data[9] == 0x41
        && wav_data[10] == 0x56 && wav_data[11] == 0x45)
    {
        return Err(WavError::Unsupported);
    }
    let mut pos: usize = 12;
    let mut fmt_ok: bool = false;
    loop
        invariant
            12 <= pos,
            len == wav_data@.len(),
            parse_wav_spec(wav_data@) == scan_chunks(wav_data@, 12, false),
            scan_chunks(wav_data@, 12, false) == scan_chunks(wav_data@, pos as int, fmt_ok),
        decreases len - pos,
    {
        if pos > len || len - pos < 8 {
            return Err(WavError::Unsupported);
        }
        let size: u32 = wav_data[pos + 4] as u32
            + wav_data[pos + 5] as u32 * 256
            + wav_data[pos + 6] as u32 * 0x10000
            + wav_data[pos + 7] as u32 * 0x1000000;
        proof {
            assert(size as int == le32(wav_data@, pos + 4));
        }
        let body: u64 = pos as u64 + 8;
        let next: u128 = body as u128 + size as u128 + (size as u128 % 2);
        proof {
            assert(next as int == pos + 8 + le32(wav_data@, pos + 4)
                + le32(wav_data@, pos + 4) % 2);
        }
        if wav_data[pos] == 0x66 && wav_data[pos + 1] == 0x6d && wav_data[pos + 2] == 0x74
            && wav_data[pos + 3] == 0x20
        {
            // "fmt "
            if !(size >= 16 && next <= len as u128) {
                return Err(WavError::Unsupported);
            }
            let b = body as usize;
            let audio_format: u32 = wav_data[b] as u32 + wav_data[b + 1] as u32 * 256;
            let channels: u32 = wav_data[b + 2] as u32 + wav_data[b + 3] as u32 * 256;
            let bits: u32 = wav_data[b + 14] as u32 + wav_data[b + 15] as u32 * 256;
            if !(audio_format == 1 && channels == 1 && bits == 16) {
                return Err(WavError::Unsupported);
            }
            pos = next as usize;
            fmt_ok = true;
        } else if wav_data[pos] == 0x64 && wav_data[pos + 1] == 0x61
            && wav_data[pos + 2] == 0x74 && wav_data[pos + 3] == 0x61
        {
            // "data"
            if !(fmt_ok && body as u128 + size as u128 <= len as u128 && size % 2 == 0) {
                return Err(WavError::Unsupported);
            }
            let start = body as usize;
            let count = (size / 2) as usize;
            let ghost samples = samples_of(wav_data@, start as int, count as int);
            proof {
                assert(scan_chunks(wav_data@, pos as int, fmt_ok) == Some(samples));
            }
            let mut out: Vec<i16> = Vec::new();
            let mut i: usize = 0;
            while i < count
                invariant
                    i <= count,
                    len == wav_data@.len(),
                    start + 2 * count <= len,
                    samples == samples_of(wav_data@, start as int, count as int),
                    out@.len() == i,
                    forall|j: int| 0 <= j < i ==> out@[j] as int == samples[j],
                decreases count - i,
            {
                let lo = wav_data[start + 2 * i] as i32;
                let hi = wav_data[start + 2 * i + 1] as i32;
                let v: i32 = lo + 256 * hi;
                let s: i16 = if v >= 0x8000 { (v - 0x10000) as i16 } else { v as i16 };
                proof {
                    assert(s as int == to_i16(le16(wav_data@, start + 2 * i)));
                }
                out.push(s);
                i += 1;
            }
            return Ok(out);
        } else {
            if next <= len as u128 {
                pos = next as usize;
            } else {
                return Err(WavError::Unsupported);
            }
        }
    }
}

/// A 32-bit value is recovered from its four little-endian bytes.
proof fn lemma_le32_recompose(x: int)
    requires
        0 <= x < 0x1_0000_0000,
    ensures
        x % 256 + 256 * ((x / 256) % 256) + 0x10000 * ((x / 0x10000) % 256)
            + 0x1000000 * ((x / 0x1000000) % 256) == x,
{
    vstd::arithmetic::div_mod::lemma_fundamental_div_mod(x, 256);
    vstd::arithmetic::div_mod::lemma_fundamental_div_mod(x / 256, 256);
    vstd::arithmetic::div_mod::lemma_fundamental_div_mod(x / 0x10000, 256);
    vstd::arithmetic::div_mod::lemma_div_denominator(x, 256, 256);
    vstd::arithmetic::div_mod::lemma_div_denominator(x, 0x10000, 256);
    assert(x / 0x1000000 % 256 == x / 0x1000000);
}

/// A 16-bit value is recovered from its two little-endian bytes.
proof fn lemma_le16_recompose(x: int)
    requires
        0 <= x < 0x10000,
    ensures
        x % 256 + 256 * ((x / 256) % 256) == x,
{
    vstd::arithmetic::div_mod::lemma_fundamental_div_mod(x, 256);
    assert(x / 256 % 256 == x / 256);
}

/// Length and byte-level content of the rendered sample run.
proof fn lemma_sample_bytes_index(v: Seq<i16>)
    ensures
        sample_bytes(v).len() == 2 * v.len(),
        forall|i: int| 0 <= i < v.len() ==> {
            &&& #[trigger] sample_bytes(v)[2 * i] as int == to_u16(v[i]) % 256
            &&& sample_bytes(v)[2 * i + 1] as int == (to_u16(v[i]) / 256) % 256
        },
    decreases v.len(),
{
    if v.len() > 0 {
        lemma_sample_bytes_index(v.drop_last());
        assert forall|i: int| 0 <= i < v.len() implies {
            &&& #[trigger] sample_bytes(v)[2 * i] as int == to_u16(v[i]) % 256
            &&& sample_bytes(v)[2 * i + 1] as int == (to_u16(v[i]) / 256) % 256
        } by {
            if i < v.len() - 1 {
                assert(v.drop_last()[i] == v[i]);
                assert(sample_bytes(v)[2 * i] == sample_bytes(v.drop_last())[2 * i]);
                assert(sample_bytes(v)[2 * i + 1] == sample_bytes(v.drop_last())[2 * i + 1]);
            } else {
                assert(v.last() == v[i]);
            }
        }
    }
}

/// WAV framing round trip: parsing the rendered image of any sample buffer
/// gives back exactly those samples.
#[verifier::rlimit(100)]
#[verifier::spinoff_prover]
pub proof fn lemma_wav_round_trip(v: Seq<i16>)
    requires
        2 * v.len() + 36 <= u32::MAX,
    ensures
        parse_wav_spec(wav_bytes(v)) matches Some(s)
            && s.len() == v.len()
            && forall|i: int| 0 <= i < v.len() ==> s[i] == v[i] as int,
{
    let b = wav_bytes(v);
    let n = v.len() as int;
    lemma_sample_bytes_index(v);
    assert(riff_header(n).len() == 12);
    assert(fmt_chunk().len() == 24);
    assert(data_header(n).len() == 8);
    assert(b.len() == 44 + 2 * n);
    // The RIFF/WAVE preamble is in place.
    assert(b[0] == 0x52 && b[1] == 0x49 && b[2] == 0x46 && b[3] == 0x46);
    assert(b[8] == 0x57 && b[9] == 0x41 && b[10] == 0x56 && b[11] == 0x45);
    // The first chunk is a well-formed "fmt " chunk of 16 body bytes.
    assert(b[12] == 0x66 && b[13] == 0x6d && b[14] == 0x74 && b[15] == 0x20);
    lemma_le32_recompose(16);
    assert(le32(b, 16) == 16);
    lemma_le16_recompose(1);
    assert(le16(b, 20) == 1);
    assert(le16(b, 22) == 1);
    lemma_le16_recompose(16);
    assert(le16(b, 34) == 16);
    assert(scan_chunks(b, 12, false) == scan_chunks(b, 36, true));
    // The second chunk is the "data" chunk holding every sample.
    assert(b[36] == 0x64 && b[37] == 0x61 && b[38] == 0x74 && b[39] == 0x61);
    lemma_le32_recompose(2 * n);
    assert(le32(b, 40) == 2 * n);
    assert(scan_chunks(b, 36, true) == Some(samples_of(b, 44, n)));
    assert forall|i: int| 0 <= i < n implies samples_of(b, 44, n)[i] == v[i] as int by {
        assert(b[44 + 2 * i] == sample_bytes(v)[2 * i]);
        assert(b[44 + 2 * i + 1] == sample_bytes(v)[2 * i + 1]);
        lemma_le16_recompose(to_u16(v[i]));
        assert(le16(b, 44 + 2 * i) == to_u16(v[i]));
        assert(to_i16(to_u16(v[i])) == v[i] as int);
    }
}

} // verus!
