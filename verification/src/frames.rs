//! Outbound wire frames: mu-law audio chunked into 160-byte runs, carried
//! base64-encoded inside the JSON envelopes of the telephony stream and of
//! the voice-chat sidecar, followed by a mark frame.

use vstd::prelude::*;
use vstd::string::{StrSliceExecFns, StringSliceAdditionalSpecFns, is_ascii_spec_bytes};

verus! {

/// Bytes of one outbound audio chunk: 20 ms at 8 kHz.
pub const CHUNK_SIZE: usize = 160;

/// What the base64 encoding of a byte run is; standard alphabet with
/// padding, a function of the bytes alone.
pub uninterp spec fn b64_of(b: Seq<u8>) -> Seq<char>;

/// Relies on base64's `Engine::encode` with the standard alphabet: four
/// output characters per three input bytes, all ASCII.
#[verifier::external_body]
fn b64_encode(bytes: &[u8]) -> (r: String)
    requires
        bytes@.len() <= 0x1000_0000,
    ensures
        r@ == b64_of(bytes@),
        r@.len() == 4 * ((bytes@.len() + 2) / 3),
        vstd::utf8::is_ascii_chars(r@),
{
    base64::Engine::encode(&base64::engine::general_purpose::STANDARD, bytes)
}

/// Relies on base64's `Engine::decode` with the standard alphabet: on
/// success the input is exactly the canonical encoding of the returned
/// bytes, and of no other bytes (encode then decode round-trips, and
/// decode is a function of the input); it fails only on inputs that are
/// not a canonical encoding at all.
#[verifier::external_body]
pub(crate) fn b64_decode(s: &str) -> (r: Option<Vec<u8>>)
    ensures
        r matches Some(v) ==> s@ == b64_of(v@),
        r matches Some(v) ==> forall|w: Seq<u8>| s@ == b64_of(w) ==> w == v@,
        r is None ==> forall|w: Seq<u8>| s@ != b64_of(w),
{
    match base64::Engine::decode(&base64::engine::general_purpose::STANDARD, s) {
        Ok(v) => Some(v),
        Err(_) => None,
    }
}

/// ASCII bytes of an ASCII character sequence.
pub open spec fn ascii_bytes(s: Seq<char>) -> Seq<u8> {
    Seq::new(s.len(), |i: int| s[i] as u8)
}

/// One lower-case hexadecimal digit.
pub open spec fn hex_digit(v: int) -> u8 {
    if v < 10 { (48 + v) as u8 } else { (87 + v) as u8 }
}

/// JSON escape of one byte: quote, backslash and the named control
/// characters get a backslash form, other control bytes a `\u00xx` form,
/// everything else passes through.
pub open spec fn esc_byte(b: u8) -> Seq<u8> {
    if b == 34 { seq![92u8, 34u8] }
    else if b == 92 { seq![92u8, 92u8] }
    else if b == 8 { seq![92u8, 98u8] }
    else if b == 9 { seq![92u8, 116u8] }
    else if b == 10 { seq![92u8, 110u8] }
    else if b == 12 { seq![92u8, 102u8] }
    else if b == 13 { seq![92u8, 114u8] }
    else if b < 32 { seq![92u8, 117u8, 48u8, 48u8, hex_digit(b as int / 16), hex_digit(b as int % 16)] }
    else { seq![b] }
}

/// JSON string-escape of a byte run.
pub open spec fn json_escaped(s: Seq<u8>) -> Seq<u8>
    decreases s.len(),
{
    if s.len() == 0 {
        Seq::empty()
    } else {
        json_escaped(s.drop_last()) + esc_byte(s.last())
    }
}

/// Escape a byte run for use inside a JSON string literal.
pub fn json_escape(s: &[u8]) -> (r: Vec<u8>)
    ensures
        r@ == json_escaped(s@),
{
    let mut out: Vec<u8> = Vec::new();
    let mut i: usize = 0;
    while i < s.len()
        invariant
            i <= s@.len(),
            out@ == json_escaped(s@.subrange(0, i as int)),
        decreases s@.len() - i,
    {
        let b = s[i];
        proof {
            assert(s@.subrange(0, i + 1).drop_last() =~= s@.subrange(0, i as int));
            assert(s@.subrange(0, i + 1).last() == s@[i as int]);
        }
        if b == 34 {
            out.push(92); out.push(34);
        } else if b == 92 {
            out.push(92); out.push(92);
        } else if b == 8 {
            out.push(92); out.push(98);
        } else if b == 9 {
            out.push(92); out.push(116);
        } else if b == 10 {
            out.push(92); out.push(110);
        } else if b == 12 {
            out.push(92); out.push(102);
        } else if b == 13 {
            out.push(92); out.push(114);
        } else if b < 32 {
            out.push(92); out.push(117); out.push(48); out.push(48);
            out.push(if b / 16 < 10 { 48 + b / 16 } else { 87 + b / 16 });
            out.push(if b % 16 < 10 { 48 + b % 16 } else { 87 + b % 16 });
        } else {
            out.push(b);
        }
        proof {
            assert(out@ =~= json_escaped(s@.subrange(0, i + 1)));
        }
        i += 1;
    }
    proof {
        assert(s@.subrange(0, s@.len() as int) =~= s@);
    }
    out
}

/// The telephony media frame for one base64 payload.
pub open spec fn media_frame_spec(sid: Seq<u8>, payload: Seq<u8>) -> Seq<u8> {
    ascii_bytes("{\"event\":\"media\",\"media\":{\"payload\":\""@)
        + json_escaped(payload)
        + ascii_bytes("\"},\"streamSid\":\""@)
        + json_escaped(sid)
        + ascii_bytes("\"}"@)
}

/// The telephony mark frame with a playback label.
pub open spec fn mark_frame_spec(sid: Seq<u8>, name: Seq<u8>) -> Seq<u8> {
    ascii_bytes("{\"event\":\"mark\",\"mark\":{\"name\":\""@)
        + json_escaped(name)
        + ascii_bytes("\"},\"streamSid\":\""@)
        + json_escaped(sid)
        + ascii_bytes("\"}"@)
}

/// The telephony clear frame, flushing buffered audio.
pub open spec fn clear_frame_spec(sid: Seq<u8>) -> Seq<u8> {
    ascii_bytes("{\"event\":\"clear\",\"streamSid\":\""@)
        + json_escaped(sid)
        + ascii_bytes("\"}"@)
}

/// The sidecar audio frame for one base64 payload.
pub open spec fn sidecar_audio_frame_spec(payload: Seq<u8>) -> Seq<u8> {
    ascii_bytes("{\"audio\":\""@)
        + json_escaped(payload)
        + ascii_bytes("\",\"type\":\"audio\"}"@)
}

/// The sidecar mark frame.
pub open spec fn sidecar_mark_frame_spec() -> Seq<u8> {
    ascii_bytes("{\"type\":\"mark\"}"@)
}

/// Append the bytes of an ASCII literal.
pub fn append_lit(out: &mut Vec<u8>, lit: &str)
    requires
        vstd::string::is_ascii(lit),
    ensures
        final(out)@ == old(out)@ + ascii_bytes(lit@),
{
    let bytes = lit.as_bytes();
    proof {
        is_ascii_spec_bytes(lit);
        assert(bytes@ =~= ascii_bytes(lit@));
    }
    let mut i: usize = 0;
    while i < bytes.len()
        invariant
            i <= bytes@.len(),
            out@ == old(out)@ + bytes@.subrange(0, i as int),
        decreases bytes@.len() - i,
    {
        proof {
            assert(old(out)@ + bytes@.subrange(0, i + 1)
                =~= (old(out)@ + bytes@.subrange(0, i as int)) + seq![bytes@[i as int]]);
        }
        out.push(bytes[i]);
        i += 1;
    }
    proof {
        assert(bytes@.subrange(0, bytes@.len() as int) =~= bytes@);
    }
}

/// Append an escaped JSON string body.
fn append_escaped(out: &mut Vec<u8>, s: &[u8])
    ensures
        final(out)@ == old(out)@ + json_escaped(s@),
{
    let esc = json_escape(s);
    let mut i: usize = 0;
    while i < esc.len()
        invariant
            i <= esc@.len(),
            esc@ == json_escaped(s@),
            out@ == old(out)@ + esc@.subrange(0, i as int),
        decreases esc@.len() - i,
    {
        proof {
            assert(old(out)@ + esc@.subrange(0, i + 1)
                =~= (old(out)@ + esc@.subrange(0, i as int)) + seq![esc@[i as int]]);
        }
        out.push(esc[i]);
        i += 1;
    }
    proof {
        assert(esc@.subrange(0, esc@.len() as int) =~= esc@);
    }
}

/// Render the telephony media frame for one payload.
pub fn render_media_frame(stream_sid: &str, payload: &str) -> (r: Vec<u8>)
    ensures
        r@ == media_frame_spec(stream_sid.spec_bytes(), payload.spec_bytes()),
{
    let mut out: Vec<u8> = Vec::new();
    proof {
        reveal_strlit("{\"event\":\"media\",\"media\":{\"payload\":\"");
        reveal_strlit("\"},\"streamSid\":\"");
        reveal_strlit("\"}");
    }
    append_lit(&mut out, "{\"event\":\"media\",\"media\":{\"payload\":\"");
    append_escaped(&mut out, payload.as_bytes());
    append_lit(&mut out, "\"},\"streamSid\":\"");
    append_escaped(&mut out, stream_sid.as_bytes());
    append_lit(&mut out, "\"}");
    out
}

/// Render the telephony mark frame.
pub fn render_mark_frame(stream_sid: &str, name: &str) -> (r: Vec<u8>)
    ensures
        r@ == mark_frame_spec(stream_sid.spec_bytes(), name.spec_bytes()),
{
    let mut out: Vec<u8> = Vec::new();
    proof {
        reveal_strlit("{\"event\":\"mark\",\"mark\":{\"name\":\"");
        reveal_strlit("\"},\"streamSid\":\"");
        reveal_strlit("\"}");
    }
    append_lit(&mut out, "{\"event\":\"mark\",\"mark\":{\"name\":\"");
    append_escaped(&mut out, name.as_bytes());
    append_lit(&mut out, "\"},\"streamSid\":\"");
    append_escaped(&mut out, stream_sid.as_bytes());
    append_lit(&mut out, "\"}");
    out
}

/// Render the telephony clear frame.
pub fn render_clear_frame(stream_sid: &str) -> (r: Vec<u8>)
    ensures
        r@ == clear_frame_spec(stream_sid.spec_bytes()),
{
    let mut out: Vec<u8> = Vec::new();
    proof {
        reveal_strlit("{\"event\":\"clear\",\"streamSid\":\"");
        reveal_strlit("\"}");
    }
    append_lit(&mut out, "{\"event\":\"clear\",\"streamSid\":\"");
    append_escaped(&mut out, stream_sid.as_bytes());
    append_lit(&mut out, "\"}");
    out
}

/// Render the sidecar audio frame.
pub fn render_sidecar_audio_frame(payload: &str) -> (r: Vec<u8>)
    ensures
        r@ == sidecar_audio_frame_spec(payload.spec_bytes()),
{
    let mut out: Vec<u8> = Vec::new();
    proof {
        reveal_strlit("{\"audio\":\"");
        reveal_strlit("\",\"type\":\"audio\"}");
    }
    append_lit(&mut out, "{\"audio\":\"");
    append_escaped(&mut out, payload.as_bytes());
    append_lit(&mut out, "\",\"type\":\"audio\"}");
    out
}

/// Render the sidecar mark frame.
pub fn render_sidecar_mark_frame() -> (r: Vec<u8>)
    ensures
        r@ == sidecar_mark_frame_spec(),
{
    let mut out: Vec<u8> = Vec::new();
    proof {
        reveal_strlit("{\"type\":\"mark\"}");
    }
    append_lit(&mut out, "{\"type\":\"mark\"}");
    out
}

/// The 160-byte chunks of an audio run; the last chunk may be shorter.
pub open spec fn audio_chunks(audio: Seq<u8>) -> Seq<Seq<u8>>
    decreases audio.len(),
{
    if audio.len() == 0 {
        Seq::empty()
    } else if audio.len() <= CHUNK_SIZE {
        seq![audio]
    } else {
        seq![audio.subrange(0, CHUNK_SIZE as int)]
            + audio_chunks(audio.skip(CHUNK_SIZE as int))
    }
}

/// The telephony frame run for an audio buffer: one media frame per
/// 160-byte chunk, then one mark frame carrying `mark_name`.
pub open spec fn telephony_frames_spec(sid: Seq<u8>, audio: Seq<u8>, mark_name: Seq<u8>)
    -> Seq<Seq<u8>> {
    audio_chunks(audio).map(|_i: int, c: Seq<u8>| media_frame_spec(sid, ascii_bytes(b64_of(c))))
        + seq![mark_frame_spec(sid, mark_name)]
}

/// The sidecar frame run for an audio buffer: one audio frame per chunk,
/// then the sidecar mark frame.
pub open spec fn sidecar_frames_spec(audio: Seq<u8>) -> Seq<Seq<u8>> {
    audio_chunks(audio).map(|_i: int, c: Seq<u8>| sidecar_audio_frame_spec(ascii_bytes(b64_of(c))))
        + seq![sidecar_mark_frame_spec()]
}

/// Chunk `which` of the buffer, as the subrange it covers.
pub proof fn lemma_audio_chunks_index(audio: Seq<u8>, i: int)
    requires
        0 <= i < audio_chunks(audio).len(),
    ensures
        i * (CHUNK_SIZE as int) < audio.len(),
        audio_chunks(audio)[i] == audio.subrange(i * CHUNK_SIZE as int,
            if (i + 1) * CHUNK_SIZE <= audio.len() {
                (i + 1) * (CHUNK_SIZE as int)
            } else {
                audio.len() as int
            }),
    decreases audio.len(),
{
    if audio.len() == 0 {
    } else if audio.len() <= CHUNK_SIZE {
        assert(audio_chunks(audio)[0] == audio);
        assert(audio.subrange(0, audio.len() as int) =~= audio);
    } else {
        if i == 0 {
            assert(audio_chunks(audio)[0] == audio.subrange(0, CHUNK_SIZE as int));
        } else {
            lemma_audio_chunks_index(audio.skip(CHUNK_SIZE as int), i - 1);
            assert(audio_chunks(audio)[i] == audio_chunks(audio.skip(CHUNK_SIZE as int))[i - 1]);
            let lo = (i - 1) * CHUNK_SIZE as int;
            let hi = if i * CHUNK_SIZE <= audio.len() - CHUNK_SIZE {
                i * (CHUNK_SIZE as int)
            } else {
                audio.len() - CHUNK_SIZE
            };
            assert(audio.skip(CHUNK_SIZE as int).subrange(lo, hi)
                =~= audio.subrange(lo + CHUNK_SIZE, hi + CHUNK_SIZE));
            assert((i - 1) * CHUNK_SIZE as int + CHUNK_SIZE == i * CHUNK_SIZE as int)
                by (nonlinear_arith);
            assert(i * CHUNK_SIZE as int + CHUNK_SIZE == (i + 1) * CHUNK_SIZE as int)
                by (nonlinear_arith);
        }
    }
}

/// Render the media frame for one numbered chunk of a buffer.
pub fn chunk_frame(stream_sid: &str, audio: &[u8], which: usize) -> (r: Vec<u8>)
    requires
        (which as int) < audio_chunks(audio@).len(),
    ensures
        r@ == media_frame_spec(stream_sid.spec_bytes(),
            ascii_bytes(b64_of(audio_chunks(audio@)[which as int]))),
{
    let n = audio.len();
    proof {
        lemma_audio_chunks_index(audio@, which as int);
        lemma_audio_chunks_count(audio@);
        vstd::arithmetic::div_mod::lemma_fundamental_div_mod(n as int + 159, 160);
        assert((which as int) * 160 <= n as int - 1) by (nonlinear_arith)
            requires
                which as int <= (n as int + 159) / 160 - 1,
                160 * ((n as int + 159) / 160) <= n as int + 159,
        ;
    }
    let pos = which * CHUNK_SIZE;
    let end = if n - pos > CHUNK_SIZE { pos + CHUNK_SIZE } else { n };
    let chunk = bytes_range(audio, pos, end);
    let payload = b64_encode(chunk.as_slice());
    let pstr = payload.as_str();
    proof {
        is_ascii_spec_bytes(pstr);
        assert(pstr.spec_bytes() =~= ascii_bytes(b64_of(chunk@)));
        assert(chunk@ =~= audio_chunks(audio@)[which as int]);
    }
    render_media_frame(stream_sid, pstr)
}

/// The chunk count, counting a trailing partial chunk.
pub proof fn lemma_audio_chunks_count(audio: Seq<u8>)
    ensures
        audio_chunks(audio).len()
            == (audio.len() + CHUNK_SIZE - 1) / CHUNK_SIZE as int,
    decreases audio.len(),
{
    if audio.len() > CHUNK_SIZE {
        lemma_audio_chunks_count(audio.skip(CHUNK_SIZE as int));
    }
}

fn bytes_range(s: &[u8], from: usize, to: usize) -> (r: Vec<u8>)
    requires
        from <= to <= s@.len(),
    ensures
        r@ == s@.subrange(from as int, to as int),
{
    let mut out: Vec<u8> = Vec::new();
    let mut i = from;
    while i < to
        invariant
            from <= i <= to <= s@.len(),
            out@ == s@.subrange(from as int, i as int),
        decreases to - i,
    {
        proof {
            assert(s@.subrange(from as int, i + 1)
                =~= s@.subrange(from as int, i as int) + seq![s@[i as int]]);
        }
        out.push(s[i]);
        i += 1;
    }
    out
}

/// Split audio into 160-byte frames for the given transport; the mark name
/// is used on the telephony envelope only.
pub fn audio_frame_run(telephony: bool, stream_sid: &str, audio: &[u8], mark_name: &str)
    -> (r: Vec<Vec<u8>>)
    ensures
        telephony ==> r.deep_view() == telephony_frames_spec(
            stream_sid.spec_bytes(), audio@, mark_name.spec_bytes()),
        !telephony ==> r.deep_view() == sidecar_frames_spec(audio@),
{
    let mut out: Vec<Vec<u8>> = Vec::new();
    let mut pos: usize = 0;
    let n = audio.len();
    proof {
        assert(audio@.skip(0) =~= audio@);
        assert(audio_chunks(audio@).take(0) =~= Seq::<Seq<u8>>::empty());
    }
    while pos < n
        invariant
            pos <= n,
            n == audio@.len(),
            pos < n ==> pos % CHUNK_SIZE == 0,
            out@.len() == audio_chunks(audio@).len() - audio_chunks(audio@.skip(pos as int)).len(),
            telephony ==> out.deep_view() =~~= audio_chunks(audio@).map(
                |_i: int, c: Seq<u8>| media_frame_spec(stream_sid.spec_bytes(),
                    ascii_bytes(b64_of(c)))).take(out@.len() as int),
            !telephony ==> out.deep_view() =~~= audio_chunks(audio@).map(
                |_i: int, c: Seq<u8>| sidecar_audio_frame_spec(ascii_bytes(b64_of(c))))
                .take(out@.len() as int),
            audio_chunks(audio@).take(out@.len() as int)
                + audio_chunks(audio@.skip(pos as int)) =~= audio_chunks(audio@),
        decreases n - pos,
    {
        let end = if n - pos > CHUNK_SIZE { pos + CHUNK_SIZE } else { n };
        let chunk = bytes_range(audio, pos, end);
        let payload = b64_encode(chunk.as_slice());
        let pstr = payload.as_str();
        proof {
            is_ascii_spec_bytes(pstr);
            assert(pstr.spec_bytes() =~= ascii_bytes(b64_of(chunk@)));
        }
        let frame = if telephony {
            render_media_frame(stream_sid, pstr)
        } else {
            render_sidecar_audio_frame(pstr)
        };
        proof {
            let rest = audio@.skip(pos as int);
            assert(chunk@ =~= if rest.len() <= CHUNK_SIZE {
                rest
            } else {
                rest.subrange(0, CHUNK_SIZE as int)
            });
            if rest.len() > CHUNK_SIZE {
                assert(rest.skip(CHUNK_SIZE as int) =~= audio@.skip(pos + CHUNK_SIZE));
            }
            assert(audio_chunks(rest)[0] == chunk@);
        }
        out.push(frame);
        pos = end;
        proof {
            let full = audio_chunks(audio@);
            assert(full[out@.len() - 1] == chunk@);
            assert(full.take(out@.len() as int)
                =~= full.take(out@.len() - 1) + seq![chunk@]);
            assert(full.take(out@.len() as int) + audio_chunks(audio@.skip(pos as int))
                =~= full);
            if telephony {
                assert(out.deep_view() =~~= full.map(
                    |_i: int, c: Seq<u8>| media_frame_spec(stream_sid.spec_bytes(),
                        ascii_bytes(b64_of(c)))).take(out@.len() as int));
            } else {
                assert(out.deep_view() =~~= full.map(
                    |_i: int, c: Seq<u8>| sidecar_audio_frame_spec(ascii_bytes(b64_of(c))))
                    .take(out@.len() as int));
            }
        }
    }
    proof {
        assert(audio@.skip(n as int) =~= Seq::<u8>::empty());
        assert(audio_chunks(audio@.skip(n as int)).len() == 0);
        let full = audio_chunks(audio@);
        assert(out@.len() == full.len());
        if telephony {
            assert(full.map(|_i: int, c: Seq<u8>| media_frame_spec(stream_sid.spec_bytes(),
                ascii_bytes(b64_of(c)))).take(out@.len() as int)
                =~= full.map(|_i: int, c: Seq<u8>| media_frame_spec(stream_sid.spec_bytes(),
                    ascii_bytes(b64_of(c)))));
        } else {
            assert(full.map(|_i: int, c: Seq<u8>| sidecar_audio_frame_spec(
                ascii_bytes(b64_of(c)))).take(out@.len() as int)
                =~= full.map(|_i: int, c: Seq<u8>| sidecar_audio_frame_spec(
                    ascii_bytes(b64_of(c)))));
        }
    }
    let mark = if telephony {
        render_mark_frame(stream_sid, mark_name)
    } else {
        render_sidecar_mark_frame()
    };
    out.push(mark);
    proof {
        if telephony {
            assert(out.deep_view() =~~= telephony_frames_spec(
                stream_sid.spec_bytes(), audio@, mark_name.spec_bytes()));
        } else {
            assert(out.deep_view() =~~= sidecar_frames_spec(audio@));
        }
    }
    out
}

} // verus!
