//! Text handling for the synthesis path: splitting long responses at
//! sentence boundaries so each request stays under the provider's
//! per-call character limit.

use vstd::prelude::*;

verus! {

/// ASCII whitespace, the characters the splitter may drop at chunk joins.
pub open spec fn is_ws(b: u8) -> bool {
    b == 32 || b == 9 || b == 10 || b == 11 || b == 12 || b == 13
}

/// A sentence boundary `". "`, `"! "` or `"? "` starting at `i`.
pub open spec fn is_boundary_at(s: Seq<u8>, i: int) -> bool {
    &&& 0 <= i
    &&& i + 2 <= s.len()
    &&& (s[i] == 46 || s[i] == 33 || s[i] == 63)
    &&& s[i + 1] == 32
}

/// End position of the right-most boundary that ends at or before `k`,
/// or -1 when there is none.
pub open spec fn boundary_end(s: Seq<u8>, k: int) -> int
    decreases k,
{
    if k < 2 {
        -1
    } else if is_boundary_at(s, k - 2) {
        k
    } else {
        boundary_end(s, k - 1)
    }
}

/// Number of leading whitespace bytes.
pub open spec fn ws_prefix_len(s: Seq<u8>) -> int
    decreases s.len(),
{
    if s.len() > 0 && is_ws(s[0]) {
        1 + ws_prefix_len(s.skip(1))
    } else {
        0
    }
}

/// The sequence with its leading whitespace removed.
pub open spec fn trim_start_spec(s: Seq<u8>) -> Seq<u8> {
    s.skip(ws_prefix_len(s))
}

/// Cut position of the first chunk: the right-most sentence boundary
/// inside the window, or a hard cut at the window edge.
pub open spec fn split_pos(s: Seq<u8>, max: int) -> int {
    let b = boundary_end(s, max);
    if b > 0 { b } else { max }
}

/// The chunks of a greedy sentence-boundary split. A remainder that is
/// all whitespace after a cut is dropped, never emitted as a chunk.
pub open spec fn split_text_spec(s: Seq<u8>, max: int) -> Seq<Seq<u8>>
    decreases s.len(),
    when max >= 1
    via split_text_spec_decreases
{
    if s.len() <= max {
        seq![s]
    } else {
        let pos = split_pos(s, max);
        let rest = trim_start_spec(s.skip(pos));
        if rest.len() == 0 {
            seq![s.subrange(0, pos)]
        } else {
            seq![s.subrange(0, pos)] + split_text_spec(rest, max)
        }
    }
}

proof fn lemma_ws_prefix_le(s: Seq<u8>)
    ensures
        0 <= ws_prefix_len(s) <= s.len(),
    decreases s.len(),
{
    if s.len() > 0 && is_ws(s[0]) {
        lemma_ws_prefix_le(s.skip(1));
    }
}

proof fn lemma_boundary_end_range(s: Seq<u8>, k: int)
    ensures
        boundary_end(s, k) == -1 || 2 <= boundary_end(s, k) <= k,
        boundary_end(s, k) >= 2 ==> is_boundary_at(s, boundary_end(s, k) - 2),
    decreases k,
{
    if k >= 2 && !is_boundary_at(s, k - 2) {
        lemma_boundary_end_range(s, k - 1);
    }
}

#[via_fn]
proof fn split_text_spec_decreases(s: Seq<u8>, max: int) {
    if s.len() > max {
        let pos = split_pos(s, max);
        lemma_boundary_end_range(s, max);
        lemma_ws_prefix_le(s.skip(pos));
    }
}

/// Split text at sentence boundaries to stay under the character limit;
/// when no boundary falls inside the window, cut hard at the limit.
pub fn split_text(text: &[u8], max_chars: usize) -> (r: Vec<Vec<u8>>)
    requires
        max_chars >= 1,
    ensures
        r.deep_view() == split_text_spec(text@, max_chars as int),
{
    let mut chunks: Vec<Vec<u8>> = Vec::new();
    let mut remaining: Vec<u8> = slice_to_vec(text);
    let ghost whole = split_text_spec(text@, max_chars as int);
    loop
        invariant
            max_chars >= 1,
            whole == split_text_spec(text@, max_chars as int),
            whole == chunks.deep_view() + split_text_spec(remaining@, max_chars as int),
        decreases remaining@.len(),
    {
        if remaining.len() <= max_chars {
            proof {
                assert(split_text_spec(remaining@, max_chars as int) == seq![remaining@]);
            }
            chunks.push(remaining);
            proof {
                assert(chunks.deep_view() =~~= whole);
            }
            return chunks;
        }
        // Right-most sentence boundary whose end fits in the window.
        let mut pos: usize = max_chars;
        let mut k: usize = max_chars;
        let mut found = false;
        while k >= 2 && !found
            invariant
                2 <= max_chars || k == max_chars,
                k <= max_chars <= remaining@.len(),
                found ==> 2 <= pos <= max_chars && boundary_end(remaining@, max_chars as int)
                    == pos as int,
                !found ==> pos == max_chars
                    && boundary_end(remaining@, max_chars as int)
                        == boundary_end(remaining@, k as int),
            decreases (if found { 0int } else { k as int + 1 }),
        {
            let c = remaining[k - 2];
            if (c == 46 || c == 33 || c == 63) && remaining[k - 1] == 32 {
                // boundary ". ", "! " or "? " ends at k
                pos = k;
                found = true;
            } else {
                k -= 1;
            }
        }
        proof {
            lemma_boundary_end_range(remaining@, max_chars as int);
            if !found {
                assert(boundary_end(remaining@, k as int) == -1);
            }
            assert(pos as int == split_pos(remaining@, max_chars as int));
        }
        // Emit the chunk, drop it and any following whitespace.
        let mut chunk: Vec<u8> = Vec::new();
        let mut i: usize = 0;
        while i < pos
            invariant
                i <= pos <= remaining@.len(),
                chunk@ == remaining@.subrange(0, i as int),
            decreases pos - i,
        {
            proof {
                assert(remaining@.subrange(0, i + 1) =~= remaining@.subrange(0, i as int)
                    + seq![remaining@[i as int]]);
            }
            chunk.push(remaining[i]);
            i += 1;
        }
        let ghost old_remaining = remaining@;
        let mut j: usize = pos;
        while j < remaining.len() && is_ws_byte(remaining[j])
            invariant
                pos <= j <= old_remaining.len(),
                remaining@ == old_remaining,
                ws_prefix_len(old_remaining.skip(pos as int))
                    == j - pos + ws_prefix_len(old_remaining.skip(j as int)),
            decreases remaining@.len() - j,
        {
            proof {
                assert(old_remaining.skip(j as int).skip(1) =~= old_remaining.skip(j + 1));
            }
            j += 1;
        }
        proof {
            if j < old_remaining.len() {
                assert(ws_prefix_len(old_remaining.skip(j as int)) == 0);
            }
            lemma_ws_prefix_le(old_remaining.skip(j as int));
            assert(ws_prefix_len(old_remaining.skip(pos as int)) == j - pos);
            assert(trim_start_spec(old_remaining.skip(pos as int))
                =~= old_remaining.skip(j as int));
        }
        let mut rest: Vec<u8> = Vec::new();
        let mut m: usize = j;
        while m < remaining.len()
            invariant
                j <= m <= old_remaining.len(),
                remaining@ == old_remaining,
                rest@ == old_remaining.subrange(j as int, m as int),
            decreases remaining@.len() - m,
        {
            proof {
                assert(old_remaining.subrange(j as int, m + 1)
                    =~= old_remaining.subrange(j as int, m as int) + seq![old_remaining[m as int]]);
            }
            rest.push(remaining[m]);
            m += 1;
        }
        proof {
            assert(rest@ =~= old_remaining.skip(j as int));
        }
        chunks.push(chunk);
        if rest.len() == 0 {
            proof {
                assert(split_text_spec(old_remaining, max_chars as int)
                    == seq![old_remaining.subrange(0, pos as int)]);
                assert(chunks.deep_view() =~~= whole);
            }
            return chunks;
        }
        proof {
            assert(split_text_spec(old_remaining, max_chars as int)
                == seq![old_remaining.subrange(0, pos as int)]
                    + split_text_spec(rest@, max_chars as int));
        }
        remaining = rest;
        proof {
            assert(chunks.deep_view() + split_text_spec(remaining@, max_chars as int)
                =~~= whole);
        }
    }
}

/// One byte of ASCII whitespace.
fn is_ws_byte(b: u8) -> (r: bool)
    ensures
        r == is_ws(b),
{
    b == 32 || b == 9 || b == 10 || b == 11 || b == 12 || b == 13
}

fn slice_to_vec(s: &[u8]) -> (r: Vec<u8>)
    ensures
        r@ == s@,
{
    let mut out: Vec<u8> = Vec::new();
    let mut i: usize = 0;
    while i < s.len()
        invariant
            i <= s@.len(),
            out@ == s@.subrange(0, i as int),
        decreases s@.len() - i,
    {
        proof {
            assert(s@.subrange(0, i + 1) =~= s@.subrange(0, i as int) + seq![s@[i as int]]);
        }
        out.push(s[i]);
        i += 1;
    }
    proof {
        assert(s@.subrange(0, s@.len() as int) =~= s@);
    }
    out
}

/// Every chunk of a split fits the window, and no chunk of a non-empty
/// text is empty.
pub proof fn lemma_split_chunks_fit(s: Seq<u8>, max: int)
    requires
        max >= 1,
    ensures
        forall|i: int| 0 <= i < split_text_spec(s, max).len()
            ==> #[trigger] split_text_spec(s, max)[i].len() <= max,
        s.len() > 0 ==> forall|i: int| 0 <= i < split_text_spec(s, max).len()
            ==> #[trigger] split_text_spec(s, max)[i].len() > 0,
    decreases s.len(),
{
    if s.len() > max {
        let pos = split_pos(s, max);
        lemma_boundary_end_range(s, max);
        lemma_ws_prefix_le(s.skip(pos));
        if trim_start_spec(s.skip(pos)).len() > 0 {
            lemma_split_chunks_fit(trim_start_spec(s.skip(pos)), max);
            let cs = split_text_spec(s, max);
            let tail = split_text_spec(trim_start_spec(s.skip(pos)), max);
            assert forall|i: int| 0 <= i < cs.len()
                implies #[trigger] cs[i].len() <= max by {
                if i > 0 {
                    assert(cs[i] == tail[i - 1]);
                }
            }
        }
    }
}

/// Whitespace-only byte runs.
pub open spec fn all_ws(g: Seq<u8>) -> bool {
    forall|i: int| 0 <= i < g.len() ==> is_ws(#[trigger] g[i])
}

/// The chunks interleaved with the gaps that were trimmed between them.
pub open spec fn weave(cs: Seq<Seq<u8>>, gs: Seq<Seq<u8>>) -> Seq<u8>
    decreases cs.len(),
{
    if cs.len() == 0 {
        Seq::empty()
    } else {
        cs[0] + gs[0] + weave(cs.skip(1), gs.skip(1))
    }
}

/// Concatenating the chunks gives the input back, up to the single run of
/// whitespace trimmed after each cut: there are whitespace-only gaps that
/// weave the chunks back into the original text.
pub proof fn lemma_split_reassembles(s: Seq<u8>, max: int)
    requires
        max >= 1,
    ensures
        exists|gs: Seq<Seq<u8>>| {
            &&& gs.len() == split_text_spec(s, max).len()
            &&& (forall|i: int| 0 <= i < gs.len() ==> all_ws(#[trigger] gs[i]))
            &&& weave(split_text_spec(s, max), gs) == s
        },
    decreases s.len(),
{
    let cs = split_text_spec(s, max);
    if s.len() <= max {
        let gs = seq![Seq::<u8>::empty()];
        assert(cs.skip(1) =~= Seq::<Seq<u8>>::empty());
        assert(gs.skip(1) =~= Seq::<Seq<u8>>::empty());
        assert(weave(cs.skip(1), gs.skip(1)) == Seq::<u8>::empty());
        assert(weave(cs, gs) =~= s);
        assert(gs.len() == cs.len() && (forall|i: int| 0 <= i < gs.len()
            ==> all_ws(#[trigger] gs[i])) && weave(cs, gs) == s);
    } else if trim_start_spec(s.skip(split_pos(s, max))).len() == 0 {
        let pos = split_pos(s, max);
        lemma_boundary_end_range(s, max);
        let rest = s.skip(pos);
        lemma_ws_prefix_le(rest);
        lemma_ws_prefix_all_ws(rest);
        // the whole remainder is whitespace: it is the single gap
        let gs = seq![rest];
        assert(ws_prefix_len(rest) == rest.len());
        assert(rest =~= rest.subrange(0, ws_prefix_len(rest)));
        assert(cs.skip(1) =~= Seq::<Seq<u8>>::empty());
        assert(gs.skip(1) =~= Seq::<Seq<u8>>::empty());
        assert(weave(cs.skip(1), gs.skip(1)) == Seq::<u8>::empty());
        assert(weave(cs, gs) =~= s);
        assert(gs.len() == cs.len() && (forall|i: int| 0 <= i < gs.len()
            ==> all_ws(#[trigger] gs[i])) && weave(cs, gs) == s);
    } else {
        let pos = split_pos(s, max);
        lemma_boundary_end_range(s, max);
        let rest = s.skip(pos);
        lemma_ws_prefix_le(rest);
        let w = ws_prefix_len(rest);
        let gap = rest.subrange(0, w);
        lemma_ws_prefix_all_ws(rest);
        lemma_split_reassembles(trim_start_spec(rest), max);
        let gs0 = choose|gs0: Seq<Seq<u8>>| {
            &&& gs0.len() == split_text_spec(trim_start_spec(rest), max).len()
            &&& (forall|i: int| 0 <= i < gs0.len() ==> all_ws(#[trigger] gs0[i]))
            &&& weave(split_text_spec(trim_start_spec(rest), max), gs0) == trim_start_spec(rest)
        };
        let gs = seq![gap] + gs0;
        assert(cs.len() == 1 + split_text_spec(trim_start_spec(rest), max).len());
        assert(cs.skip(1) =~= split_text_spec(trim_start_spec(rest), max));
        assert(gs.skip(1) =~= gs0);
        assert(weave(cs, gs) == cs[0] + gap + trim_start_spec(rest));
        assert(cs[0] + gap + trim_start_spec(rest) =~= s);
        assert(gs.len() == cs.len() && (forall|i: int| 0 <= i < gs.len()
            ==> all_ws(#[trigger] gs[i])) && weave(cs, gs) == s);
    }
}

proof fn lemma_ws_prefix_all_ws(s: Seq<u8>)
    ensures
        all_ws(s.subrange(0, ws_prefix_len(s))),
    decreases s.len(),
{
    lemma_ws_prefix_le(s);
    if s.len() > 0 && is_ws(s[0]) {
        lemma_ws_prefix_all_ws(s.skip(1));
        assert forall|i: int| 0 <= i < ws_prefix_len(s)
            implies is_ws(#[trigger] s.subrange(0, ws_prefix_len(s))[i]) by {
            if i > 0 {
                lemma_ws_prefix_le(s.skip(1));
                assert(s.skip(1).subrange(0, ws_prefix_len(s.skip(1)))[i - 1] == s[i]);
            }
        }
    }
}

/// A boundary cut is preferred to a hard cut: when some sentence boundary
/// ends inside the window of an oversized text, the first chunk ends with
/// that kind of boundary.
pub proof fn lemma_split_prefers_boundary(s: Seq<u8>, max: int, i: int)
    requires
        max >= 1,
        s.len() > max,
        is_boundary_at(s, i),
        i + 2 <= max,
    ensures
        ({
            let c = split_text_spec(s, max)[0];
            c.len() >= 2 && is_boundary_at(s, c.len() - 2) && c.len() == split_pos(s, max)
        }),
{
    lemma_boundary_end_ge(s, max, i);
    lemma_boundary_end_range(s, max);
    let pos = split_pos(s, max);
    assert(split_text_spec(s, max)[0] == s.subrange(0, pos));
}

proof fn lemma_boundary_end_ge(s: Seq<u8>, k: int, i: int)
    requires
        is_boundary_at(s, i),
        i + 2 <= k,
    ensures
        boundary_end(s, k) >= i + 2,
    decreases k,
{
    if k > i + 2 {
        if !is_boundary_at(s, k - 2) {
            lemma_boundary_end_ge(s, k - 1, i);
        }
    }
}

/// String equality by bytes; UTF-8 encoding is injective, so equal bytes
/// mean equal character sequences.
pub fn str_eq(a: &str, b: &str) -> (r: bool)
    ensures
        r == (a@ == b@),
{
    let ab = a.as_bytes();
    let bb = b.as_bytes();
    proof {
        if a@ == b@ {
            assert(ab@ == bb@);
        }
    }
    if ab.len() != bb.len() {
        return false;
    }
    let mut i: usize = 0;
    while i < ab.len()
        invariant
            i <= ab@.len(),
            ab@.len() == bb@.len(),
            ab@ == vstd::utf8::encode_utf8(a@),
            bb@ == vstd::utf8::encode_utf8(b@),
            forall|j: int| 0 <= j < i ==> ab@[j] == bb@[j],
        decreases ab@.len() - i,
    {
        if ab[i] != bb[i] {
            proof {
                if a@ == b@ {
                    assert(ab@ == bb@);
                }
            }
            return false;
        }
        i += 1;
    }
    proof {
        assert(ab@ =~= bb@);
        vstd::utf8::encode_utf8_decode_utf8(a@);
        vstd::utf8::encode_utf8_decode_utf8(b@);
    }
    true
}

/// ASCII lower-case image of one character.
pub open spec fn to_lower_char(c: char) -> char {
    if 65 <= c as u32 <= 90 {
        ((c as u32 + 32) as u8) as char
    } else {
        c
    }
}

/// ASCII lower-case image of a character sequence.
pub open spec fn to_lower_seq(s: Seq<char>) -> Seq<char> {
    s.map(|_i: int, c: char| to_lower_char(c))
}

/// ASCII case-insensitive equality of two strings.
pub fn eq_ignore_ascii_case(a: &str, b: &str) -> (r: bool)
    ensures
        r == (to_lower_seq(a@) == to_lower_seq(b@)),
{
    let n = a.unicode_len();
    let m = b.unicode_len();
    if n != m {
        proof {
            assert(to_lower_seq(a@).len() != to_lower_seq(b@).len());
        }
        return false;
    }
    let mut i: usize = 0;
    while i < n
        invariant
            i <= n,
            n == a@.len(),
            n == b@.len(),
            forall|j: int| 0 <= j < i
                ==> to_lower_char(#[trigger] a@[j]) == to_lower_char(b@[j]),
        decreases n - i,
    {
        let ca = a.get_char(i);
        let cb = b.get_char(i);
        if lower_char(ca) != lower_char(cb) {
            proof {
                assert(to_lower_seq(a@)[i as int] != to_lower_seq(b@)[i as int]);
            }
            return false;
        }
        i += 1;
    }
    proof {
        assert(to_lower_seq(a@) =~= to_lower_seq(b@));
    }
    true
}

/// One character folded to ASCII lower case.
fn lower_char(c: char) -> (r: char)
    ensures
        r == to_lower_char(c),
{
    let u = c as u32;
    if 65 <= u && u <= 90 {
        ((u + 32) as u8) as char
    } else {
        c
    }
}

/// Text the speech-to-text model is known to produce from silence or
/// noise: an ASCII case-insensitive exact match against the fixed list.
/// Substrings of list entries inside longer speech do not match.
pub open spec fn is_hallucination_spec(t: Seq<char>) -> bool {
    let l = to_lower_seq(t);
    ||| l == "thank you"@
    ||| l == "thank you."@
    ||| l == "thanks for watching"@
    ||| l == "thanks for watching."@
    ||| l == "thank you for watching"@
    ||| l == "thank you for watching."@
    ||| l == "subscribe"@
    ||| l == "like and subscribe"@
    ||| l == "bye"@
    ||| l == "bye."@
    ||| l == "bye bye"@
    ||| l == "bye bye."@
    ||| l == "you"@
    ||| l == "you."@
    ||| l == "the end"@
    ||| l == "the end."@
    ||| l == "so"@
    ||| l == "..."@
    ||| l == "eh"@
    ||| l == "hmm"@
    ||| l == "uh"@
    ||| l == "oh"@
    ||| l == "amen"@
    ||| l == "amen."@
}

proof fn lemma_lower_fixed(s: Seq<char>)
    requires
        forall|i: int| 0 <= i < s.len() ==> !(65 <= (#[trigger] s[i]) as u32 <= 90),
    ensures
        to_lower_seq(s) == s,
{
    assert(to_lower_seq(s) =~= s);
}

/// Known speech-to-text hallucinations, matched whole and without regard
/// to ASCII case.
pub fn is_whisper_hallucination(transcript: &str) -> (r: bool)
    ensures
        r == is_hallucination_spec(transcript@),
{
    let r = eq_ignore_ascii_case(transcript, "thank you")
        || eq_ignore_ascii_case(transcript, "thank you.")
        || eq_ignore_ascii_case(transcript, "thanks for watching")
        || eq_ignore_ascii_case(transcript, "thanks for watching.")
        || eq_ignore_ascii_case(transcript, "thank you for watching")
        || eq_ignore_ascii_case(transcript, "thank you for watching.")
        || eq_ignore_ascii_case(transcript, "subscribe")
        || eq_ignore_ascii_case(transcript, "like and subscribe")
        || eq_ignore_ascii_case(transcript, "bye")
        || eq_ignore_ascii_case(transcript, "bye.")
        || eq_ignore_ascii_case(transcript, "bye bye")
        || eq_ignore_ascii_case(transcript, "bye bye.")
        || eq_ignore_ascii_case(transcript, "you")
        || eq_ignore_ascii_case(transcript, "you.")
        || eq_ignore_ascii_case(transcript, "the end")
        || eq_ignore_ascii_case(transcript, "the end.")
        || eq_ignore_ascii_case(transcript, "so")
        || eq_ignore_ascii_case(transcript, "...")
        || eq_ignore_ascii_case(transcript, "eh")
        || eq_ignore_ascii_case(transcript, "hmm")
        || eq_ignore_ascii_case(transcript, "uh")
        || eq_ignore_ascii_case(transcript, "oh")
        || eq_ignore_ascii_case(transcript, "amen")
        || eq_ignore_ascii_case(transcript, "amen.");
    proof {
        reveal_strlit("thank you");
        reveal_strlit("thank you.");
        reveal_strlit("thanks for watching");
        reveal_strlit("thanks for watching.");
        reveal_strlit("thank you for watching");
        reveal_strlit("thank you for watching.");
        reveal_strlit("subscribe");
        reveal_strlit("like and subscribe");
        reveal_strlit("bye");
        reveal_strlit("bye.");
        reveal_strlit("bye bye");
        reveal_strlit("bye bye.");
        reveal_strlit("you");
        reveal_strlit("you.");
        reveal_strlit("the end");
        reveal_strlit("the end.");
        reveal_strlit("so");
        reveal_strlit("...");
        reveal_strlit("eh");
        reveal_strlit("hmm");
        reveal_strlit("uh");
        reveal_strlit("oh");
        reveal_strlit("amen");
        reveal_strlit("amen.");
        lemma_lower_fixed("thank you"@);
        lemma_lower_fixed("thank you."@);
        lemma_lower_fixed("thanks for watching"@);
        lemma_lower_fixed("thanks for watching."@);
        lemma_lower_fixed("thank you for watching"@);
        lemma_lower_fixed("thank you for watching."@);
        lemma_lower_fixed("subscribe"@);
        lemma_lower_fixed("like and subscribe"@);
        lemma_lower_fixed("bye"@);
        lemma_lower_fixed("bye."@);
        lemma_lower_fixed("bye bye"@);
        lemma_lower_fixed("bye bye."@);
        lemma_lower_fixed("you"@);
        lemma_lower_fixed("you."@);
        lemma_lower_fixed("the end"@);
        lemma_lower_fixed("the end."@);
        lemma_lower_fixed("so"@);
        lemma_lower_fixed("..."@);
        lemma_lower_fixed("eh"@);
        lemma_lower_fixed("hmm"@);
        lemma_lower_fixed("uh"@);
        lemma_lower_fixed("oh"@);
        lemma_lower_fixed("amen"@);
        lemma_lower_fixed("amen."@);
    }
    r
}

/// Unicode white space (the White_Space property), the set the
/// original transcript trimming removes.
pub open spec fn is_ws_char(c: char) -> bool {
    let u = c as u32;
    ||| u == 0x20
    ||| (0x09 <= u && u <= 0x0d)
    ||| u == 0x85
    ||| u == 0xa0
    ||| u == 0x1680
    ||| (0x2000 <= u && u <= 0x200a)
    ||| u == 0x2028
    ||| u == 0x2029
    ||| u == 0x202f
    ||| u == 0x205f
    ||| u == 0x3000
}

/// Number of leading whitespace characters.
pub open spec fn ws_prefix_chars(s: Seq<char>) -> int
    decreases s.len(),
{
    if s.len() > 0 && is_ws_char(s[0]) {
        1 + ws_prefix_chars(s.skip(1))
    } else {
        0
    }
}

/// Number of trailing whitespace characters.
pub open spec fn ws_suffix_chars(s: Seq<char>) -> int
    decreases s.len(),
{
    if s.len() > 0 && is_ws_char(s.last()) {
        1 + ws_suffix_chars(s.drop_last())
    } else {
        0
    }
}

/// The string with leading and trailing white space removed.
pub open spec fn trim_spec(s: Seq<char>) -> Seq<char> {
    let p = ws_prefix_chars(s);
    if p == s.len() {
        Seq::empty()
    } else {
        s.subrange(p, s.len() - ws_suffix_chars(s))
    }
}

proof fn lemma_ws_prefix_chars_le(s: Seq<char>)
    ensures
        0 <= ws_prefix_chars(s) <= s.len(),
        forall|i: int| 0 <= i < ws_prefix_chars(s) ==> is_ws_char(#[trigger] s[i]),
        ws_prefix_chars(s) < s.len() ==> !is_ws_char(s[ws_prefix_chars(s)]),
    decreases s.len(),
{
    if s.len() > 0 && is_ws_char(s[0]) {
        lemma_ws_prefix_chars_le(s.skip(1));
        assert forall|i: int| 0 <= i < ws_prefix_chars(s)
            implies is_ws_char(#[trigger] s[i]) by {
            if i > 0 {
                assert(s.skip(1)[i - 1] == s[i]);
            }
        }
        if ws_prefix_chars(s) < s.len() {
            assert(s.skip(1)[ws_prefix_chars(s) - 1] == s[ws_prefix_chars(s)]);
        }
    }
}

proof fn lemma_ws_suffix_chars_le(s: Seq<char>)
    ensures
        0 <= ws_suffix_chars(s) <= s.len(),
        forall|i: int| s.len() - ws_suffix_chars(s) <= i < s.len()
            ==> is_ws_char(#[trigger] s[i]),
        ws_suffix_chars(s) < s.len() ==> !is_ws_char(s[s.len() - ws_suffix_chars(s) - 1]),
    decreases s.len(),
{
    if s.len() > 0 && is_ws_char(s.last()) {
        lemma_ws_suffix_chars_le(s.drop_last());
        assert forall|i: int| s.len() - ws_suffix_chars(s) <= i < s.len()
            implies is_ws_char(#[trigger] s[i]) by {
            if i < s.len() - 1 {
                assert(s.drop_last()[i] == s[i]);
            } else {
                assert(s[i] == s.last());
            }
        }
        if ws_suffix_chars(s) < s.len() {
            assert(s.drop_last()[s.len() - ws_suffix_chars(s) - 1]
                == s[s.len() - ws_suffix_chars(s) - 1]);
        }
    }
}

/// The transcript with white space stripped from both ends.
pub fn trim_whitespace(s: &str) -> (r: String)
    ensures
        r@ == trim_spec(s@),
{
    let n = s.unicode_len();
    proof {
        assert(s@.skip(0) =~= s@);
    }
    let mut from: usize = 0;
    while from < n && is_ws_exec(s.get_char(from))
        invariant
            from <= n,
            n == s@.len(),
            ws_prefix_chars(s@) == from + ws_prefix_chars(s@.skip(from as int)),
        decreases n - from,
    {
        proof {
            assert(s@.skip(from as int).skip(1) =~= s@.skip(from + 1));
        }
        from += 1;
    }
    proof {
        if from < n {
            assert(ws_prefix_chars(s@.skip(from as int)) == 0);
        }
        lemma_ws_prefix_chars_le(s@.skip(from as int));
        assert(ws_prefix_chars(s@) == from as int);
    }
    if from == n {
        proof {
            assert(trim_spec(s@) =~= Seq::<char>::empty());
        }
        let r = s.substring_char(n, n);
        return r.to_owned();
    }
    proof {
        assert(s@.subrange(0, n as int) =~= s@);
    }
    let mut to: usize = n;
    while to > from && is_ws_exec(s.get_char(to - 1))
        invariant
            from < to <= n,
            from < n,
            n == s@.len(),
            !is_ws_char(s@[from as int]),
            ws_suffix_chars(s@) == n - to + ws_suffix_chars(s@.subrange(0, to as int)),
        decreases to,
    {
        proof {
            assert(s@.subrange(0, to as int).drop_last() =~= s@.subrange(0, to - 1));
            assert(s@.subrange(0, to as int).last() == s@[to - 1]);
        }
        to -= 1;
    }
    proof {
        lemma_ws_suffix_chars_le(s@.subrange(0, to as int));
        assert(to > from);
        assert(s@.subrange(0, to as int).last() == s@[to - 1]);
        assert(ws_suffix_chars(s@.subrange(0, to as int)) == 0);
        assert(ws_suffix_chars(s@) == n - to);
        assert(trim_spec(s@) =~= s@.subrange(from as int, to as int));
    }
    let r = s.substring_char(from, to);
    r.to_owned()
}

/// One character of white space.
fn is_ws_exec(c: char) -> (r: bool)
    ensures
        r == is_ws_char(c),
{
    let u = c as u32;
    u == 0x20 || (0x09 <= u && u <= 0x0d) || u == 0x85 || u == 0xa0 || u == 0x1680
        || (0x2000 <= u && u <= 0x200a) || u == 0x2028 || u == 0x2029 || u == 0x202f
        || u == 0x205f || u == 0x3000
}

} // verus!
