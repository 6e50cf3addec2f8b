//! Control-plane logic: bearer-token checks, phone-number validation,
//! webhook responses and the outbound call request, all as pure functions
//! over plain values.

use vstd::prelude::*;
use vstd::string::StringSliceAdditionalSpecFns;

verus! {

/// Body of a request to start an outbound call.
pub struct CallRequest {
    /// Number to call, in E.164 form.
    pub to: String,
    /// Optional initial message spoken when the call is answered.
    pub message: Option<String>,
    /// Optional context for the agent: why this call is being made.
    pub context: Option<String>,
}

/// Body of a successful outbound call response.
pub struct CallResponse {
    pub call_sid: String,
    pub status: String,
}

/// Body of a request to inject audio into a live call.
pub struct InjectRequest {
    /// The call to inject audio into.
    pub call_sid: String,
    /// Text to synthesize and speak into the call.
    pub text: String,
}

/// Query parameters of the outbound voice webhook.
pub struct OutboundQuery {
    pub message: Option<String>,
}

/// Outcome of the bearer-token check.
#[derive(Clone, Copy, Debug, PartialEq, Eq, Structural)]
pub enum AuthOutcome {
    /// Token present and equal to the configured secret.
    Authorized,
    /// Token missing or wrong: reject with 401.
    Unauthorized,
    /// No secret configured: reject every request with 503.
    Unconfigured,
}

/// Check a bearer token against the configured secret. An empty secret
/// rejects everything; otherwise only the exact token is accepted.
pub fn check_auth(provided: Option<&str>, expected_token: &str) -> (r: AuthOutcome)
    ensures
        expected_token@.len() == 0 ==> r == AuthOutcome::Unconfigured,
        expected_token@.len() > 0 ==> match provided {
            Some(t) => r == if t@ == expected_token@ {
                AuthOutcome::Authorized
            } else {
                AuthOutcome::Unauthorized
            },
            None => r == AuthOutcome::Unauthorized,
        },
{
    if expected_token.unicode_len() == 0 {
        return AuthOutcome::Unconfigured;
    }
    match provided {
        Some(token) => {
            if crate::text::str_eq(token, expected_token) {
                AuthOutcome::Authorized
            } else {
                AuthOutcome::Unauthorized
            }
        }
        None => AuthOutcome::Unauthorized,
    }
}

/// A valid E.164 number: `+` followed by 7 to 15 digits.
pub open spec fn valid_e164(b: Seq<u8>) -> bool {
    &&& 8 <= b.len() <= 16
    &&& b[0] == 43
    &&& forall|i: int| 1 <= i < b.len() ==> 48 <= #[trigger] b[i] <= 57
}

/// Validate an E.164 phone number: accepts `+` followed by 7-15 digits
/// and rejects everything else.
pub fn validate_e164(s: &str) -> (r: bool)
    ensures
        r == valid_e164(s.spec_bytes()),
{
    let b = s.as_bytes();
    if b.len() < 8 || b.len() > 16 {
        return false;
    }
    if b[0] != 43 {
        // '+'
        return false;
    }
    let mut i: usize = 1;
    while i < b.len()
        invariant
            1 <= i <= b@.len(),
            b@ == s.spec_bytes(),
            forall|j: int| 1 <= j < i ==> 48 <= #[trigger] b@[j] <= 57,
        decreases b@.len() - i,
    {
        let c = b[i];
        if c < 48 || c > 57 {
            proof {
                assert(!(48 <= b@[i as int] <= 57));
            }
            return false;
        }
        i += 1;
    }
    true
}

/// A byte that percent-encoding passes through unchanged (RFC 3986
/// unreserved characters).
pub open spec fn url_plain(b: u8) -> bool {
    ||| 65 <= b <= 90
    ||| 97 <= b <= 122
    ||| 48 <= b <= 57
    ||| b == 45
    ||| b == 95
    ||| b == 46
    ||| b == 126
}

/// One upper-case hexadecimal digit.
pub open spec fn hex_upper(v: int) -> u8 {
    if v < 10 { (48 + v) as u8 } else { (55 + v) as u8 }
}

/// Percent-encoding of one byte.
pub open spec fn url_byte(b: u8) -> Seq<u8> {
    if url_plain(b) {
        seq![b]
    } else {
        seq![37u8, hex_upper(b as int / 16), hex_upper(b as int % 16)]
    }
}

/// Percent-encoding of a byte run.
pub open spec fn urlencoded_spec(s: Seq<u8>) -> Seq<u8>
    decreases s.len(),
{
    if s.len() == 0 {
        Seq::empty()
    } else {
        urlencoded_spec(s.drop_last()) + url_byte(s.last())
    }
}

/// Percent-encode a query parameter value per RFC 3986: unreserved bytes
/// pass through, every other byte becomes `%XX`.
pub fn urlencoded(s: &str) -> (r: Vec<u8>)
    ensures
        r@ == urlencoded_spec(s.spec_bytes()),
{
    let b = s.as_bytes();
    let mut out: Vec<u8> = Vec::new();
    let mut i: usize = 0;
    while i < b.len()
        invariant
            i <= b@.len(),
            out@ == urlencoded_spec(b@.subrange(0, i as int)),
        decreases b@.len() - i,
    {
        let c = b[i];
        proof {
            assert(b@.subrange(0, i + 1).drop_last() =~= b@.subrange(0, i as int));
            assert(b@.subrange(0, i + 1).last() == b@[i as int]);
        }
        let plain = (65 <= c && c <= 90) || (97 <= c && c <= 122) || (48 <= c && c <= 57)
            || c == 45 || c == 95 || c == 46 || c == 126;
        if plain {
            out.push(c);
        } else {
            out.push(37); // '%'
            out.push(if c / 16 < 10 { 48 + c / 16 } else { 55 + c / 16 });
            out.push(if c % 16 < 10 { 48 + c % 16 } else { 55 + c % 16 });
        }
        proof {
            assert(out@ =~= urlencoded_spec(b@.subrange(0, i + 1)));
        }
        i += 1;
    }
    proof {
        assert(b@.subrange(0, b@.len() as int) =~= b@);
    }
    out
}

/// Replacement of every occurrence of `pat` by `rep`, scanning left to
/// right without revisiting replaced text.
pub open spec fn replace_spec(h: Seq<u8>, pat: Seq<u8>, rep: Seq<u8>) -> Seq<u8>
    decreases h.len(),
    when pat.len() >= 1
{
    if h.len() < pat.len() {
        h
    } else if h.subrange(0, pat.len() as int) == pat {
        rep + replace_spec(h.skip(pat.len() as int), pat, rep)
    } else {
        h.subrange(0, 1) + replace_spec(h.skip(1), pat, rep)
    }
}

/// Replace every occurrence of `pat` in `h` by `rep`.
pub fn replace_all(h: &[u8], pat: &[u8], rep: &[u8]) -> (r: Vec<u8>)
    requires
        pat@.len() >= 1,
    ensures
        r@ == replace_spec(h@, pat@, rep@),
{
    let mut out: Vec<u8> = Vec::new();
    proof {
        assert(h@.skip(0) =~= h@);
    }
    let mut i: usize = 0;
    while i < h.len()
        invariant
            i <= h@.len(),
            pat@.len() >= 1,
            replace_spec(h@, pat@, rep@) == out@ + replace_spec(h@.skip(i as int), pat@, rep@),
        decreases h@.len() - i,
    {
        let matched = if h.len() - i >= pat.len() {
            prefix_eq(h, i, pat)
        } else {
            false
        };
        proof {
            let rest = h@.skip(i as int);
            assert(rest.subrange(0, 1) =~= seq![h@[i as int]]);
            if rest.len() >= pat@.len() {
                assert(rest.subrange(0, pat@.len() as int)
                    =~= h@.subrange(i as int, i + pat@.len()));
            }
        }
        if matched {
            let ghost before = out@;
            let mut q: usize = 0;
            while q < rep.len()
                invariant
                    q <= rep@.len(),
                    out@ == before + rep@.subrange(0, q as int),
                decreases rep@.len() - q,
            {
                proof {
                    assert(before + rep@.subrange(0, q + 1)
                        =~= (before + rep@.subrange(0, q as int)) + seq![rep@[q as int]]);
                }
                out.push(rep[q]);
                q += 1;
            }
            proof {
                assert(rep@.subrange(0, rep@.len() as int) =~= rep@);
                assert(h@.skip(i as int).skip(pat@.len() as int)
                    =~= h@.skip(i + pat@.len()));
            }
            i += pat.len();
        } else {
            out.push(h[i]);
            proof {
                assert(h@.skip(i as int).skip(1) =~= h@.skip(i + 1));
            }
            i += 1;
        }
    }
    proof {
        assert(h@.skip(i as int).len() == 0);
        assert(replace_spec(h@.skip(i as int), pat@, rep@) =~= Seq::<u8>::empty());
    }
    out
}

/// XML escape: the five predefined entities, applied as successive
/// whole-text replacements, ampersand first.
pub open spec fn xml_escaped(s: Seq<u8>) -> Seq<u8> {
    let s1 = replace_spec(s, seq![38u8], ascii("&amp;"@));
    let s2 = replace_spec(s1, seq![60u8], ascii("&lt;"@));
    let s3 = replace_spec(s2, seq![62u8], ascii("&gt;"@));
    let s4 = replace_spec(s3, seq![34u8], ascii("&quot;"@));
    replace_spec(s4, seq![39u8], ascii("&apos;"@))
}

/// ASCII bytes of a character sequence.
pub open spec fn ascii(s: Seq<char>) -> Seq<u8> {
    crate::frames::ascii_bytes(s)
}

/// Escape text for embedding in an XML element body or attribute.
pub fn escape_xml(s: &str) -> (r: Vec<u8>)
    ensures
        r@ == xml_escaped(s.spec_bytes()),
{
    proof {
        reveal_strlit("&amp;");
        reveal_strlit("&lt;");
        reveal_strlit("&gt;");
        reveal_strlit("&quot;");
        reveal_strlit("&apos;");
    }
    let amp = lit_vec("&amp;");
    let lt = lit_vec("&lt;");
    let gt = lit_vec("&gt;");
    let quot = lit_vec("&quot;");
    let apos = lit_vec("&apos;");
    let s1 = replace_all(s.as_bytes(), &[38], amp.as_slice());
    let s2 = replace_all(s1.as_slice(), &[60], lt.as_slice());
    let s3 = replace_all(s2.as_slice(), &[62], gt.as_slice());
    let s4 = replace_all(s3.as_slice(), &[34], quot.as_slice());
    let r = replace_all(s4.as_slice(), &[39], apos.as_slice());
    proof {
        assert(seq![38u8] =~= [38u8]@);
        assert(seq![60u8] =~= [60u8]@);
        assert(seq![62u8] =~= [62u8]@);
        assert(seq![34u8] =~= [34u8]@);
        assert(seq![39u8] =~= [39u8]@);
    }
    r
}

/// Bytes of an ASCII literal.
fn lit_vec(lit: &str) -> (r: Vec<u8>)
    requires
        vstd::string::is_ascii(lit),
    ensures
        r@ == ascii(lit@),
{
    let mut out: Vec<u8> = Vec::new();
    crate::frames::append_lit(&mut out, lit);
    out
}

/// The media-stream endpoint for an external URL: the scheme switched to
/// its websocket form and the stream path appended.
pub open spec fn media_stream_url_spec(ext: Seq<u8>) -> Seq<u8> {
    replace_spec(
        replace_spec(ext, ascii("https://"@), ascii("wss://"@)),
        ascii("http://"@), ascii("ws://"@))
        + ascii("/twilio/media"@)
}

/// Websocket URL of the media stream behind an external HTTP URL.
pub fn media_stream_url(external_url: &str) -> (r: Vec<u8>)
    ensures
        r@ == media_stream_url_spec(external_url.spec_bytes()),
{
    proof {
        reveal_strlit("https://");
        reveal_strlit("wss://");
        reveal_strlit("http://");
        reveal_strlit("ws://");
        reveal_strlit("/twilio/media");
    }
    let https = lit_vec("https://");
    let wss = lit_vec("wss://");
    let http = lit_vec("http://");
    let ws = lit_vec("ws://");
    let s1 = replace_all(external_url.as_bytes(), https.as_slice(), wss.as_slice());
    let mut r = replace_all(s1.as_slice(), http.as_slice(), ws.as_slice());
    crate::frames::append_lit(&mut r, "/twilio/media");
    r
}

/// The webhook response for an incoming call: connect the caller to the
/// media stream.
pub open spec fn voice_twiml_spec(ext: Seq<u8>) -> Seq<u8> {
    ascii("<?xml version=\"1.0\" encoding=\"UTF-8\"?>\n<Response>\n    <Connect>\n        <Stream url=\""@)
        + media_stream_url_spec(ext)
        + ascii("\" />\n    </Connect>\n</Response>"@)
}

/// Render the incoming-call webhook response.
pub fn voice_twiml(external_url: &str) -> (r: Vec<u8>)
    ensures
        r@ == voice_twiml_spec(external_url.spec_bytes()),
{
    proof {
        reveal_strlit("<?xml version=\"1.0\" encoding=\"UTF-8\"?>\n<Response>\n    <Connect>\n        <Stream url=\"");
        reveal_strlit("\" />\n    </Connect>\n</Response>");
    }
    let mut out: Vec<u8> = Vec::new();
    crate::frames::append_lit(&mut out,
        "<?xml version=\"1.0\" encoding=\"UTF-8\"?>\n<Response>\n    <Connect>\n        <Stream url=\"");
    let url = media_stream_url(external_url);
    append_bytes(&mut out, url.as_slice());
    crate::frames::append_lit(&mut out, "\" />\n    </Connect>\n</Response>");
    out
}

/// The webhook response for an answered outbound call: speak the initial
/// message, if one was carried in the query, then connect the stream.
pub open spec fn voice_outbound_twiml_spec(ext: Seq<u8>, message: Option<Seq<u8>>) -> Seq<u8> {
    let say = match message {
        Some(m) => if m.len() > 0 {
            ascii("\n    <Say>"@) + xml_escaped(m) + ascii("</Say>"@)
        } else {
            Seq::<u8>::empty()
        },
        None => Seq::<u8>::empty(),
    };
    ascii("<?xml version=\"1.0\" encoding=\"UTF-8\"?>\n<Response>"@)
        + say
        + ascii("\n    <Connect>\n        <Stream url=\""@)
        + media_stream_url_spec(ext)
        + ascii("\" />\n    </Connect>\n</Response>"@)
}

/// Render the outbound-call webhook response.
pub fn voice_outbound_twiml(external_url: &str, message: Option<&str>) -> (r: Vec<u8>)
    ensures
        r@ == voice_outbound_twiml_spec(external_url.spec_bytes(), match message {
            Some(m) => Some(m.spec_bytes()),
            None => None,
        }),
{
    proof {
        reveal_strlit("<?xml version=\"1.0\" encoding=\"UTF-8\"?>\n<Response>");
        reveal_strlit("\n    <Say>");
        reveal_strlit("</Say>");
        reveal_strlit("\n    <Connect>\n        <Stream url=\"");
        reveal_strlit("\" />\n    </Connect>\n</Response>");
    }
    let mut out: Vec<u8> = Vec::new();
    crate::frames::append_lit(&mut out,
        "<?xml version=\"1.0\" encoding=\"UTF-8\"?>\n<Response>");
    match message {
        Some(m) => {
            if m.as_bytes().len() > 0 {
                crate::frames::append_lit(&mut out, "\n    <Say>");
                let esc = escape_xml(m);
                append_bytes(&mut out, esc.as_slice());
                crate::frames::append_lit(&mut out, "</Say>");
            }
        }
        None => {}
    }
    crate::frames::append_lit(&mut out, "\n    <Connect>\n        <Stream url=\"");
    let url = media_stream_url(external_url);
    append_bytes(&mut out, url.as_slice());
    crate::frames::append_lit(&mut out, "\" />\n    </Connect>\n</Response>");
    out
}

/// The webhook URL handed to the telephony provider for an outbound call,
/// the optional initial message percent-encoded into the query.
pub open spec fn webhook_url_spec(ext: Seq<u8>, message: Option<Seq<u8>>) -> Seq<u8> {
    match message {
        Some(m) => ext + ascii("/twilio/voice/outbound?message="@) + urlencoded_spec(m),
        None => ext + ascii("/twilio/voice/outbound"@),
    }
}

/// Build the outbound-call webhook URL.
pub fn webhook_url(external_url: &str, initial_message: Option<&str>) -> (r: Vec<u8>)
    ensures
        r@ == webhook_url_spec(external_url.spec_bytes(), match initial_message {
            Some(m) => Some(m.spec_bytes()),
            None => None,
        }),
{
    proof {
        reveal_strlit("/twilio/voice/outbound?message=");
        reveal_strlit("/twilio/voice/outbound");
    }
    let mut out: Vec<u8> = Vec::new();
    append_bytes(&mut out, external_url.as_bytes());
    match initial_message {
        Some(m) => {
            crate::frames::append_lit(&mut out, "/twilio/voice/outbound?message=");
            let enc = urlencoded(m);
            append_bytes(&mut out, enc.as_slice());
        }
        None => {
            crate::frames::append_lit(&mut out, "/twilio/voice/outbound");
        }
    }
    out
}

/// The provider's REST endpoint for starting a call from this account.
pub open spec fn calls_api_url_spec(account_sid: Seq<u8>) -> Seq<u8> {
    ascii("https://api.twilio.com/2010-04-01/Accounts/"@)
        + account_sid
        + ascii("/Calls.json"@)
}

/// Build the provider's call-creation URL.
pub fn calls_api_url(account_sid: &str) -> (r: Vec<u8>)
    ensures
        r@ == calls_api_url_spec(account_sid.spec_bytes()),
{
    proof {
        reveal_strlit("https://api.twilio.com/2010-04-01/Accounts/");
        reveal_strlit("/Calls.json");
    }
    let mut out: Vec<u8> = Vec::new();
    crate::frames::append_lit(&mut out, "https://api.twilio.com/2010-04-01/Accounts/");
    append_bytes(&mut out, account_sid.as_bytes());
    crate::frames::append_lit(&mut out, "/Calls.json");
    out
}

fn append_bytes(out: &mut Vec<u8>, s: &[u8])
    ensures
        final(out)@ == old(out)@ + s@,
{
    let mut i: usize = 0;
    while i < s.len()
        invariant
            i <= s@.len(),
            out@ == old(out)@ + s@.subrange(0, i as int),
        decreases s@.len() - i,
    {
        proof {
            assert(old(out)@ + s@.subrange(0, i + 1)
                =~= (old(out)@ + s@.subrange(0, i as int)) + seq![s@[i as int]]);
        }
        out.push(s[i]);
        i += 1;
    }
    proof {
        assert(s@.subrange(0, s@.len() as int) =~= s@);
    }
}

/// Whether `pat` occurs in `h` starting at `i`.
fn prefix_eq(h: &[u8], i: usize, pat: &[u8]) -> (r: bool)
    requires
        i + pat@.len() <= h@.len(),
    ensures
        r == (h@.subrange(i as int, i + pat@.len()) == pat@),
{
    let hn = h.len();
    proof {
        assert(h@.len() == hn);
    }
    let mut j: usize = 0;
    while j < pat.len()
        invariant
            j <= pat@.len(),
            i + pat@.len() <= h@.len(),
            h@.len() <= usize::MAX,
            forall|q: int| 0 <= q < j ==> h@[i + q] == pat@[q],
        decreases pat@.len() - j,
    {
        if h[i + j] != pat[j] {
            proof {
                assert(h@.subrange(i as int, i + pat@.len())[j as int] == h@[i + j]);
            }
            return false;
        }
        j += 1;
    }
    proof {
        assert(h@.subrange(i as int, i + pat@.len()) =~= pat@);
    }
    true
}

} // verus!
