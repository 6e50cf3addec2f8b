use voice_echo::errors::{BridgeError, ClaudeError, OutboundError, TtsError};
use voice_echo::frames::{json_escape, render_media_frame};
use voice_echo::wav::{pcm_to_wav, wav_to_pcm};

#[test]
fn tts_error_messages() {
    assert_eq!(
        TtsError::Request("timed out".to_string()).message(),
        "HTTP request failed: timed out"
    );
    assert_eq!(TtsError::Api("500".to_string()).message(), "API error: 500");
}

#[test]
fn claude_error_messages() {
    assert_eq!(
        ClaudeError::Spawn("not found".to_string()).message(),
        "Failed to spawn the generator CLI: not found"
    );
    assert_eq!(
        ClaudeError::Cli("exit 1".to_string()).message(),
        "Generator CLI error: exit 1"
    );
}

#[test]
fn bridge_error_messages() {
    assert_eq!(
        BridgeError::Request("refused".to_string()).message(),
        "Bridge request failed: refused"
    );
    assert_eq!(
        BridgeError::Response("HTTP 502".to_string()).message(),
        "Bridge returned error: HTTP 502"
    );
    assert_eq!(
        BridgeError::Parse("bad json".to_string()).message(),
        "Failed to parse bridge response: bad json"
    );
}

#[test]
fn outbound_error_messages() {
    assert_eq!(
        OutboundError::Request("dns".to_string()).message(),
        "HTTP request failed: dns"
    );
    assert_eq!(
        OutboundError::Api("401".to_string()).message(),
        "Provider API error: 401"
    );
}

#[test]
fn json_escape_special_characters() {
    assert_eq!(json_escape(b"plain"), b"plain".to_vec());
    assert_eq!(json_escape(b"a\"b"), b"a\\\"b".to_vec());
    assert_eq!(json_escape(b"a\\b"), b"a\\\\b".to_vec());
    assert_eq!(json_escape(b"a\nb"), b"a\\nb".to_vec());
    assert_eq!(json_escape(&[0x01]), b"\\u0001".to_vec());
}

#[test]
fn media_frame_escapes_stream_sid() {
    let frame = render_media_frame("M\"Z", "AAAA");
    let text = String::from_utf8(frame).unwrap();
    assert_eq!(
        text,
        "{\"event\":\"media\",\"media\":{\"payload\":\"AAAA\"},\"streamSid\":\"M\\\"Z\"}"
    );
}

#[test]
fn empty_wav_roundtrip() {
    let wav = pcm_to_wav(&[]).unwrap();
    assert_eq!(wav.len(), 44);
    assert_eq!(wav_to_pcm(&wav).unwrap(), Vec::<i16>::new());
}
