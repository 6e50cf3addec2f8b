use voice_echo::api::{
    calls_api_url, check_auth, escape_xml, media_stream_url, urlencoded, validate_e164,
    voice_outbound_twiml, voice_twiml, webhook_url, AuthOutcome,
};

#[test]
fn e164_accepts_plus_and_digits() {
    assert!(validate_e164("+34612345678"));
    assert!(validate_e164("+1234567")); // 7 digits
    assert!(validate_e164("+123456789012345")); // 15 digits
}

#[test]
fn e164_rejects_everything_else() {
    assert!(!validate_e164("34612345678")); // no plus
    assert!(!validate_e164("+123456")); // 6 digits
    assert!(!validate_e164("+1234567890123456")); // 16 digits
    assert!(!validate_e164("+34 612 345 678")); // spaces
    assert!(!validate_e164("+34a12345678")); // letter
    assert!(!validate_e164(""));
    assert!(!validate_e164("+"));
}

#[test]
fn auth_unconfigured_rejects_all() {
    assert_eq!(check_auth(Some("anything"), ""), AuthOutcome::Unconfigured);
    assert_eq!(check_auth(None, ""), AuthOutcome::Unconfigured);
}

#[test]
fn auth_checks_token() {
    assert_eq!(check_auth(Some("secret"), "secret"), AuthOutcome::Authorized);
    assert_eq!(check_auth(Some("wrong"), "secret"), AuthOutcome::Unauthorized);
    assert_eq!(check_auth(None, "secret"), AuthOutcome::Unauthorized);
}

#[test]
fn urlencoded_percent_encodes() {
    assert_eq!(
        String::from_utf8(urlencoded("Server CPU at 95%")).unwrap(),
        "Server%20CPU%20at%2095%25"
    );
    assert_eq!(String::from_utf8(urlencoded("a-b_c.d~e")).unwrap(), "a-b_c.d~e");
}

#[test]
fn xml_escape_entities() {
    assert_eq!(
        String::from_utf8(escape_xml("a < b & c > \"d\" 'e'")).unwrap(),
        "a &lt; b &amp; c &gt; &quot;d&quot; &apos;e&apos;"
    );
}

#[test]
fn media_stream_url_switches_scheme() {
    assert_eq!(
        String::from_utf8(media_stream_url("https://example.org")).unwrap(),
        "wss://example.org/twilio/media"
    );
    assert_eq!(
        String::from_utf8(media_stream_url("http://example.org")).unwrap(),
        "ws://example.org/twilio/media"
    );
}

#[test]
fn voice_twiml_connects_stream() {
    let twiml = String::from_utf8(voice_twiml("https://example.org")).unwrap();
    assert!(twiml.starts_with("<?xml version=\"1.0\" encoding=\"UTF-8\"?>"));
    assert!(twiml.contains("<Stream url=\"wss://example.org/twilio/media\" />"));
    assert!(!twiml.contains("<Say>"));
}

#[test]
fn voice_outbound_twiml_speaks_message_first() {
    let twiml =
        String::from_utf8(voice_outbound_twiml("https://example.org", Some("CPU < 95%"))).unwrap();
    assert!(twiml.contains("<Say>CPU &lt; 95%</Say>"));
    let say = twiml.find("<Say>").unwrap();
    let stream = twiml.find("<Stream").unwrap();
    assert!(say < stream);
    // an empty message adds no element
    let plain = String::from_utf8(voice_outbound_twiml("https://example.org", Some(""))).unwrap();
    assert!(!plain.contains("<Say>"));
}

#[test]
fn webhook_url_embeds_message() {
    assert_eq!(
        String::from_utf8(webhook_url("https://example.org", Some("hi there"))).unwrap(),
        "https://example.org/twilio/voice/outbound?message=hi%20there"
    );
    assert_eq!(
        String::from_utf8(webhook_url("https://example.org", None)).unwrap(),
        "https://example.org/twilio/voice/outbound"
    );
}

#[test]
fn calls_api_url_embeds_account() {
    assert_eq!(
        String::from_utf8(calls_api_url("AC123")).unwrap(),
        "https://api.twilio.com/2010-04-01/Accounts/AC123/Calls.json"
    );
}
