use voice_echo::text::{is_whisper_hallucination, split_text, str_eq, trim_whitespace};

#[test]
fn short_text_not_split() {
    let chunks = split_text("Hello world.".as_bytes(), 2000);
    assert_eq!(chunks, vec![b"Hello world.".to_vec()]);
}

#[test]
fn splits_at_sentence_boundary() {
    let text = "First sentence. Second sentence. Third sentence.";
    let chunks = split_text(text.as_bytes(), 35);
    assert_eq!(chunks[0], b"First sentence. Second sentence. ".to_vec());
    assert_eq!(chunks[1], b"Third sentence.".to_vec());
}

#[test]
fn falls_back_to_hard_split() {
    let text = "A".repeat(3000);
    let chunks = split_text(text.as_bytes(), 2000);
    assert_eq!(chunks.len(), 2);
    assert_eq!(chunks[0].len(), 2000);
    assert_eq!(chunks[1].len(), 1000);
}

#[test]
fn split_trims_whitespace_after_boundary() {
    let text = "One two.  X and Y.";
    let chunks = split_text(text.as_bytes(), 10);
    assert_eq!(chunks[0], b"One two. ".to_vec());
    // the extra space after the boundary cut was trimmed
    assert_eq!(chunks[1], b"X and Y.".to_vec());
    assert_eq!(chunks.len(), 2);
}

#[test]
fn split_drops_all_whitespace_remainder() {
    // only whitespace follows the cut: no trailing empty chunk
    let chunks = split_text(b"a. ", 2);
    assert_eq!(chunks, vec![b"a.".to_vec()]);
    let chunks = split_text(b"One two.    ", 9);
    assert_eq!(chunks, vec![b"One two. ".to_vec()]);
}

#[test]
fn detects_known_hallucinations() {
    assert!(is_whisper_hallucination("thank you"));
    assert!(is_whisper_hallucination("Thank You"));
    assert!(is_whisper_hallucination("THANKS FOR WATCHING."));
    assert!(is_whisper_hallucination("..."));
    assert!(is_whisper_hallucination("Bye bye."));
}

#[test]
fn passes_real_speech() {
    assert!(!is_whisper_hallucination("Hello, how are you?"));
    assert!(!is_whisper_hallucination("I need help with my order"));
    assert!(!is_whisper_hallucination("Thank you for your help today"));
    assert!(!is_whisper_hallucination("bye for now"));
}

#[test]
fn empty_string_is_not_hallucination() {
    assert!(!is_whisper_hallucination(""));
}

#[test]
fn trim_strips_both_ends() {
    assert_eq!(trim_whitespace("  hello there \n"), "hello there");
    assert_eq!(trim_whitespace("\t\r\n  "), "");
    assert_eq!(trim_whitespace("word"), "word");
    // the full White_Space set, as the standard trim removes it
    assert_eq!(trim_whitespace("\u{a0}\u{2003}hi\u{a0}"), "hi");
    assert_eq!("\u{a0} x \u{a0}".trim(), trim_whitespace("\u{a0} x \u{a0}"));
}

#[test]
fn str_eq_compares_content() {
    assert!(str_eq("abc", "abc"));
    assert!(!str_eq("abc", "abd"));
    assert!(!str_eq("abc", "ab"));
}
