use voice_echo::codec::pcm_to_mulaw;
use voice_echo::vad::VoiceActivityDetector;

#[test]
fn silence_does_not_trigger() {
    let mut vad = VoiceActivityDetector::new(50, 500);
    let silence = vec![0u8; 160];
    for _ in 0..100 {
        assert!(vad.feed(&silence, 0).is_none());
    }
}

#[test]
fn mulaw_silence_does_not_trigger_over_time() {
    // true mu-law silence (encoded zero samples) over advancing time
    let mut vad = VoiceActivityDetector::new(50, 500);
    let silence = vec![0xFFu8; 160];
    for i in 0..200u64 {
        assert!(vad.feed(&silence, i * 20).is_none());
        assert!(!vad.has_speech());
    }
}

#[test]
fn loud_signal_detected() {
    let mut vad = VoiceActivityDetector::new(50, 100);

    let loud_pcm: Vec<i16> = (0..160).map(|i| ((i % 50) * 500) as i16).collect();
    let loud_mulaw: Vec<u8> = loud_pcm.iter().map(|&s| pcm_to_mulaw(s)).collect();

    let result = vad.feed(&loud_mulaw, 0);
    // Won't trigger yet — silence threshold not elapsed
    assert!(result.is_none());
    assert!(vad.has_speech());
}

#[test]
fn max_utterance_forces_emit() {
    // 0s max utterance — speech detection and timeout fire in the same feed
    let mut vad = VoiceActivityDetector::new(50, 5000).with_max_utterance(0);

    let loud_pcm: Vec<i16> = (0..160).map(|i| ((i % 50) * 500) as i16).collect();
    let loud_mulaw: Vec<u8> = loud_pcm.iter().map(|&s| pcm_to_mulaw(s)).collect();

    // With 0s timeout, first feed detects speech AND exceeds max duration immediately
    let result = vad.feed(&loud_mulaw, 0);
    assert!(result.is_some());
}

#[test]
fn adaptive_threshold_adjusts() {
    let mut vad = VoiceActivityDetector::new(50, 500).with_adaptive(3000, 990);

    // Feed low-energy "noise" to build up noise floor
    let noise_pcm: Vec<i16> = (0..160).map(|i| ((i % 10) * 3) as i16).collect();
    let noise_mulaw: Vec<u8> = noise_pcm.iter().map(|&s| pcm_to_mulaw(s)).collect();
    for i in 0..50u64 {
        vad.feed(&noise_mulaw, i * 20);
    }

    // Noise floor should be established
    assert!(vad.noise_floor_milli() > 0);
    // Threshold should be at least noise_floor * multiplier
    assert!(vad.speech_threshold_milli() >= vad.noise_floor_milli() * 3);
}

#[test]
fn silence_gap_emits_utterance() {
    let mut vad = VoiceActivityDetector::new(50, 500);
    let loud_pcm: Vec<i16> = (0..160).map(|i| ((i % 50) * 500) as i16).collect();
    let loud_mulaw: Vec<u8> = loud_pcm.iter().map(|&s| pcm_to_mulaw(s)).collect();
    let silence = vec![0xFFu8; 160];

    assert!(vad.feed(&loud_mulaw, 0).is_none());
    assert!(vad.feed(&silence, 20).is_none());
    // gap of 600 ms since last speech: the buffered utterance comes out
    let utterance = vad.feed(&silence, 620).expect("utterance after silence gap");
    assert_eq!(utterance.len(), 3 * 160);
    assert!(!vad.has_speech());
    assert_eq!(vad.buffered_samples(), 0);
}

#[test]
fn reset_clears_buffer_and_keeps_noise_floor() {
    let mut vad = VoiceActivityDetector::new(50, 500).with_adaptive(3000, 990);
    let noise_pcm: Vec<i16> = (0..160).map(|i| ((i % 10) * 3) as i16).collect();
    let noise_mulaw: Vec<u8> = noise_pcm.iter().map(|&s| pcm_to_mulaw(s)).collect();
    for i in 0..20u64 {
        vad.feed(&noise_mulaw, i * 20);
    }
    let floor = vad.noise_floor_milli();
    vad.reset();
    assert_eq!(vad.buffered_samples(), 0);
    assert!(!vad.has_speech());
    assert_eq!(vad.noise_floor_milli(), floor);
}
