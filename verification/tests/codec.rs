use voice_echo::codec::{
    apply_volume, decode_mulaw, downmix_mono, encode_mulaw, mulaw_to_pcm, pcm_to_mulaw,
    resample_linear, rms_energy, sample_from_24bit, sample_from_8bit,
};
use voice_echo::wav::{pcm_to_wav, wav_to_pcm};

#[test]
fn mulaw_roundtrip() {
    // mu-law is lossy, but roundtrip should be close
    for original in [-32000i16, -1000, 0, 1000, 32000] {
        let encoded = pcm_to_mulaw(original);
        let decoded = mulaw_to_pcm(encoded);
        // Allow ~2% error due to lossy compression
        let diff = (original as f64 - decoded as f64).abs();
        assert!(
            diff < (original.unsigned_abs() as f64 * 0.05 + 100.0),
            "original={original}, decoded={decoded}, diff={diff}"
        );
    }
}

#[test]
fn mulaw_silence_is_zero() {
    assert_eq!(pcm_to_mulaw(0), 0xFF);
    assert_eq!(mulaw_to_pcm(0xFF), 0);
}

#[test]
fn mulaw_buffer_roundtrip() {
    let pcm: Vec<i16> = (0..500).map(|i| (i * 61 - 12000) as i16).collect();
    let encoded = encode_mulaw(&pcm);
    assert_eq!(encoded.len(), pcm.len());
    let decoded = decode_mulaw(&encoded);
    for (a, b) in pcm.iter().zip(decoded.iter()) {
        let diff = (*a as f64 - *b as f64).abs();
        assert!(diff < (a.unsigned_abs() as f64 * 0.05 + 100.0));
    }
}

#[test]
fn wav_roundtrip() {
    let samples: Vec<i16> = (0..100).map(|i| (i * 100) as i16).collect();
    let wav = pcm_to_wav(&samples).unwrap();
    let decoded = wav_to_pcm(&wav).unwrap();
    assert_eq!(samples, decoded);
}

#[test]
fn wav_header_shape() {
    let wav = pcm_to_wav(&[0i16; 4]).unwrap();
    assert_eq!(&wav[0..4], b"RIFF");
    assert_eq!(&wav[8..12], b"WAVE");
    assert_eq!(&wav[12..16], b"fmt ");
    assert_eq!(&wav[36..40], b"data");
    assert_eq!(wav.len(), 44 + 8);
    // mono, 16-bit, 8 kHz
    assert_eq!(u16::from_le_bytes([wav[22], wav[23]]), 1);
    assert_eq!(u32::from_le_bytes([wav[24], wav[25], wav[26], wav[27]]), 8000);
    assert_eq!(u16::from_le_bytes([wav[34], wav[35]]), 16);
}

#[test]
fn wav_rejects_other_formats() {
    assert!(wav_to_pcm(b"not a wav").is_err());
    // a stereo WAV must be refused
    let mut wav = pcm_to_wav(&[0i16; 4]).unwrap();
    wav[22] = 2; // channels
    assert!(wav_to_pcm(&wav).is_err());
}

#[test]
fn rms_energy_silence() {
    let silence = vec![0i16; 100];
    assert_eq!(rms_energy(&silence), 0);
}

#[test]
fn rms_energy_constant_signal() {
    // RMS of a constant 1000 is exactly 1000
    let signal = vec![1000i16; 64];
    assert_eq!(rms_energy(&signal), 1000);
}

#[test]
fn resample_identity_when_rates_match() {
    let samples: Vec<i16> = (0..50).map(|i| (i * 7) as i16).collect();
    let out = resample_linear(&samples, 8000, 8000);
    assert_eq!(out, samples);
}

#[test]
fn resample_halves_length() {
    let samples: Vec<i16> = (0..100).map(|i| (i * 10) as i16).collect();
    let out = resample_linear(&samples, 16000, 8000);
    assert_eq!(out.len(), 50);
    // every other sample survives
    assert_eq!(out[0], samples[0]);
    assert_eq!(out[10], samples[20]);
}

#[test]
fn downmix_averages_channels() {
    // interleaved stereo: L=100, R=300 -> mono 200
    let samples = vec![100i16, 300, 100, 300];
    let mono = downmix_mono(&samples, 2);
    assert_eq!(mono, vec![200, 200]);
}

#[test]
fn sample_widening() {
    assert_eq!(sample_from_8bit(1), 256);
    assert_eq!(sample_from_8bit(-128), -32768);
    assert_eq!(sample_from_8bit(127), 32512);
    assert_eq!(sample_from_24bit(0x12_3456), 0x1234);
    assert_eq!(sample_from_24bit(-256), -1);
    // rounds toward negative infinity, as an arithmetic shift does
    assert_eq!(sample_from_24bit(-1), -1);
    assert_eq!(sample_from_24bit(255), 0);
}

#[test]
fn volume_scales_and_clamps() {
    let samples = vec![1000i16, -1000, 32000];
    let scaled = apply_volume(&samples, 300);
    assert_eq!(scaled, vec![300, -300, 9600]);
    let loud = apply_volume(&samples, 2000);
    assert_eq!(loud[2], 32767); // clamped
}
