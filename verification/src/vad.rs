//! Energy-based voice-activity detection: buffers mu-law audio, measures
//! speech-band energy, and emits a PCM utterance once speech has been
//! followed by a long enough silence gap, or once the utterance hits its
//! maximum duration.

use vstd::prelude::*;
use crate::codec;
use crate::dsp::{BandpassFilter, BandpassState, bandpass_rest, bandpass_run};

verus! {

/// Samples per second on the wire.
pub const SAMPLE_RATE: u64 = 8000;

/// Buffered samples kept while no speech has been heard: five seconds.
pub const IDLE_BUFFER_LIMIT: usize = 40000;

/// Ghost image of the detector's mutable state.
pub struct VadModel {
    pub buffer: Seq<i16>,
    pub has_speech: bool,
    pub last_speech_at: Option<u64>,
    pub utterance_start: Option<u64>,
    pub filter: BandpassState,
    pub noise_floor_milli: int,
}

/// Ghost image of the detector's configuration.
pub struct VadParams {
    pub energy_threshold: int,
    pub silence_ms: int,
    pub max_utterance_ms: Option<int>,
    pub adaptive: bool,
    pub multiplier_milli: int,
    pub decay_milli: int,
}

/// Samples decoded from a mu-law chunk.
pub open spec fn decode_pcm(chunk: Seq<u8>) -> Seq<i16> {
    Seq::new(chunk.len(), |i: int| codec::mulaw_to_pcm_spec(chunk[i]) as i16)
}

/// Speech-band energy of a chunk given the filter state: the rounded RMS
/// of the bandpass output.
pub open spec fn chunk_energy(st: BandpassState, pcm: Seq<i16>) -> int {
    let ys = bandpass_run(st, pcm).1;
    let clamped = Seq::new(ys.len(), |i: int| ys[i] as i16);
    if pcm.len() == 0 {
        0
    } else {
        codec::isqrt(codec::sum_squares(clamped) / pcm.len() as int)
    }
}

/// Effective speech threshold in milli-units: the base threshold, raised
/// to the scaled noise floor in adaptive mode once a floor is known.
pub open spec fn threshold_milli(p: VadParams, noise_floor_milli: int) -> int {
    if p.adaptive && noise_floor_milli > 0 {
        let adaptive = noise_floor_milli * p.multiplier_milli / 1000;
        if adaptive > p.energy_threshold * 1000 {
            adaptive
        } else {
            p.energy_threshold * 1000
        }
    } else {
        p.energy_threshold * 1000
    }
}

/// Milliseconds from `then` to `now` on a monotonic clock.
pub open spec fn elapsed(now: u64, then: u64) -> int {
    if now >= then { now - then } else { 0 }
}

/// Noise-floor update during confident silence: seed on the first
/// non-zero reading, then an exponential moving average in milli-units.
pub open spec fn noise_floor_next(p: VadParams, nf: int, energy: int) -> int {
    if !p.adaptive {
        nf
    } else if nf == 0 {
        energy * 1000
    } else {
        (p.decay_milli * nf + (1000 - p.decay_milli) * energy * 1000) / 1000
    }
}

/// One `feed` step: the next state and the emitted utterance, if any.
pub open spec fn feed_spec(p: VadParams, m: VadModel, chunk: Seq<u8>, now: u64)
    -> (VadModel, Option<Seq<i16>>) {
    let pcm = decode_pcm(chunk);
    let filter2 = bandpass_run(m.filter, pcm).0;
    let energy = chunk_energy(m.filter, pcm);
    let speech_now = energy * 1000 > threshold_milli(p, m.noise_floor_milli);
    let has_speech = m.has_speech || speech_now;
    let utterance_start = if speech_now && !m.has_speech { Some(now) } else { m.utterance_start };
    let last_speech_at = if speech_now { Some(now) } else { m.last_speech_at };
    let nf = if !speech_now && !m.has_speech {
        noise_floor_next(p, m.noise_floor_milli, energy)
    } else {
        m.noise_floor_milli
    };
    let grown = m.buffer + pcm;
    let emit = has_speech && {
        ||| (p.max_utterance_ms matches Some(md) && utterance_start matches Some(st)
            && elapsed(now, st) >= md)
        ||| (last_speech_at matches Some(l) && elapsed(now, l) >= p.silence_ms)
    };
    if emit {
        (
            VadModel {
                buffer: Seq::empty(),
                has_speech: false,
                last_speech_at: None::<u64>,
                utterance_start: None::<u64>,
                filter: filter2,
                noise_floor_milli: nf,
            },
            Some(grown),
        )
    } else {
        let kept = if !has_speech && grown.len() > IDLE_BUFFER_LIMIT {
            Seq::<i16>::empty()
        } else {
            grown
        };
        (
            VadModel {
                buffer: kept,
                has_speech: has_speech,
                last_speech_at: last_speech_at,
                utterance_start: utterance_start,
                filter: filter2,
                noise_floor_milli: nf,
            },
            None::<Seq<i16>>,
        )
    }
}

/// Energy-based voice-activity detector over mu-law chunks.
pub struct VoiceActivityDetector {
    pcm_buffer: Vec<i16>,
    has_speech: bool,
    last_speech_at: Option<u64>,
    utterance_start: Option<u64>,
    energy_threshold: u64,
    silence_threshold_ms: u64,
    max_utterance_ms: Option<u64>,
    bandpass: BandpassFilter,
    adaptive: bool,
    noise_floor_milli: u64,
    noise_floor_multiplier_milli: u64,
    noise_floor_decay_milli: u64,
}

impl VoiceActivityDetector {
    /// The detector's mutable state as ghost values.
    pub closed spec fn model(self) -> VadModel {
        VadModel {
            buffer: self.pcm_buffer@,
            has_speech: self.has_speech,
            last_speech_at: self.last_speech_at,
            utterance_start: self.utterance_start,
            filter: self.bandpass.state(),
            noise_floor_milli: self.noise_floor_milli as int,
        }
    }

    /// The detector's configuration as ghost values.
    pub closed spec fn params(self) -> VadParams {
        VadParams {
            energy_threshold: self.energy_threshold as int,
            silence_ms: self.silence_threshold_ms as int,
            max_utterance_ms: match self.max_utterance_ms {
                Some(v) => Some(v as int),
                None => None,
            },
            adaptive: self.adaptive,
            multiplier_milli: self.noise_floor_multiplier_milli as int,
            decay_milli: self.noise_floor_decay_milli as int,
        }
    }

    /// Internal bounds that every operation preserves.
    pub closed spec fn wf(self) -> bool {
        &&& self.bandpass.wf()
        &&& self.noise_floor_milli <= 33_000_000
        &&& self.noise_floor_decay_milli <= 1000
        &&& self.noise_floor_multiplier_milli <= 1_000_000
        &&& self.energy_threshold <= 0xffff
    }

    /// A fresh detector: empty buffer, no speech seen, filter at rest.
    pub fn new(energy_threshold: u16, silence_threshold_ms: u64) -> (r: VoiceActivityDetector)
        ensures
            r.wf(),
            r.model() == (VadModel {
                buffer: Seq::<i16>::empty(),
                has_speech: false,
                last_speech_at: None::<u64>,
                utterance_start: None::<u64>,
                filter: bandpass_rest(),
                noise_floor_milli: 0int,
            }),
            r.params() == (VadParams {
                energy_threshold: energy_threshold as int,
                silence_ms: silence_threshold_ms as int,
                max_utterance_ms: None::<int>,
                adaptive: false,
                multiplier_milli: 3000int,
                decay_milli: 995int,
            }),
    {
        VoiceActivityDetector {
            pcm_buffer: Vec::new(),
            has_speech: false,
            last_speech_at: None,
            utterance_start: None,
            energy_threshold: energy_threshold as u64,
            silence_threshold_ms,
            max_utterance_ms: None,
            bandpass: BandpassFilter::new(),
            adaptive: false,
            noise_floor_milli: 0,
            noise_floor_multiplier_milli: 3000,
            noise_floor_decay_milli: 995,
        }
    }

    /// Enable the adaptive threshold: the floor estimate times the
    /// multiplier, both in thousandths.
    pub fn with_adaptive(self, multiplier_milli: u64, decay_milli: u64)
        -> (r: VoiceActivityDetector)
        requires
            self.wf(),
            multiplier_milli <= 1_000_000,
            decay_milli <= 1000,
        ensures
            r.wf(),
            r.model() == self.model(),
            r.params() == (VadParams {
                adaptive: true,
                multiplier_milli: multiplier_milli as int,
                decay_milli: decay_milli as int,
                ..self.params()
            }),
    {
        VoiceActivityDetector {
            adaptive: true,
            noise_floor_multiplier_milli: multiplier_milli,
            noise_floor_decay_milli: decay_milli,
            ..self
        }
    }

    /// Cap utterances at a maximum duration.
    pub fn with_max_utterance(self, secs: u64) -> (r: VoiceActivityDetector)
        requires
            self.wf(),
            secs <= 0xffff_ffff,
        ensures
            r.wf(),
            r.model() == self.model(),
            r.params() == (VadParams {
                max_utterance_ms: Some(1000 * secs as int),
                ..self.params()
            }),
    {
        VoiceActivityDetector {
            max_utterance_ms: Some(1000 * secs),
            ..self
        }
    }

    /// The effective speech threshold in milli-units.
    pub fn speech_threshold_milli(&self) -> (r: u64)
        requires
            self.wf(),
        ensures
            r as int == threshold_milli(self.params(), self.model().noise_floor_milli),
            self.params().adaptive && self.model().noise_floor_milli > 0
                ==> r as int >= self.model().noise_floor_milli
                    * self.params().multiplier_milli / 1000,
    {
        if self.adaptive && self.noise_floor_milli > 0 {
            proof {
                crate::dsp::lemma_prod_bound(self.noise_floor_milli as int,
                    self.noise_floor_multiplier_milli as int, 33_000_000, 1_000_000);
            }
            let adaptive = self.noise_floor_milli * self.noise_floor_multiplier_milli / 1000;
            let base = self.energy_threshold * 1000;
            if adaptive > base { adaptive } else { base }
        } else {
            self.energy_threshold * 1000
        }
    }

    /// The scaled noise-floor estimate.
    pub fn noise_floor_milli(&self) -> (r: u64)
        ensures
            r as int == self.model().noise_floor_milli,
    {
        self.noise_floor_milli
    }

    /// Whether speech has been heard in the current utterance.
    pub fn has_speech(&self) -> (r: bool)
        ensures
            r == self.model().has_speech,
    {
        self.has_speech
    }

    /// Buffered samples of the utterance being collected.
    pub fn buffered_samples(&self) -> (r: usize)
        ensures
            r == self.model().buffer.len(),
    {
        self.pcm_buffer.len()
    }

    /// Feed one mu-law chunk at a monotonic timestamp. Returns the finished
    /// utterance when speech was followed by the silence gap or hit the
    /// maximum duration.
    pub fn feed(&mut self, mulaw_chunk: &[u8], now_ms: u64) -> (r: Option<Vec<i16>>)
        requires
            old(self).wf(),
            mulaw_chunk@.len() <= 0x10000,
            old(self).model().buffer.len() + mulaw_chunk@.len() <= 0x1000_0000,
        ensures
            final(self).wf(),
            final(self).params() == old(self).params(),
            ({
                let (m2, out) = feed_spec(old(self).params(), old(self).model(),
                    mulaw_chunk@, now_ms);
                &&& final(self).model() == m2
                &&& match (r, out) {
                    (Some(v), Some(s)) => v@ == s,
                    (None, None) => true,
                    _ => false,
                }
            }),
    {
        let ghost p = self.params();
        let ghost m0 = self.model();
        let pcm = codec::decode_mulaw(mulaw_chunk);
        proof {
            assert(pcm@ =~= decode_pcm(mulaw_chunk@));
        }
        let filtered = self.bandpass.filter(pcm.as_slice());
        let energy = codec::rms_energy(filtered.as_slice());
        proof {
            crate::dsp::lemma_bandpass_run_len(m0.filter, pcm@);
            let ys = bandpass_run(m0.filter, pcm@).1;
            let clamped = Seq::new(ys.len(), |i: int| ys[i] as i16);
            assert(filtered@ =~= clamped);
            if pcm@.len() > 0 {
                codec::lemma_isqrt_unique(
                    codec::sum_squares(filtered@) / filtered@.len() as int, energy as int);
            }
            assert(energy as int == chunk_energy(m0.filter, pcm@));
        }
        let threshold = self.speech_threshold_milli();
        let speech_now = energy * 1000 > threshold;
        let ghost was_speech = self.has_speech;

        if speech_now {
            if !self.has_speech {
                self.utterance_start = Some(now_ms);
            }
            self.has_speech = true;
            self.last_speech_at = Some(now_ms);
        } else if !self.has_speech {
            self.update_noise_floor(energy);
        }

        // Buffer the raw, unfiltered audio for transcription.
        let ghost m1 = self.model();
        let mut k: usize = 0;
        while k < pcm.len()
            invariant
                k <= pcm@.len(),
                self.wf(),
                self.params() == p,
                self.model() == (VadModel {
                    buffer: m0.buffer + pcm@.subrange(0, k as int),
                    ..m1
                }),
                m1.buffer == m0.buffer,
                m0.buffer.len() + pcm@.len() <= 0x1000_0000,
            decreases pcm@.len() - k,
        {
            self.pcm_buffer.push(pcm[k]);
            proof {
                assert(self.pcm_buffer@ =~= m0.buffer + pcm@.subrange(0, k + 1));
            }
            k += 1;
        }
        proof {
            assert(pcm@.subrange(0, pcm@.len() as int) =~= pcm@);
            assert(self.model() == (VadModel { buffer: m0.buffer + pcm@, ..m1 }));
        }

        if self.has_speech {
            // Maximum utterance duration: the safety net.
            let over_max = match (self.max_utterance_ms, self.utterance_start) {
                (Some(md), Some(st)) => elapsed_ms(now_ms, st) >= md,
                _ => false,
            };
            let over_gap = match self.last_speech_at {
                Some(l) => elapsed_ms(now_ms, l) >= self.silence_threshold_ms,
                _ => false,
            };
            if over_max || over_gap {
                let utterance = self.take_utterance();
                return Some(utterance);
            }
        }

        if !self.has_speech && self.pcm_buffer.len() > IDLE_BUFFER_LIMIT {
            self.pcm_buffer.clear();
        }
        None
    }

    /// Move the buffered utterance out and reset the speech state.
    fn take_utterance(&mut self) -> (r: Vec<i16>)
        ensures
            r@ == old(self).model().buffer,
            final(self).model() == (VadModel {
                buffer: Seq::<i16>::empty(),
                has_speech: false,
                last_speech_at: None::<u64>,
                utterance_start: None::<u64>,
                ..old(self).model()
            }),
            final(self).params() == old(self).params(),
            final(self).wf() == old(self).wf(),
    {
        let mut taken: Vec<i16> = Vec::new();
        core::mem::swap(&mut taken, &mut self.pcm_buffer);
        self.has_speech = false;
        self.last_speech_at = None;
        self.utterance_start = None;
        taken
    }

    /// Noise-floor update during confident silence.
    fn update_noise_floor(&mut self, energy: u64)
        requires
            old(self).wf(),
            energy <= 0x8000,
        ensures
            final(self).wf(),
            final(self).params() == old(self).params(),
            final(self).model() == (VadModel {
                noise_floor_milli: noise_floor_next(old(self).params(),
                    old(self).model().noise_floor_milli, energy as int),
                ..old(self).model()
            }),
    {
        if !self.adaptive {
            return;
        }
        if self.noise_floor_milli == 0 {
            self.noise_floor_milli = energy * 1000;
        } else {
            proof {
                crate::dsp::lemma_prod_bound(self.noise_floor_decay_milli as int,
                    self.noise_floor_milli as int, 1000, 33_000_000);
                lemma_noise_floor_bound(self.noise_floor_decay_milli as int,
                    self.noise_floor_milli as int, energy as int);
                assert((1000 - self.noise_floor_decay_milli as int) * (energy as int * 1000)
                    == (1000 - self.noise_floor_decay_milli as int) * energy as int * 1000)
                    by (nonlinear_arith);
            }
            self.noise_floor_milli = (self.noise_floor_decay_milli * self.noise_floor_milli
                + (1000 - self.noise_floor_decay_milli) * (energy * 1000)) / 1000;
        }
    }

    /// Clear the buffer and speech flags between conversational turns; the
    /// noise floor and the filter's delay lines persist.
    pub fn reset(&mut self)
        requires
            old(self).wf(),
        ensures
            final(self).wf(),
            final(self).params() == old(self).params(),
            final(self).model() == (VadModel {
                buffer: Seq::<i16>::empty(),
                has_speech: false,
                last_speech_at: None::<u64>,
                utterance_start: None::<u64>,
                ..old(self).model()
            }),
    {
        self.pcm_buffer.clear();
        self.has_speech = false;
        self.last_speech_at = None;
        self.utterance_start = None;
    }
}

/// Feeding only silence never emits an utterance: on a detector that has
/// heard no speech and whose filter is at rest, a chunk of mu-law silence
/// produces no utterance, leaves the speech flag clear and the filter at
/// rest — so any run of silent feeds stays in this state.
pub proof fn lemma_silence_never_triggers(p: VadParams, m: VadModel, chunk: Seq<u8>, now: u64)
    requires
        !m.has_speech,
        m.filter == bandpass_rest(),
        p.energy_threshold >= 0,
        p.multiplier_milli >= 0,
        m.noise_floor_milli >= 0,
        forall|i: int| 0 <= i < chunk.len() ==> chunk[i] == 0xff,
    ensures
        feed_spec(p, m, chunk, now).1 is None,
        !feed_spec(p, m, chunk, now).0.has_speech,
        feed_spec(p, m, chunk, now).0.filter == bandpass_rest(),
{
    let pcm = decode_pcm(chunk);
    assert forall|i: int| 0 <= i < pcm.len() implies pcm[i] == 0 by {
        vstd::arithmetic::power2::lemma2_to64();
        assert(vstd::arithmetic::power2::pow2(0) == 1);
        assert(codec::mulaw_to_pcm_spec(0xff)
            == (0 * 8 + 0x84) * vstd::arithmetic::power2::pow2(0) - 0x84);
        assert(codec::mulaw_to_pcm_spec(0xff) == 0);
    }
    crate::dsp::lemma_bandpass_silent(pcm);
    crate::dsp::lemma_bandpass_run_len(m.filter, pcm);
    let ys = bandpass_run(m.filter, pcm).1;
    let clamped = Seq::new(ys.len(), |i: int| ys[i] as i16);
    assert(forall|i: int| 0 <= i < clamped.len() ==> #[trigger] clamped[i] == 0);
    codec::lemma_sum_squares_zero(clamped);
    if pcm.len() > 0 {
        assert(codec::sum_squares(clamped) / pcm.len() as int == 0);
        assert(0int * 0int == 0) by (nonlinear_arith);
        assert((0int + 1) * (0int + 1) == 1) by (nonlinear_arith);
        codec::lemma_isqrt_unique(0, 0);
    }
    assert(chunk_energy(m.filter, pcm) == 0);
    let t = threshold_milli(p, m.noise_floor_milli);
    assert(t >= 0) by {
        if p.adaptive && m.noise_floor_milli > 0 {
            assert(m.noise_floor_milli * p.multiplier_milli >= 0) by (nonlinear_arith)
                requires m.noise_floor_milli >= 0, p.multiplier_milli >= 0,
            ;
            vstd::arithmetic::div_mod::lemma_div_is_ordered(
                0, m.noise_floor_milli * p.multiplier_milli, 1000);
        }
    }
}

/// Milliseconds from `then` to `now`, never negative.
fn elapsed_ms(now: u64, then: u64) -> (r: u64)
    ensures
        r as int == elapsed(now, then),
{
    if now >= then { now - then } else { 0 }
}

/// A convex combination of values below the cap stays below the cap.
proof fn lemma_noise_floor_bound(decay: int, nf: int, e: int)
    requires
        0 <= decay <= 1000,
        0 <= nf <= 33_000_000,
        0 <= e <= 0x8000,
    ensures
        0 <= (decay * nf + (1000 - decay) * (e * 1000)) / 1000 <= 33_000_000,
        (1000 - decay) * (e * 1000) <= 1000 * 33_000_000,
        decay * nf >= 0,
{
    assert(decay * nf <= 1000 * 33_000_000 && decay * nf >= 0) by (nonlinear_arith)
        requires 0 <= decay <= 1000, 0 <= nf <= 33_000_000,
    ;
    assert((1000 - decay) * (e * 1000) <= (1000 - decay) * 33_000_000
        && (1000 - decay) * (e * 1000) >= 0) by (nonlinear_arith)
        requires 0 <= decay <= 1000, 0 <= e <= 0x8000,
    ;
    assert((1000 - decay) * 33_000_000 <= 1000 * 33_000_000) by (nonlinear_arith)
        requires 0 <= decay <= 1000,
    ;
    // The combination is at most max(nf, e * 1000) <= 32_767_000 when both
    // inputs are; with e capped at 0xffff the sum is still divided by 1000.
    assert(decay * nf + (1000 - decay) * (e * 1000)
        <= 1000 * if nf >= e * 1000 { nf } else { e * 1000 }) by (nonlinear_arith)
        requires 0 <= decay <= 1000, 0 <= nf, 0 <= e,
    ;
    if nf >= e * 1000 {
        vstd::arithmetic::div_mod::lemma_div_is_ordered(
            decay * nf + (1000 - decay) * (e * 1000), 1000 * nf, 1000);
        assert(1000 * nf / 1000 == nf) by (nonlinear_arith);
    } else {
        vstd::arithmetic::div_mod::lemma_div_is_ordered(
            decay * nf + (1000 - decay) * (e * 1000), 1000 * (e * 1000), 1000);
        assert(1000 * (e * 1000) / 1000 == e * 1000) by (nonlinear_arith);
        vstd::arithmetic::div_mod::lemma_div_is_ordered(
            1000 * (e * 1000), 1000int * 33_000_000, 1000);
        assert(1000int * 33_000_000 / 1000 == 33_000_000) by (nonlinear_arith);
    }
}

} // verus!
