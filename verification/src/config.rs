//! Configuration data of the voice bridge, as plain values. Reading the
//! configuration file and the environment happens outside the library;
//! these are the defaults and the shapes the core works with.

use vstd::prelude::*;

verus! {

/// Complete configuration of the bridge.
pub struct Config {
    pub server: ServerConfig,
    pub twilio: TwilioConfig,
    pub groq: GroqConfig,
    pub inworld: InworldConfig,
    pub claude: ClaudeConfig,
    pub vad: VadConfig,
    pub api: ApiConfig,
    pub hold_music: Option<HoldMusicConfig>,
}

/// Listening address and the public URL the provider calls back.
pub struct ServerConfig {
    pub host: String,
    pub port: u16,
    pub external_url: String,
}

/// Telephony provider account.
pub struct TwilioConfig {
    pub account_sid: String,
    pub auth_token: String,
    pub phone_number: String,
}

/// Speech-to-text service.
pub struct GroqConfig {
    pub api_key: String,
    pub model: String,
}

/// Text-to-speech service.
pub struct InworldConfig {
    pub api_key: String,
    pub voice_id: String,
    pub model: String,
}

/// Generator back-end and greeting behaviour.
pub struct ClaudeConfig {
    pub session_timeout_secs: u64,
    pub greeting: String,
    pub name: String,
    pub dangerously_skip_permissions: bool,
    pub self_path: Option<String>,
    pub bridge_url: Option<String>,
}

/// Voice-activity detection tuning; ratios are carried in thousandths.
pub struct VadConfig {
    pub silence_threshold_ms: u64,
    pub energy_threshold: u16,
    pub adaptive_threshold: bool,
    pub noise_floor_multiplier_milli: u64,
    pub noise_floor_decay_milli: u64,
    pub max_utterance_secs: Option<u64>,
}

/// Bearer token for the HTTP API; empty rejects every request.
pub struct ApiConfig {
    pub token: String,
}

/// Hold music source; the volume scale is carried in thousandths.
pub struct HoldMusicConfig {
    pub file: String,
    pub volume_permille: u32,
}

/// Metadata of an outbound call: context for the agent's first prompt and
/// a short reason used to seed the greeting.
#[derive(Clone, Debug)]
pub struct CallMeta {
    /// Injected into the first generator prompt, consumed on first use.
    pub context: Option<String>,
    /// Short reason for calling, used in the outbound greeting.
    pub reason: Option<String>,
}

/// Default speech-to-text model.
pub fn default_groq_model() -> (r: String)
    ensures
        r@ == "whisper-large-v3-turbo"@,
{
    "whisper-large-v3-turbo".to_owned()
}

/// Default synthesis voice.
pub fn default_voice_id() -> (r: String)
    ensures
        r@ == "Olivia"@,
{
    "Olivia".to_owned()
}

/// Default synthesis model.
pub fn default_inworld_model() -> (r: String)
    ensures
        r@ == "inworld-tts-1.5-max"@,
{
    "inworld-tts-1.5-max".to_owned()
}

/// Default idle timeout of a conversation session, in seconds.
pub fn default_session_timeout() -> (r: u64)
    ensures
        r == 300,
{
    300
}

/// Default agent name used in greetings.
pub fn default_name() -> (r: String)
    ensures
        r@ == "Echo"@,
{
    "Echo".to_owned()
}

/// Default silence gap that ends an utterance, in milliseconds.
pub fn default_silence_threshold() -> (r: u64)
    ensures
        r == 1500,
{
    1500
}

/// Default speech energy floor.
pub fn default_energy_threshold() -> (r: u16)
    ensures
        r == 50,
{
    50
}

/// Default adaptive-threshold multiplier, in thousandths.
pub fn default_noise_floor_multiplier() -> (r: u64)
    ensures
        r == 3000,
{
    3000
}

/// Default noise-floor decay per update, in thousandths.
pub fn default_noise_floor_decay() -> (r: u64)
    ensures
        r == 995,
{
    995
}

/// Default hold-music volume scale, in thousandths.
pub fn default_hold_music_volume() -> (r: u32)
    ensures
        r == 300,
{
    300
}

} // verus!
