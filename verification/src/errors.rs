//! Typed errors of the external service shims. Each carries the provider's
//! message; `message` renders the operator-facing text.

use vstd::prelude::*;
use vstd::string::{StrSliceExecFns, StringExecFns};

verus! {

/// Text-to-speech failure.
pub enum TtsError {
    /// The HTTP request could not be made.
    Request(String),
    /// The service answered with a non-success status.
    Api(String),
}

impl TtsError {
    /// The operator-facing description.
    pub fn message(&self) -> (r: String)
        ensures
            match self {
                TtsError::Request(m) => r@ == "HTTP request failed: "@ + m@,
                TtsError::Api(m) => r@ == "API error: "@ + m@,
            },
    {
        match self {
            TtsError::Request(m) => "HTTP request failed: ".to_owned().concat(m.as_str()),
            TtsError::Api(m) => "API error: ".to_owned().concat(m.as_str()),
        }
    }
}

/// Local generator failure.
pub enum ClaudeError {
    /// The CLI could not be spawned.
    Spawn(String),
    /// The CLI ran and failed, or answered in an unexpected shape.
    Cli(String),
}

impl ClaudeError {
    /// The operator-facing description.
    pub fn message(&self) -> (r: String)
        ensures
            match self {
                ClaudeError::Spawn(m) => r@ == "Failed to spawn the generator CLI: "@ + m@,
                ClaudeError::Cli(m) => r@ == "Generator CLI error: "@ + m@,
            },
    {
        match self {
            ClaudeError::Spawn(m) => {
                "Failed to spawn the generator CLI: ".to_owned().concat(m.as_str())
            }
            ClaudeError::Cli(m) => "Generator CLI error: ".to_owned().concat(m.as_str()),
        }
    }
}

/// Generator multiplexer failure.
pub enum BridgeError {
    /// The HTTP request could not be made.
    Request(String),
    /// The multiplexer answered with a non-success status.
    Response(String),
    /// The reply did not carry the expected shape.
    Parse(String),
}

impl BridgeError {
    /// The operator-facing description.
    pub fn message(&self) -> (r: String)
        ensures
            match self {
                BridgeError::Request(m) => r@ == "Bridge request failed: "@ + m@,
                BridgeError::Response(m) => r@ == "Bridge returned error: "@ + m@,
                BridgeError::Parse(m) => r@ == "Failed to parse bridge response: "@ + m@,
            },
    {
        match self {
            BridgeError::Request(m) => "Bridge request failed: ".to_owned().concat(m.as_str()),
            BridgeError::Response(m) => "Bridge returned error: ".to_owned().concat(m.as_str()),
            BridgeError::Parse(m) => {
                "Failed to parse bridge response: ".to_owned().concat(m.as_str())
            }
        }
    }
}

/// Outbound call initiation failure.
pub enum OutboundError {
    /// The HTTP request could not be made.
    Request(String),
    /// The provider answered with a non-success status.
    Api(String),
}

impl OutboundError {
    /// The operator-facing description.
    pub fn message(&self) -> (r: String)
        ensures
            match self {
                OutboundError::Request(m) => r@ == "HTTP request failed: "@ + m@,
                OutboundError::Api(m) => r@ == "Provider API error: "@ + m@,
            },
    {
        match self {
            OutboundError::Request(m) => "HTTP request failed: ".to_owned().concat(m.as_str()),
            OutboundError::Api(m) => "Provider API error: ".to_owned().concat(m.as_str()),
        }
    }
}

} // verus!
