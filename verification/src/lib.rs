//! Control plane for a locally run proxy kernel: profile ingestion and
//! normalization, kernel supervision, release installation, and reversible
//! OS-level proxy and launch-at-login settings.
use vstd::prelude::*;

pub mod codec;
pub mod orchestrator;
pub mod ingest;
pub mod kernel;
pub mod profile;
pub mod startup;
pub mod sysproxy;
pub mod text;
pub mod ui;
pub mod yaml;

use crate::text::{append_str, chars_to_string, str_to_chars};

verus! {

/// The error kinds every operation of this library reports.
#[derive(Debug)]
pub enum CoreError {
    AlreadyRunning,
    NotRunning,
    ProfileNotFound,
    InvalidConfig(String),
    InvalidProfile(String),
    Network(String),
    Parse(String),
}

pub type CoreResult<T> = Result<T, CoreError>;

impl CoreError {
    /// What [`CoreError::message`] returns.
    pub open spec fn message_spec(&self) -> Seq<char> {
        match self {
            CoreError::AlreadyRunning => "core already running"@,
            CoreError::NotRunning => "core not running"@,
            CoreError::ProfileNotFound => "profile not found"@,
            CoreError::InvalidConfig(msg) => "invalid config: "@ + msg@,
            CoreError::InvalidProfile(msg) => "invalid profile: "@ + msg@,
            CoreError::Network(msg) => "network error: "@ + msg@,
            CoreError::Parse(msg) => "parse error: "@ + msg@,
        }
    }

    /// The human-readable rendering of this error.
    pub fn message(&self) -> (r: String)
        ensures
            r@ == self.message_spec(),
    {
        match self {
            CoreError::AlreadyRunning => "core already running".to_owned(),
            CoreError::NotRunning => "core not running".to_owned(),
            CoreError::ProfileNotFound => "profile not found".to_owned(),
            CoreError::InvalidConfig(msg) => {
                let mut out = str_to_chars("invalid config: ");
                append_str(&mut out, msg.as_str());
                chars_to_string(out.as_slice())
            },
            CoreError::InvalidProfile(msg) => {
                let mut out = str_to_chars("invalid profile: ");
                append_str(&mut out, msg.as_str());
                chars_to_string(out.as_slice())
            },
            CoreError::Network(msg) => {
                let mut out = str_to_chars("network error: ");
                append_str(&mut out, msg.as_str());
                chars_to_string(out.as_slice())
            },
            CoreError::Parse(msg) => {
                let mut out = str_to_chars("parse error: ");
                append_str(&mut out, msg.as_str());
                chars_to_string(out.as_slice())
            },
        }
    }
}

/// The routing mode the kernel runs in.
#[derive(Debug, Clone, Copy, PartialEq, Eq, Structural)]
pub enum ProxyMode {
    Rule,
    Global,
    Direct,
}

/// The process-wide kernel configuration the orchestrator owns.
#[derive(Debug, Clone)]
pub struct Config {
    pub mode: ProxyMode,
    pub mixed_port: u16,
    pub allow_lan: bool,
}

impl Default for Config {
    /// Rule mode on port 7890 with LAN access off.
    fn default() -> (r: Config)
        ensures
            r.mode == ProxyMode::Rule,
            r.mixed_port == 7890,
            r.allow_lan == false,
    {
        Config { mode: ProxyMode::Rule, mixed_port: 7890, allow_lan: false }
    }
}

/// The name the kernel's own configuration uses for each routing mode.
pub open spec fn proxy_mode_name_spec(mode: ProxyMode) -> Seq<char> {
    match mode {
        ProxyMode::Rule => "rule"@,
        ProxyMode::Global => "global"@,
        ProxyMode::Direct => "direct"@,
    }
}

/// Renders a routing mode as the kernel configuration spells it.
pub fn proxy_mode_name(mode: &ProxyMode) -> (r: &'static str)
    ensures
        r@ == proxy_mode_name_spec(*mode),
{
    match mode {
        ProxyMode::Rule => "rule",
        ProxyMode::Global => "global",
        ProxyMode::Direct => "direct",
    }
}

/// Default TCP port the kernel listens on for mixed proxy traffic.
pub fn default_mixed_port() -> (r: u16)
    ensures
        r == 7890,
{
    7890
}

} // verus!
