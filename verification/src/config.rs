//! Server configuration sections without floating-point settings, their
//! defaults, and the redaction of secrets for display.

use vstd::prelude::*;
use vstd::string::*;

use crate::digest::{fingerprint, fingerprint_of};

verus! {

/// Telemetry retention settings (ring-buffer capacities).
#[derive(Debug, Clone)]
pub struct TelemetryConfig {
    /// Per-home raw ticks retained (default one hour of 1-s ticks).
    pub raw_ticks: usize,
    /// Per-home one-minute rollups retained (default one day).
    pub rollup_minutes: usize,
}

impl Default for TelemetryConfig {
    fn default() -> (r: Self)
        ensures
            r.raw_ticks == 3600 && r.rollup_minutes == 1440,
    {
        TelemetryConfig { raw_ticks: 3600, rollup_minutes: 1440 }
    }
}

/// Optional API-key auth; no keys means open (single-tenant local default).
#[derive(Debug, Clone)]
pub struct AuthConfig {
    /// Full-access keys.
    pub api_keys: Vec<String>,
    /// Keys restricted to GETs and the telemetry stream.
    pub read_only_keys: Vec<String>,
}

impl Default for AuthConfig {
    fn default() -> (r: Self)
        ensures
            r.api_keys@.len() == 0 && r.read_only_keys@.len() == 0,
    {
        AuthConfig { api_keys: Vec::new(), read_only_keys: Vec::new() }
    }
}

/// Audit-log settings.
#[derive(Debug, Clone)]
pub struct AuditConfig {
    /// Idempotency record TTL in hours.
    pub idempotency_ttl_hours: u64,
    /// Maximum retained command records (oldest dropped beyond this).
    pub max_commands: usize,
}

impl Default for AuditConfig {
    fn default() -> (r: Self)
        ensures
            r.idempotency_ttl_hours == 24 && r.max_commands == 10000,
    {
        AuditConfig { idempotency_ttl_hours: 24, max_commands: 10000 }
    }
}

/// Logging settings.
#[derive(Debug, Clone)]
pub struct LoggingConfig {
    /// EnvFilter directive string.
    pub filter: String,
    /// Emit JSON lines instead of pretty text.
    pub json: bool,
}

impl Default for LoggingConfig {
    fn default() -> (r: Self)
        ensures
            r.filter@ == "info,tower_http=info"@ && !r.json,
    {
        LoggingConfig { filter: String::from_str("info,tower_http=info"), json: false }
    }
}

/// Fingerprints of each key, in order.
pub open spec fn fingerprints_of(keys: Seq<String>) -> Seq<Seq<char>> {
    keys.map_values(|k: String| fingerprint_of(k@))
}

/// The keys replaced by their SHA-256 fingerprints (for display).
pub fn redact_keys(keys: &Vec<String>) -> (r: Vec<String>)
    ensures
        r@.len() == keys@.len(),
        forall|i: int| 0 <= i < keys@.len() ==> (#[trigger] r@[i])@ == fingerprint_of(keys@[i]@),
        forall|i: int| 0 <= i < keys@.len() ==> (#[trigger] r@[i])@.len() == 23,
{
    let mut out: Vec<String> = Vec::new();
    let mut i: usize = 0;
    while i < keys.len()
        invariant
            i <= keys@.len(),
            out@.len() == i,
            forall|j: int| 0 <= j < i ==> (#[trigger] out@[j])@ == fingerprint_of(keys@[j]@),
            forall|j: int| 0 <= j < i ==> (#[trigger] out@[j])@.len() == 23,
        decreases keys.len() - i,
    {
        out.push(fingerprint(keys[i].as_str()));
        i = i + 1;
    }
    out
}

impl AuthConfig {
    /// The same settings with every key replaced by its fingerprint.
    pub fn redacted(&self) -> (r: AuthConfig)
        ensures
            r.api_keys@.len() == self.api_keys@.len(),
            forall|i: int| 0 <= i < self.api_keys@.len() ==> (#[trigger] r.api_keys@[i])@ == fingerprint_of(
                self.api_keys@[i]@,
            ),
            r.read_only_keys@.len() == self.read_only_keys@.len(),
            forall|i: int| 0 <= i < self.read_only_keys@.len() ==> (#[trigger] r.read_only_keys@[i])@
                == fingerprint_of(self.read_only_keys@[i]@),
            forall|i: int| 0 <= i < self.api_keys@.len() ==> (#[trigger] r.api_keys@[i])@.len() == 23,
            forall|i: int| 0 <= i < self.read_only_keys@.len() ==> (#[trigger] r.read_only_keys@[i])@.len() == 23,
    {
        AuthConfig { api_keys: redact_keys(&self.api_keys), read_only_keys: redact_keys(&self.read_only_keys) }
    }
}

} // verus!
