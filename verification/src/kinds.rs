//! Categorical vocabulary of the device catalog: entry kinds and their
//! directory layout, provenance markers, chemistry, coupling and inverter
//! topology, and the vendor-API enumerations.

use vstd::prelude::*;
use vstd::string::*;
use vstd::std_specs::convert::FromSpecImpl;

use crate::text::{chars_of, push_char, str_eq};

verus! {

/// Current schema version accepted for catalog entries.
pub const SCHEMA_VERSION: &'static str = "1.0.0";

/// Provenance marker required on every catalog value. `Estimated` values
/// are never silently promoted to `Spec`.
#[derive(Debug, Clone, Copy, PartialEq, Eq, Structural)]
pub enum Provenance {
    /// Appears in a manufacturer datasheet, warranty, or install manual.
    Spec,
    /// Inferred, rounded, or from secondary sources.
    Estimated,
}

/// Cell chemistry; selects the chemistry behavior module.
#[derive(Debug, Clone, Copy, PartialEq, Eq, Structural)]
pub enum Chemistry {
    /// Lithium iron phosphate.
    LFP,
    /// Nickel manganese cobalt.
    NMC,
    /// Nickel cobalt aluminum.
    NCA,
}

/// Coupling topology of a battery entry.
#[derive(Debug, Clone, Copy, PartialEq, Eq, Structural)]
pub enum Coupling {
    /// AC-coupled with an integrated battery inverter.
    ACCoupled,
    /// DC-coupled hybrid: battery on a shared hybrid inverter DC bus.
    DCCoupledHybrid,
    /// AC-coupled via per-battery microinverters.
    MicroinverterBased,
}

/// Inverter topology classification.
#[derive(Debug, Clone, Copy, PartialEq, Eq, Structural)]
pub enum InverterTopology {
    /// Shared hybrid inverter with battery DC bus and PV MPPTs.
    HybridDCCoupled,
    /// PV-only string inverter.
    StringPVOnly,
    /// PV microinverter.
    MicroinverterPV,
    /// Inverter embedded in a battery product.
    BatteryIntegrated,
}

/// Cooling system type.
#[derive(Debug, Clone, Copy, PartialEq, Eq, Structural)]
pub enum Cooling {
    /// No fan, no moving parts.
    Passive,
    /// Forced air.
    ActiveAir,
    /// Liquid loop.
    ActiveLiquid,
    /// Not published.
    Unknown,
}

/// Vendor API family to mimic.
#[derive(Debug, Clone, Copy, PartialEq, Eq, Structural)]
pub enum VendorApiFamily {
    /// Tesla local Gateway LAN API.
    TeslaLocalGateway,
    /// Tesla Fleet (cloud) API.
    TeslaFleetApi,
    /// Enphase Envoy / IQ Gateway local API.
    EnphaseEnvoyLocal,
    /// Enphase Enlighten cloud API.
    EnphaseEnlightenCloud,
    /// SolarEdge monitoring cloud API.
    SolaredgeMonitoringCloud,
    /// SolarEdge local Modbus-TCP.
    SolaredgeModbusTcp,
    /// sonnen local REST API v2.
    SonnenLocalV2,
    /// Non-vendor-specific surface.
    Generic,
}

/// Vendor API authentication style.
#[derive(Debug, Clone, Copy, PartialEq, Eq, Structural)]
pub enum AuthStyle {
    /// Local password login returning a bearer token.
    BearerLocalLogin,
    /// OAuth2.
    Oauth2,
    /// JWT obtained via the vendor cloud.
    JwtViaCloud,
    /// Static API key.
    ApiKey,
    /// Token request header.
    TokenHeader,
    /// No authentication (`none` on the wire).
    Unauthenticated,
}

/// Purpose of a mimicked vendor endpoint.
#[derive(Debug, Clone, Copy, PartialEq, Eq, Structural)]
pub enum EndpointPurpose {
    /// Telemetry reads.
    Telemetry,
    /// State-of-charge reads.
    Soc,
    /// Setpoint / dispatch writes.
    SetpointDispatch,
    /// Operating-mode configuration.
    ModeConfig,
    /// Device inventory enumeration.
    Inventory,
    /// Authentication handshake.
    Auth,
}

/// One mimicked vendor endpoint declaration.
#[derive(Debug, Clone)]
pub struct VendorEndpoint {
    /// URL path on the real device/cloud.
    pub path: String,
    /// What the endpoint is for.
    pub purpose: EndpointPurpose,
}

/// Vendor-API mimicry metadata of a catalog entry.
#[derive(Debug, Clone)]
pub struct VendorApi {
    /// API family.
    pub family: VendorApiFamily,
    /// Authentication style.
    pub auth_style: AuthStyle,
    /// Base path hint on the real surface.
    pub base_path_hint: Option<String>,
    /// Declared endpoints.
    pub endpoints: Vec<VendorEndpoint>,
    /// Provenance marker.
    pub provenance: Provenance,
}

/// Entry kinds under the registry tree.
#[derive(Debug, Clone, Copy, PartialEq, Eq, PartialOrd, Ord, Hash, Structural)]
pub enum EntryKind {
    /// `batteries/*.json`
    Battery,
    /// `inverters/*.json`
    Inverter,
    /// `controllers/*.json`
    Controller,
    /// `pv_presets/*.json`
    PvPreset,
}

/// Serde-facing mirror of [`EntryKind`] (snake_case strings in JSON).
#[derive(Debug, Clone, Copy, PartialEq, Eq, Structural)]
pub enum EntryKindSerde {
    /// Battery entry.
    Battery,
    /// Inverter entry.
    Inverter,
    /// Controller entry.
    Controller,
    /// PV preset entry.
    PvPreset,
}

/// Subdirectory name of each kind within the registry tree.
pub open spec fn kind_dir(k: EntryKind) -> Seq<char> {
    match k {
        EntryKind::Battery => "batteries"@,
        EntryKind::Inverter => "inverters"@,
        EntryKind::Controller => "controllers"@,
        EntryKind::PvPreset => "pv_presets"@,
    }
}

/// The variant name of each kind, as `{:?}` prints it.
pub open spec fn kind_name(k: EntryKind) -> Seq<char> {
    match k {
        EntryKind::Battery => "Battery"@,
        EntryKind::Inverter => "Inverter"@,
        EntryKind::Controller => "Controller"@,
        EntryKind::PvPreset => "PvPreset"@,
    }
}

/// The kind that corresponds to a serde-facing kind.
pub open spec fn kind_of_serde(k: EntryKindSerde) -> EntryKind {
    match k {
        EntryKindSerde::Battery => EntryKind::Battery,
        EntryKindSerde::Inverter => EntryKind::Inverter,
        EntryKindSerde::Controller => EntryKind::Controller,
        EntryKindSerde::PvPreset => EntryKind::PvPreset,
    }
}

/// The serde-facing kind that corresponds to a kind.
pub open spec fn serde_of_kind(k: EntryKind) -> EntryKindSerde {
    match k {
        EntryKind::Battery => EntryKindSerde::Battery,
        EntryKind::Inverter => EntryKindSerde::Inverter,
        EntryKind::Controller => EntryKindSerde::Controller,
        EntryKind::PvPreset => EntryKindSerde::PvPreset,
    }
}

/// `model_id` with every `.` replaced by `_` (catalog file naming).
pub open spec fn dots_to_underscores(s: Seq<char>) -> Seq<char> {
    s.map_values(|c: char| if c == '.' { '_' } else { c })
}

/// Canonical registry-relative path of an entry.
pub open spec fn entry_path_spec(k: EntryKind, model_id: Seq<char>) -> Seq<char> {
    kind_dir(k) + "/"@ + dots_to_underscores(model_id) + ".json"@
}

impl EntryKind {
    /// Subdirectory name within the registry tree.
    pub fn dir(self) -> (r: &'static str)
        ensures
            r@ == kind_dir(self),
    {
        match self {
            EntryKind::Battery => "batteries",
            EntryKind::Inverter => "inverters",
            EntryKind::Controller => "controllers",
            EntryKind::PvPreset => "pv_presets",
        }
    }

    /// Variant name, as `{:?}` renders it.
    pub fn name(self) -> (r: &'static str)
        ensures
            r@ == kind_name(self),
    {
        match self {
            EntryKind::Battery => "Battery",
            EntryKind::Inverter => "Inverter",
            EntryKind::Controller => "Controller",
            EntryKind::PvPreset => "PvPreset",
        }
    }

    /// Resolve a registry-tree directory name to its kind.
    pub fn from_dir(dir: &str) -> (r: Option<EntryKind>)
        ensures
            forall|k: EntryKind| r == Some(k) <==> dir@ == kind_dir(k),
    {
        proof {
            reveal_strlit("batteries");
            reveal_strlit("inverters");
            reveal_strlit("controllers");
            reveal_strlit("pv_presets");
            assert("batteries"@[0] != "inverters"@[0]);
            assert("batteries"@[0] != "controllers"@[0]);
            assert("batteries"@[0] != "pv_presets"@[0]);
            assert("inverters"@[0] != "controllers"@[0]);
            assert("inverters"@[0] != "pv_presets"@[0]);
            assert("controllers"@[0] != "pv_presets"@[0]);
        }
        if str_eq(dir, "batteries") {
            Some(EntryKind::Battery)
        } else if str_eq(dir, "inverters") {
            Some(EntryKind::Inverter)
        } else if str_eq(dir, "controllers") {
            Some(EntryKind::Controller)
        } else if str_eq(dir, "pv_presets") {
            Some(EntryKind::PvPreset)
        } else {
            None
        }
    }
}

impl From<EntryKindSerde> for EntryKind {
    fn from(k: EntryKindSerde) -> (r: EntryKind) {
        match k {
            EntryKindSerde::Battery => EntryKind::Battery,
            EntryKindSerde::Inverter => EntryKind::Inverter,
            EntryKindSerde::Controller => EntryKind::Controller,
            EntryKindSerde::PvPreset => EntryKind::PvPreset,
        }
    }
}

impl FromSpecImpl<EntryKindSerde> for EntryKind {
    open spec fn obeys_from_spec() -> bool {
        true
    }

    open spec fn from_spec(k: EntryKindSerde) -> EntryKind {
        kind_of_serde(k)
    }
}

impl From<EntryKind> for EntryKindSerde {
    fn from(k: EntryKind) -> (r: EntryKindSerde) {
        match k {
            EntryKind::Battery => EntryKindSerde::Battery,
            EntryKind::Inverter => EntryKindSerde::Inverter,
            EntryKind::Controller => EntryKindSerde::Controller,
            EntryKind::PvPreset => EntryKindSerde::PvPreset,
        }
    }
}

impl FromSpecImpl<EntryKind> for EntryKindSerde {
    open spec fn obeys_from_spec() -> bool {
        true
    }

    open spec fn from_spec(k: EntryKind) -> EntryKindSerde {
        serde_of_kind(k)
    }
}

/// Reconstruct the canonical registry-relative path of an entry:
/// `<kind dir>/<model_id with dots as underscores>.json`.
pub fn entry_path(kind: EntryKind, model_id: &str) -> (r: String)
    ensures
        r@ == entry_path_spec(kind, model_id@),
{
    let mut s = String::from_str(kind.dir());
    s.append("/");
    let v = chars_of(model_id);
    let ghost start = s@;
    let mut i: usize = 0;
    while i < v.len()
        invariant
            v@ == model_id@,
            i <= v.len(),
            s@ == start + dots_to_underscores(v@.subrange(0, i as int)),
        decreases v.len() - i,
    {
        let c = v[i];
        push_char(&mut s, if c == '.' { '_' } else { c });
        i = i + 1;
        assert(dots_to_underscores(v@.subrange(0, i as int)) =~= dots_to_underscores(
            v@.subrange(0, i - 1),
        ).push(if c == '.' { '_' } else { c }));
    }
    assert(v@.subrange(0, v.len() as int) =~= v@);
    s.append(".json");
    s
}

} // verus!
