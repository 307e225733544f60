//! HomeSystem composition: the declarative system document and the
//! per-vendor composition rules that relate it to the catalog. Every
//! violation is enumerated, never fail-fast, in document order.
//!
//! The document types here hold the composition facts the rules read
//! (model references, quantities, pack counts, backup intent, PV wiring,
//! generator presence). Numeric parameters (SOC fractions, panel and
//! array ratings) are floating point; their range checks and the power
//! and energy totals are computed by the caller.

use vstd::prelude::*;
use vstd::string::*;

use crate::catalog::{find, BatteryModel, ControllerModel, InverterModel, Registry};
use crate::kinds::{Coupling, InverterTopology};
use crate::text::{concat3, decimal, decimal_string, indexed_field, str_eq};
use crate::violation::{home_system_path, push_violation, violation, views, vv, Violation, ViolationView};
use crate::xref::{contains_id, ids_contain};

verus! {

/// A battery line item of a HomeSystem document.
#[derive(Debug)]
pub struct BatteryRef {
    /// Battery `model_id` in the registry.
    pub model_id: String,
    /// Number of units.
    pub quantity: u32,
    /// Expansion packs per head unit (0 for models without packs).
    pub expansion_packs_per_unit: u32,
}

/// An inverter line item.
#[derive(Debug)]
pub struct InverterRef {
    /// Inverter `model_id` in the registry.
    pub model_id: String,
    /// Number of units.
    pub quantity: u32,
}

/// A controller line item.
#[derive(Debug)]
pub struct ControllerRef {
    /// Controller `model_id` in the registry.
    pub model_id: String,
    /// Number of units.
    pub quantity: u32,
}

/// Named array orientations.
#[derive(Debug, Clone, Copy, PartialEq, Eq, Structural)]
pub enum NamedOrientation {
    /// North.
    N,
    /// North-east.
    NE,
    /// East.
    E,
    /// South-east.
    SE,
    /// South.
    S,
    /// South-south-west.
    SSW,
    /// South-west.
    SW,
    /// West-south-west.
    WSW,
    /// West.
    W,
    /// North-west.
    NW,
    /// Flat (horizontal).
    FLAT,
}

/// Array orientation: named compass point or explicit azimuth degrees.
#[derive(Debug, Clone, Copy, PartialEq, Eq, Structural)]
pub enum Orientation {
    /// Named orientation.
    Named(NamedOrientation),
    /// Azimuth degrees, 0..359 (180 = south).
    Azimuth(u32),
}

/// Azimuth degrees of a named orientation.
pub open spec fn named_azimuth(n: NamedOrientation) -> u32 {
    match n {
        NamedOrientation::N => 0,
        NamedOrientation::NE => 45,
        NamedOrientation::E => 90,
        NamedOrientation::SE => 135,
        NamedOrientation::S => 180,
        NamedOrientation::FLAT => 180,
        NamedOrientation::SSW => 202,
        NamedOrientation::SW => 225,
        NamedOrientation::WSW => 247,
        NamedOrientation::W => 270,
        NamedOrientation::NW => 315,
    }
}

impl Orientation {
    /// Resolve to azimuth degrees (180 = south, 90 = east, 270 = west);
    /// `FLAT` resolves to 180 (tilt carries the flatness).
    pub fn azimuth_deg(self) -> (r: u32)
        ensures
            r == match self {
                Orientation::Azimuth(a) => a,
                Orientation::Named(n) => named_azimuth(n),
            },
    {
        match self {
            Orientation::Azimuth(a) => a,
            Orientation::Named(n) => match n {
                NamedOrientation::N => 0,
                NamedOrientation::NE => 45,
                NamedOrientation::E => 90,
                NamedOrientation::SE => 135,
                NamedOrientation::S | NamedOrientation::FLAT => 180,
                NamedOrientation::SSW => 202,
                NamedOrientation::SW => 225,
                NamedOrientation::WSW => 247,
                NamedOrientation::W => 270,
                NamedOrientation::NW => 315,
            },
        }
    }
}

/// PV array wiring.
#[derive(Debug)]
pub struct PvConfig {
    /// Array orientation.
    pub orientation: Orientation,
    /// PV inverter `model_id`; `None` iff PV lands on hybrid MPPTs.
    pub pv_inverter_model_id: Option<String>,
}

/// Default of the generator's auto-start flag when a document omits it.
pub fn default_true() -> (r: bool)
    ensures
        r,
{
    true
}

/// Generator input declaration.
#[derive(Debug)]
pub struct GeneratorConfig {
    /// Auto-transfer-switch flag (see [`default_true`]).
    pub auto_start: bool,
}

/// Grid meter point: the ERCOT ESIID binding.
#[derive(Debug)]
pub struct GridMeter {
    /// ERCOT ESI ID.
    pub esiid: String,
    /// TDSP name.
    pub tdsp: Option<String>,
}

/// The HomeSystem composition document.
#[derive(Debug)]
pub struct HomeSystem {
    /// Schema version; must equal the supported schema version.
    pub schema_version: String,
    /// System identifier.
    pub system_id: String,
    /// Human label.
    pub label: Option<String>,
    /// Battery line items.
    pub batteries: Vec<BatteryRef>,
    /// Inverter line items.
    pub inverters: Vec<InverterRef>,
    /// Controller line items.
    pub controllers: Vec<ControllerRef>,
    /// PV array, if any.
    pub pv: Option<PvConfig>,
    /// Whether the system asserts backup capability.
    pub backup_capable: bool,
    /// Generator input, if any.
    pub generator: Option<GeneratorConfig>,
    /// Grid meter point.
    pub grid_meter: GridMeter,
}

// ---------- resolution over the registry ----------

/// Battery line `i` is present: quantity at least 1 and the model resolves.
pub open spec fn present_battery(s: &HomeSystem, bats: Seq<BatteryModel>, i: int) -> bool {
    s.batteries@[i].quantity > 0 && find(bats, s.batteries@[i].model_id@) is Some
}

/// Inverter line `j` is present.
pub open spec fn present_inverter(s: &HomeSystem, invs: Seq<InverterModel>, j: int) -> bool {
    s.inverters@[j].quantity > 0 && find(invs, s.inverters@[j].model_id@) is Some
}

/// Controller line `j` is present.
pub open spec fn present_controller(s: &HomeSystem, ctrls: Seq<ControllerModel>, j: int) -> bool {
    s.controllers@[j].quantity > 0 && find(ctrls, s.controllers@[j].model_id@) is Some
}

/// The resolved model of battery line `i`.
pub open spec fn battery_model_of(s: &HomeSystem, bats: Seq<BatteryModel>, i: int) -> Option<BatteryModel> {
    find(bats, s.batteries@[i].model_id@)
}

/// The resolved model of inverter line `j`.
pub open spec fn inverter_model_of(s: &HomeSystem, invs: Seq<InverterModel>, j: int) -> InverterModel {
    find(invs, s.inverters@[j].model_id@).unwrap()
}

/// The resolved model of controller line `j`.
pub open spec fn controller_model_of(s: &HomeSystem, ctrls: Seq<ControllerModel>, j: int) -> ControllerModel {
    find(ctrls, s.controllers@[j].model_id@).unwrap()
}

// ---------- messages ----------

/// Message for a zero quantity.
pub open spec fn msg_quantity() -> Seq<char> {
    "quantity must be >= 1"@
}

/// Message for an unsupported schema version.
pub open spec fn msg_system_schema(found: Seq<char>) -> Seq<char> {
    "unsupported schema_version `"@ + found + "`; expected `"@ + "1.0.0"@ + "`"@
}

/// Schema-version violation of a composition document.
pub open spec fn system_schema_violations(s: &HomeSystem) -> Seq<ViolationView> {
    if s.schema_version@ != "1.0.0"@ {
        seq![vv(home_system_path(), "schema_version"@, msg_system_schema(s.schema_version@))]
    } else {
        Seq::empty()
    }
}

/// Field `<prefix><i><suffix>`.
pub open spec fn ifield(prefix: Seq<char>, i: int, suffix: Seq<char>) -> Seq<char> {
    prefix + decimal(i as nat) + suffix
}

/// Zero-quantity violation of line `i` under a list prefix
/// (`batteries[`, `inverters[` or `controllers[`).
pub open spec fn quantity_violation(prefix: Seq<char>, i: int, quantity: u32) -> Seq<ViolationView> {
    if quantity == 0 {
        seq![vv(home_system_path(), ifield(prefix, i, "].quantity"@), msg_quantity())]
    } else {
        Seq::empty()
    }
}

/// Unknown-model message for battery, inverter or controller lines.
pub open spec fn msg_unknown_line(what: LineKind, id: Seq<char>) -> Seq<char> {
    match what {
        LineKind::Battery => "unknown battery model `"@ + id + "`"@,
        LineKind::Inverter => "unknown inverter model `"@ + id + "`"@,
        LineKind::Controller => "unknown controller model `"@ + id + "`"@,
    }
}

/// The three kinds of line items of a composition document.
#[derive(Debug, Clone, Copy, PartialEq, Eq, Structural)]
pub enum LineKind {
    /// `batteries[]`.
    Battery,
    /// `inverters[]`.
    Inverter,
    /// `controllers[]`.
    Controller,
}

/// List prefix of a line kind, e.g. `batteries[`.
pub open spec fn line_prefix(k: LineKind) -> Seq<char> {
    match k {
        LineKind::Battery => "batteries["@,
        LineKind::Inverter => "inverters["@,
        LineKind::Controller => "controllers["@,
    }
}

fn line_prefix_str(k: LineKind) -> (r: &'static str)
    ensures
        r@ == line_prefix(k),
{
    match k {
        LineKind::Battery => "batteries[",
        LineKind::Inverter => "inverters[",
        LineKind::Controller => "controllers[",
    }
}

/// Unknown-model violation of line `i`.
pub open spec fn unknown_violation(k: LineKind, i: int, id: Seq<char>, resolves: bool) -> Seq<ViolationView> {
    if resolves {
        Seq::empty()
    } else {
        seq![vv(home_system_path(), ifield(line_prefix(k), i, "].model_id"@), msg_unknown_line(k, id))]
    }
}

/// Appends the zero-quantity violation of line `i`, if any.
pub fn check_line_quantity(kind: LineKind, i: usize, quantity: u32, out: &mut Vec<Violation>)
    ensures
        views(final(out)@) == views(old(out)@) + quantity_violation(line_prefix(kind), i as int, quantity),
{
    if quantity == 0 {
        let field = indexed_field(line_prefix_str(kind), i, "].quantity");
        push_violation(out, violation(field.as_str(), String::from_str("quantity must be >= 1")));
    } else {
        assert(views(out@) =~= views(out@) + quantity_violation(line_prefix(kind), i as int, quantity));
    }
}

/// Appends the unknown-model violation of line `i` unless it resolves.
pub fn check_line_resolves(
    kind: LineKind,
    i: usize,
    model_id: &str,
    resolves: bool,
    out: &mut Vec<Violation>,
)
    ensures
        views(final(out)@) == views(old(out)@) + unknown_violation(kind, i as int, model_id@, resolves),
{
    if !resolves {
        let field = indexed_field(line_prefix_str(kind), i, "].model_id");
        let msg = match kind {
            LineKind::Battery => concat3("unknown battery model `", model_id, "`"),
            LineKind::Inverter => concat3("unknown inverter model `", model_id, "`"),
            LineKind::Controller => concat3("unknown controller model `", model_id, "`"),
        };
        push_violation(out, violation(field.as_str(), msg));
    } else {
        assert(views(out@) =~= views(out@) + unknown_violation(kind, i as int, model_id@, resolves));
    }
}

/// Line-item violations of the first `n` battery lines: zero quantity,
/// then an unresolved model.
pub open spec fn battery_lines_violations(s: &HomeSystem, bats: Seq<BatteryModel>, n: nat) -> Seq<ViolationView>
    decreases n,
{
    if n == 0 {
        Seq::empty()
    } else {
        let i = n - 1;
        battery_lines_violations(s, bats, (n - 1) as nat) + quantity_violation(
            "batteries["@,
            i,
            s.batteries@[i].quantity,
        ) + unknown_violation(
            LineKind::Battery,
            i,
            s.batteries@[i].model_id@,
            find(bats, s.batteries@[i].model_id@) is Some,
        )
    }
}

/// Line-item violations of the first `n` inverter lines.
pub open spec fn inverter_lines_violations(s: &HomeSystem, invs: Seq<InverterModel>, n: nat) -> Seq<ViolationView>
    decreases n,
{
    if n == 0 {
        Seq::empty()
    } else {
        let i = n - 1;
        inverter_lines_violations(s, invs, (n - 1) as nat) + quantity_violation(
            "inverters["@,
            i,
            s.inverters@[i].quantity,
        ) + unknown_violation(
            LineKind::Inverter,
            i,
            s.inverters@[i].model_id@,
            find(invs, s.inverters@[i].model_id@) is Some,
        )
    }
}

/// Line-item violations of the first `n` controller lines.
pub open spec fn controller_lines_violations(
    s: &HomeSystem,
    ctrls: Seq<ControllerModel>,
    n: nat,
) -> Seq<ViolationView>
    decreases n,
{
    if n == 0 {
        Seq::empty()
    } else {
        let i = n - 1;
        controller_lines_violations(s, ctrls, (n - 1) as nat) + quantity_violation(
            "controllers["@,
            i,
            s.controllers@[i].quantity,
        ) + unknown_violation(
            LineKind::Controller,
            i,
            s.controllers@[i].model_id@,
            find(ctrls, s.controllers@[i].model_id@) is Some,
        )
    }
}

impl HomeSystem {
    /// `schema_version` must equal the supported schema version.
    pub fn check_schema(&self, out: &mut Vec<Violation>)
        ensures
            views(final(out)@) == views(old(out)@) + system_schema_violations(self),
    {
        if !str_eq(self.schema_version.as_str(), "1.0.0") {
            let mut msg = concat3("unsupported schema_version `", self.schema_version.as_str(), "`; expected `");
            msg.append("1.0.0");
            msg.append("`");
            push_violation(out, violation("schema_version", msg));
        } else {
            assert(views(out@) =~= views(out@) + system_schema_violations(self));
        }
    }

    /// Resolve battery line items against the registry: every line needs a
    /// quantity of at least 1 and a known model.
    pub fn resolve_batteries(&self, registry: &Registry, out: &mut Vec<Violation>)
        ensures
            views(final(out)@) == views(old(out)@) + battery_lines_violations(
                self,
                registry.battery_seq(),
                self.batteries@.len(),
            ),
    {
        let ghost start = views(out@);
        let mut i: usize = 0;
        while i < self.batteries.len()
            invariant
                i <= self.batteries@.len(),
                views(out@) == start + battery_lines_violations(self, registry.battery_seq(), i as nat),
            decreases self.batteries.len() - i,
        {
            let line = &self.batteries[i];
            let ghost before = views(out@);
            check_line_quantity(LineKind::Battery, i, line.quantity, out);
            let found = registry.battery(line.model_id.as_str()).is_some();
            check_line_resolves(LineKind::Battery, i, line.model_id.as_str(), found, out);
            i = i + 1;
            proof {
                let k = (i - 1) as int;
                let q = quantity_violation("batteries["@, k, self.batteries@[k].quantity);
                let u = unknown_violation(
                    LineKind::Battery,
                    k,
                    self.batteries@[k].model_id@,
                    find(registry.battery_seq(), self.batteries@[k].model_id@) is Some,
                );
                assert(views(out@) =~= before + q + u);
            }
        }
    }

    /// Resolve inverter line items against the registry.
    pub fn resolve_inverters(&self, registry: &Registry, out: &mut Vec<Violation>)
        ensures
            views(final(out)@) == views(old(out)@) + inverter_lines_violations(
                self,
                registry.inverter_seq(),
                self.inverters@.len(),
            ),
    {
        let ghost start = views(out@);
        let mut i: usize = 0;
        while i < self.inverters.len()
            invariant
                i <= self.inverters@.len(),
                views(out@) == start + inverter_lines_violations(self, registry.inverter_seq(), i as nat),
            decreases self.inverters.len() - i,
        {
            let line = &self.inverters[i];
            let ghost before = views(out@);
            check_line_quantity(LineKind::Inverter, i, line.quantity, out);
            let found = registry.inverter(line.model_id.as_str()).is_some();
            check_line_resolves(LineKind::Inverter, i, line.model_id.as_str(), found, out);
            i = i + 1;
            proof {
                let k = (i - 1) as int;
                let q = quantity_violation("inverters["@, k, self.inverters@[k].quantity);
                let u = unknown_violation(
                    LineKind::Inverter,
                    k,
                    self.inverters@[k].model_id@,
                    find(registry.inverter_seq(), self.inverters@[k].model_id@) is Some,
                );
                assert(views(out@) =~= before + q + u);
            }
        }
    }

    /// Resolve controller line items against the registry.
    pub fn resolve_controllers(&self, registry: &Registry, out: &mut Vec<Violation>)
        ensures
            views(final(out)@) == views(old(out)@) + controller_lines_violations(
                self,
                registry.controller_seq(),
                self.controllers@.len(),
            ),
    {
        let ghost start = views(out@);
        let mut i: usize = 0;
        while i < self.controllers.len()
            invariant
                i <= self.controllers@.len(),
                views(out@) == start + controller_lines_violations(self, registry.controller_seq(), i as nat),
            decreases self.controllers.len() - i,
        {
            let line = &self.controllers[i];
            let ghost before = views(out@);
            check_line_quantity(LineKind::Controller, i, line.quantity, out);
            let found = registry.controller(line.model_id.as_str()).is_some();
            check_line_resolves(LineKind::Controller, i, line.model_id.as_str(), found, out);
            i = i + 1;
            proof {
                let k = (i - 1) as int;
                let q = quantity_violation("controllers["@, k, self.controllers@[k].quantity);
                let u = unknown_violation(
                    LineKind::Controller,
                    k,
                    self.controllers@[k].model_id@,
                    find(registry.controller_seq(), self.controllers@[k].model_id@) is Some,
                );
                assert(views(out@) =~= before + q + u);
            }
        }
    }
}

} // verus!

verus! {

/// Number of present controller lines among the first `n` whose model
/// provides grid forming.
pub open spec fn grid_forming_count(s: &HomeSystem, ctrls: Seq<ControllerModel>, n: nat) -> nat
    decreases n,
{
    if n == 0 {
        0
    } else {
        let j = n - 1;
        grid_forming_count(s, ctrls, (n - 1) as nat) + if present_controller(s, ctrls, j)
            && controller_model_of(s, ctrls, j).provides_grid_forming {
            1nat
        } else {
            0nat
        }
    }
}

/// The battery fleet forms the island itself: at least one present
/// battery, and every present battery model is grid-forming in backup
/// with an integrated inverter.
pub open spec fn self_forming_fleet(s: &HomeSystem, bats: Seq<BatteryModel>) -> bool {
    &&& exists|i: int| 0 <= i < s.batteries@.len() && present_battery(s, bats, i)
    &&& forall|i: int|
        0 <= i < s.batteries@.len() && present_battery(s, bats, i) ==> {
            let m = battery_model_of(s, bats, i).unwrap();
            m.grid_forming_in_backup && m.integrated_inverter == Some(true)
        }
}

/// Message for the island-formation rule.
pub open spec fn msg_backup(found: nat) -> Seq<char> {
    "backup_capable requires either exactly one present controller entry with provides_grid_forming = true (found "@
        + decimal(found)
        + "), or, with no such controller, at least one present battery where every present battery model is grid-forming in backup and has an integrated inverter"@
}

/// Some controller line with quantity at least 1 names `id`.
pub open spec fn controller_line_present(s: &HomeSystem, id: Seq<char>) -> bool {
    exists|j: int|
        0 <= j < s.controllers@.len() && (#[trigger] s.controllers@[j]).quantity > 0
            && s.controllers@[j].model_id@ == id
}

/// Message for a missing required controller.
pub open spec fn msg_requires_controller(id: Seq<char>, req: Seq<char>) -> Seq<char> {
    "backup_capable: `"@ + id + "` requires controller `"@ + req
        + "`, which is not present in controllers[]"@
}

/// Required-controller violations over the first `n` battery lines.
pub open spec fn required_controller_violations(s: &HomeSystem, bats: Seq<BatteryModel>, n: nat) -> Seq<
    ViolationView,
>
    decreases n,
{
    if n == 0 {
        Seq::empty()
    } else {
        let i = n - 1;
        required_controller_violations(s, bats, (n - 1) as nat) + match battery_model_of(s, bats, i) {
            Some(m) => match m.requires_controller_id {
                Some(req) => if !controller_line_present(s, req@) {
                    seq![vv(
                        home_system_path(),
                        ifield("batteries["@, i, "].model_id"@),
                        msg_requires_controller(m.model_id@, req@),
                    )]
                } else {
                    Seq::empty()
                },
                None => Seq::empty(),
            },
            None => Seq::empty(),
        }
    }
}

/// Backup composition violations: a backup-capable system forms its
/// island with exactly one present grid-forming controller, or, with no
/// such controller, through a self-forming battery fleet; independently
/// every battery's required controller must be listed with quantity >= 1.
pub open spec fn backup_violations(
    s: &HomeSystem,
    bats: Seq<BatteryModel>,
    ctrls: Seq<ControllerModel>,
) -> Seq<ViolationView> {
    if !s.backup_capable {
        Seq::empty()
    } else {
        let gf = grid_forming_count(s, ctrls, s.controllers@.len());
        (if gf != 1 && (gf > 1 || !self_forming_fleet(s, bats)) {
            seq![vv(home_system_path(), "controllers"@, msg_backup(gf))]
        } else {
            Seq::empty()
        }) + required_controller_violations(s, bats, s.batteries@.len())
    }
}

impl HomeSystem {
    /// Number of present grid-forming controller lines.
    fn count_grid_forming(&self, registry: &Registry) -> (r: usize)
        ensures
            r == grid_forming_count(self, registry.controller_seq(), self.controllers@.len()),
    {
        let mut n: usize = 0;
        let mut j: usize = 0;
        while j < self.controllers.len()
            invariant
                j <= self.controllers@.len(),
                n <= j,
                n == grid_forming_count(self, registry.controller_seq(), j as nat),
            decreases self.controllers.len() - j,
        {
            let line = &self.controllers[j];
            if line.quantity > 0 {
                match registry.controller(line.model_id.as_str()) {
                    Some(c) => {
                        if c.provides_grid_forming {
                            n = n + 1;
                        }
                    },
                    None => {},
                }
            }
            j = j + 1;
        }
        n
    }

    /// Whether the battery fleet can form the island by itself.
    fn fleet_self_forming(&self, registry: &Registry) -> (r: bool)
        ensures
            r == self_forming_fleet(self, registry.battery_seq()),
    {
        let ghost bats = registry.battery_seq();
        let mut any = false;
        let mut all = true;
        let mut i: usize = 0;
        while i < self.batteries.len()
            invariant
                i <= self.batteries@.len(),
                bats == registry.battery_seq(),
                any == exists|k: int| 0 <= k < i && present_battery(self, bats, k),
                all == forall|k: int|
                    0 <= k < i && present_battery(self, bats, k) ==> {
                        let m = battery_model_of(self, bats, k).unwrap();
                        m.grid_forming_in_backup && m.integrated_inverter == Some(true)
                    },
            decreases self.batteries.len() - i,
        {
            let line = &self.batteries[i];
            let ghost k0 = i as int;
            let ghost any0 = any;
            let ghost all0 = all;
            if line.quantity > 0 {
                match registry.battery(line.model_id.as_str()) {
                    Some(m) => {
                        any = true;
                        if !(m.grid_forming_in_backup && m.integrated_inverter == Some(true)) {
                            all = false;
                        }
                    },
                    None => {},
                }
            }
            i = i + 1;
            proof {
                if present_battery(self, bats, k0) {
                    assert(any);
                } else {
                    assert(any == any0);
                }
                assert forall|k: int|
                    0 <= k < i && present_battery(self, bats, k) implies {
                        let m = battery_model_of(self, bats, k).unwrap();
                        m.grid_forming_in_backup && m.integrated_inverter == Some(true)
                    } || !all by {
                    if k < k0 {
                    }
                }
                if all {
                    assert(all0);
                }
            }
        }
        any && all
    }

    /// Whether a controller line with quantity >= 1 names `id`.
    fn has_controller_line(&self, id: &str) -> (r: bool)
        ensures
            r == controller_line_present(self, id@),
    {
        let mut j: usize = 0;
        while j < self.controllers.len()
            invariant
                j <= self.controllers@.len(),
                forall|k: int|
                    0 <= k < j ==> !((#[trigger] self.controllers@[k]).quantity > 0
                        && self.controllers@[k].model_id@ == id@),
            decreases self.controllers.len() - j,
        {
            if self.controllers[j].quantity > 0 && str_eq(self.controllers[j].model_id.as_str(), id) {
                return true;
            }
            j = j + 1;
        }
        false
    }

    /// Backup composition rule (see [`backup_violations`]).
    pub fn check_backup(&self, registry: &Registry, out: &mut Vec<Violation>)
        ensures
            views(final(out)@) == views(old(out)@) + backup_violations(
                self,
                registry.battery_seq(),
                registry.controller_seq(),
            ),
    {
        let ghost start = views(out@);
        if !self.backup_capable {
            assert(views(out@) =~= start + backup_violations(
                self,
                registry.battery_seq(),
                registry.controller_seq(),
            ));
            return;
        }
        let gf = self.count_grid_forming(registry);
        if gf != 1 {
            let self_forming = self.fleet_self_forming(registry);
            if gf > 1 || !self_forming {
                let mut msg = String::from_str(
                    "backup_capable requires either exactly one present controller entry with provides_grid_forming = true (found ",
                );
                let num = decimal_string(gf as u64);
                msg.append(num.as_str());
                msg.append(
                    "), or, with no such controller, at least one present battery where every present battery model is grid-forming in backup and has an integrated inverter",
                );
                push_violation(out, violation("controllers", msg));
            }
        }
        let ghost mid = views(out@);
        let mut i: usize = 0;
        while i < self.batteries.len()
            invariant
                i <= self.batteries@.len(),
                views(out@) == mid + required_controller_violations(self, registry.battery_seq(), i as nat),
            decreases self.batteries.len() - i,
        {
            let line = &self.batteries[i];
            let ghost before = views(out@);
            match registry.battery(line.model_id.as_str()) {
                Some(m) => {
                    match &m.requires_controller_id {
                        Some(req) => {
                            if !self.has_controller_line(req.as_str()) {
                                let field = indexed_field("batteries[", i, "].model_id");
                                let mut msg = concat3("backup_capable: `", m.model_id.as_str(), "` requires controller `");
                                msg.append(req.as_str());
                                msg.append("`, which is not present in controllers[]");
                                push_violation(out, violation(field.as_str(), msg));
                            }
                        },
                        None => {},
                    }
                },
                None => {},
            }
            i = i + 1;
            proof {
                let k = (i - 1) as int;
                assert(views(out@) =~= before + (required_controller_violations(
                    self,
                    registry.battery_seq(),
                    (k + 1) as nat,
                ).subrange(
                    required_controller_violations(self, registry.battery_seq(), k as nat).len() as int,
                    required_controller_violations(self, registry.battery_seq(), (k + 1) as nat).len() as int,
                )));
            }
        }
        assert(views(out@) =~= start + backup_violations(self, registry.battery_seq(), registry.controller_seq()));
    }
}

} // verus!

verus! {

/// Some present inverter line lists `id` as compatible.
pub open spec fn compatible_present(s: &HomeSystem, invs: Seq<InverterModel>, id: Seq<char>) -> bool {
    exists|j: int|
        0 <= j < s.inverters@.len() && present_inverter(s, invs, j) && ids_contain(
            inverter_model_of(s, invs, j).compatible_battery_ids@,
            id,
        )
}

/// Some present battery line's model is listed in `ids`.
pub open spec fn lists_system_battery(s: &HomeSystem, bats: Seq<BatteryModel>, ids: Seq<String>) -> bool {
    exists|r: int|
        0 <= r < s.batteries@.len() && present_battery(s, bats, r) && ids_contain(ids, s.batteries@[r].model_id@)
}

/// DC-coupling violations of the first `n` battery lines.
pub open spec fn dc_battery_violations(
    s: &HomeSystem,
    bats: Seq<BatteryModel>,
    invs: Seq<InverterModel>,
    n: nat,
) -> Seq<ViolationView>
    decreases n,
{
    if n == 0 {
        Seq::empty()
    } else {
        let i = n - 1;
        dc_battery_violations(s, bats, invs, (n - 1) as nat) + match battery_model_of(s, bats, i) {
            Some(m) => if s.batteries@[i].quantity > 0 && m.coupling == Coupling::DCCoupledHybrid
                && m.integrated_inverter != Some(true) && !compatible_present(s, invs, m.model_id@) {
                seq![vv(
                    home_system_path(),
                    ifield("batteries["@, i, "].model_id"@),
                    "DC-coupled battery `"@ + m.model_id@
                        + "` requires a present hybrid inverter listing it in compatible_battery_ids"@,
                )]
            } else {
                Seq::empty()
            },
            None => Seq::empty(),
        }
    }
}

/// Hybrid-inverter violations of the first `n` inverter lines.
pub open spec fn dc_inverter_violations(
    s: &HomeSystem,
    bats: Seq<BatteryModel>,
    invs: Seq<InverterModel>,
    n: nat,
) -> Seq<ViolationView>
    decreases n,
{
    if n == 0 {
        Seq::empty()
    } else {
        let j = n - 1;
        dc_inverter_violations(s, bats, invs, (n - 1) as nat) + if present_inverter(s, invs, j)
            && inverter_model_of(s, invs, j).topology == InverterTopology::HybridDCCoupled
            && !lists_system_battery(s, bats, inverter_model_of(s, invs, j).compatible_battery_ids@) {
            seq![vv(
                home_system_path(),
                "inverters"@,
                "hybrid inverter `"@ + inverter_model_of(s, invs, j).model_id@
                    + "` lists no system battery in compatible_battery_ids"@,
            )]
        } else {
            Seq::empty()
        }
    }
}

/// DC-coupling violations: DC-coupled batteries without an integrated
/// inverter need a present inverter listing them, and every present hybrid
/// inverter must list at least one present system battery.
pub open spec fn dc_coupling_violations(
    s: &HomeSystem,
    bats: Seq<BatteryModel>,
    invs: Seq<InverterModel>,
) -> Seq<ViolationView> {
    dc_battery_violations(s, bats, invs, s.batteries@.len()) + dc_inverter_violations(
        s,
        bats,
        invs,
        s.inverters@.len(),
    )
}

/// The message of the hybrid-inverter rule for a model id.
pub open spec fn msg_unlisting_inverter(model_id: Seq<char>) -> Seq<char> {
    "hybrid inverter `"@ + model_id + "` lists no system battery in compatible_battery_ids"@
}

proof fn lemma_inverter_violation_kept(s: &HomeSystem, bats: Seq<BatteryModel>, invs: Seq<InverterModel>, j: int, n: nat)
    requires
        0 <= j < n <= s.inverters@.len(),
        present_inverter(s, invs, j),
        inverter_model_of(s, invs, j).topology == InverterTopology::HybridDCCoupled,
        !lists_system_battery(s, bats, inverter_model_of(s, invs, j).compatible_battery_ids@),
    ensures
        dc_inverter_violations(s, bats, invs, n).contains(
            vv(home_system_path(), "inverters"@, msg_unlisting_inverter(inverter_model_of(s, invs, j).model_id@)),
        ),
    decreases n,
{
    let v = vv(home_system_path(), "inverters"@, msg_unlisting_inverter(inverter_model_of(s, invs, j).model_id@));
    let p = dc_inverter_violations(s, bats, invs, (n - 1) as nat);
    let q = dc_inverter_violations(s, bats, invs, n);
    if j == n - 1 {
        assert(q[p.len() as int] == v);
    } else {
        lemma_inverter_violation_kept(s, bats, invs, j, (n - 1) as nat);
        let k = choose|k: int| 0 <= k < p.len() && p[k] == v;
        assert(q[k] == v);
    }
}

proof fn lemma_no_inverter_violations(s: &HomeSystem, bats: Seq<BatteryModel>, invs: Seq<InverterModel>, n: nat)
    requires
        n <= s.inverters@.len(),
        forall|j: int|
            0 <= j < s.inverters@.len() && present_inverter(s, invs, j) && inverter_model_of(s, invs, j).topology
                == InverterTopology::HybridDCCoupled ==> #[trigger] lists_system_battery(
                s,
                bats,
                inverter_model_of(s, invs, j).compatible_battery_ids@,
            ),
    ensures
        dc_inverter_violations(s, bats, invs, n).len() == 0,
    decreases n,
{
    if n > 0 {
        lemma_no_inverter_violations(s, bats, invs, (n - 1) as nat);
        let j = n - 1;
        if present_inverter(s, invs, j) && inverter_model_of(s, invs, j).topology == InverterTopology::HybridDCCoupled {
            assert(lists_system_battery(s, bats, inverter_model_of(s, invs, j).compatible_battery_ids@));
        }
    }
}

proof fn lemma_battery_violation_fields(s: &HomeSystem, bats: Seq<BatteryModel>, invs: Seq<InverterModel>, n: nat)
    requires
        n <= s.batteries@.len(),
    ensures
        forall|k: int|
            0 <= k < dc_battery_violations(s, bats, invs, n).len() ==> (#[trigger] dc_battery_violations(s, bats, invs, n)[k]).field.len() > 0
                && dc_battery_violations(s, bats, invs, n)[k].field[0] == 'b',
    decreases n,
{
    reveal_strlit("batteries[");
    if n > 0 {
        lemma_battery_violation_fields(s, bats, invs, (n - 1) as nat);
        let p = dc_battery_violations(s, bats, invs, (n - 1) as nat);
        let q = dc_battery_violations(s, bats, invs, n);
        let i = n - 1;
        assert forall|k: int| 0 <= k < q.len() implies (#[trigger] q[k]).field.len() > 0 && q[k].field[0] == 'b' by {
            if k < p.len() {
                assert(q[k] == p[k]);
            } else {
                let f = ifield("batteries["@, i, "].model_id"@);
                assert(q[k].field == f);
                assert(f[0] == "batteries["@[0]);
            }
        }
    }
}

/// A present hybrid DC-coupled inverter none of whose
/// `compatible_battery_ids` names the model of a present battery line is
/// reported on `inverters`, whatever else the system holds.
pub proof fn law_unlisting_hybrid_inverter_is_reported(
    s: &HomeSystem,
    bats: Seq<BatteryModel>,
    invs: Seq<InverterModel>,
    j: int,
    m: InverterModel,
)
    requires
        0 <= j < s.inverters@.len(),
        s.inverters@[j].quantity > 0,
        find(invs, s.inverters@[j].model_id@) == Some(m),
        m.topology == InverterTopology::HybridDCCoupled,
        forall|r: int, k: int|
            0 <= r < s.batteries@.len() && s.batteries@[r].quantity > 0 && find(bats, s.batteries@[r].model_id@) is Some
                && 0 <= k < m.compatible_battery_ids@.len() ==> (#[trigger] m.compatible_battery_ids@[k])@
                != (#[trigger] s.batteries@[r]).model_id@,
    ensures
        dc_coupling_violations(s, bats, invs).contains(
            vv(home_system_path(), "inverters"@, msg_unlisting_inverter(m.model_id@)),
        ),
{
    let ids = m.compatible_battery_ids@;
    if lists_system_battery(s, bats, ids) {
        let r = choose|r: int|
            0 <= r < s.batteries@.len() && present_battery(s, bats, r) && ids_contain(ids, s.batteries@[r].model_id@);
        let k = choose|k: int| 0 <= k < ids.len() && (#[trigger] ids[k])@ == s.batteries@[r].model_id@;
        assert(m.compatible_battery_ids@[k]@ != s.batteries@[r].model_id@);
    }
    lemma_inverter_violation_kept(s, bats, invs, j, s.inverters@.len());
    let a = dc_battery_violations(s, bats, invs, s.batteries@.len());
    let b = dc_inverter_violations(s, bats, invs, s.inverters@.len());
    let v = vv(home_system_path(), "inverters"@, msg_unlisting_inverter(m.model_id@));
    let k = choose|k: int| 0 <= k < b.len() && b[k] == v;
    assert((a + b)[a.len() + k] == v);
}

/// When every present hybrid DC-coupled inverter names, among its
/// `compatible_battery_ids`, the model of some present battery line, no
/// DC-coupling violation falls on `inverters`.
pub proof fn law_listing_hybrid_inverters_pass(s: &HomeSystem, bats: Seq<BatteryModel>, invs: Seq<InverterModel>)
    requires
        forall|j: int|
            0 <= j < s.inverters@.len() && s.inverters@[j].quantity > 0 && find(invs, s.inverters@[j].model_id@) is Some
                && (#[trigger] find(invs, s.inverters@[j].model_id@)).unwrap().topology == InverterTopology::HybridDCCoupled
                ==> exists|r: int, k: int|
                0 <= r < s.batteries@.len() && s.batteries@[r].quantity > 0 && find(bats, s.batteries@[r].model_id@) is Some
                    && 0 <= k < find(invs, s.inverters@[j].model_id@).unwrap().compatible_battery_ids@.len()
                    && (#[trigger] find(invs, s.inverters@[j].model_id@).unwrap().compatible_battery_ids@[k])@
                    == (#[trigger] s.batteries@[r]).model_id@,
    ensures
        forall|v: ViolationView| #[trigger] dc_coupling_violations(s, bats, invs).contains(v) ==> v.field != "inverters"@,
{
    assert forall|j: int|
        0 <= j < s.inverters@.len() && present_inverter(s, invs, j) && inverter_model_of(s, invs, j).topology
            == InverterTopology::HybridDCCoupled implies #[trigger] lists_system_battery(
        s,
        bats,
        inverter_model_of(s, invs, j).compatible_battery_ids@,
    ) by {
        assert(find(invs, s.inverters@[j].model_id@) is Some);
        let m = find(invs, s.inverters@[j].model_id@).unwrap();
        let (r, k) = choose|r: int, k: int|
            0 <= r < s.batteries@.len() && s.batteries@[r].quantity > 0 && find(bats, s.batteries@[r].model_id@) is Some
                && 0 <= k < m.compatible_battery_ids@.len()
                && m.compatible_battery_ids@[k]@ == s.batteries@[r].model_id@;
        assert(present_battery(s, bats, r));
        assert(ids_contain(m.compatible_battery_ids@, s.batteries@[r].model_id@));
    }
    lemma_no_inverter_violations(s, bats, invs, s.inverters@.len());
    lemma_battery_violation_fields(s, bats, invs, s.batteries@.len());
    reveal_strlit("inverters");
    let a = dc_battery_violations(s, bats, invs, s.batteries@.len());
    let b = dc_inverter_violations(s, bats, invs, s.inverters@.len());
    assert(a + b =~= a);
    assert forall|v: ViolationView| #[trigger] dc_coupling_violations(s, bats, invs).contains(v) implies v.field != "inverters"@ by {
        let k = choose|k: int| 0 <= k < a.len() && a[k] == v;
        assert(a[k].field[0] == 'b');
        assert("inverters"@[0] == 'i');
    }
}

impl HomeSystem {
    /// Whether some present inverter line lists `id`.
    fn has_compatible_present(&self, registry: &Registry, id: &str) -> (r: bool)
        ensures
            r == compatible_present(self, registry.inverter_seq(), id@),
    {
        let mut j: usize = 0;
        while j < self.inverters.len()
            invariant
                j <= self.inverters@.len(),
                forall|k: int|
                    0 <= k < j ==> !(present_inverter(self, registry.inverter_seq(), k) && ids_contain(
                        inverter_model_of(self, registry.inverter_seq(), k).compatible_battery_ids@,
                        id@,
                    )),
            decreases self.inverters.len() - j,
        {
            let line = &self.inverters[j];
            if line.quantity > 0 {
                if let Some(inv) = registry.inverter(line.model_id.as_str()) {
                    if contains_id(&inv.compatible_battery_ids, id) {
                        proof {
                            assert(present_inverter(self, registry.inverter_seq(), j as int) && ids_contain(
                                inverter_model_of(self, registry.inverter_seq(), j as int).compatible_battery_ids@,
                                id@,
                            ));
                        }
                        return true;
                    }
                }
            }
            j = j + 1;
        }
        false
    }

    /// Whether some present battery line's model id is in `ids`.
    fn lists_present_battery(&self, registry: &Registry, ids: &Vec<String>) -> (r: bool)
        ensures
            r == lists_system_battery(self, registry.battery_seq(), ids@),
    {
        let mut r: usize = 0;
        while r < self.batteries.len()
            invariant
                r <= self.batteries@.len(),
                forall|k: int|
                    0 <= k < r ==> !(present_battery(self, registry.battery_seq(), k) && ids_contain(
                        ids@,
                        self.batteries@[k].model_id@,
                    )),
            decreases self.batteries.len() - r,
        {
            let line = &self.batteries[r];
            if line.quantity > 0 && registry.battery(line.model_id.as_str()).is_some() && contains_id(
                ids,
                line.model_id.as_str(),
            ) {
                proof {
                    assert(present_battery(self, registry.battery_seq(), r as int) && ids_contain(
                        ids@,
                        self.batteries@[r as int].model_id@,
                    ));
                }
                return true;
            }
            r = r + 1;
        }
        false
    }

    /// DC-coupling rule (see [`dc_coupling_violations`]).
    pub fn check_dc_coupling(&self, registry: &Registry, out: &mut Vec<Violation>)
        ensures
            views(final(out)@) == views(old(out)@) + dc_coupling_violations(
                self,
                registry.battery_seq(),
                registry.inverter_seq(),
            ),
    {
        let ghost start = views(out@);
        let mut i: usize = 0;
        while i < self.batteries.len()
            invariant
                i <= self.batteries@.len(),
                views(out@) == start + dc_battery_violations(
                    self,
                    registry.battery_seq(),
                    registry.inverter_seq(),
                    i as nat,
                ),
            decreases self.batteries.len() - i,
        {
            let line = &self.batteries[i];
            let ghost before = views(out@);
            if let Some(m) = registry.battery(line.model_id.as_str()) {
                if line.quantity > 0 && m.coupling == Coupling::DCCoupledHybrid
                    && m.integrated_inverter != Some(true) {
                    if !self.has_compatible_present(registry, m.model_id.as_str()) {
                        let field = indexed_field("batteries[", i, "].model_id");
                        let msg = concat3(
                            "DC-coupled battery `",
                            m.model_id.as_str(),
                            "` requires a present hybrid inverter listing it in compatible_battery_ids",
                        );
                        push_violation(out, violation(field.as_str(), msg));
                    }
                }
            }
            i = i + 1;
            proof {
                let k = (i - 1) as nat;
                let a = dc_battery_violations(self, registry.battery_seq(), registry.inverter_seq(), k);
                let b = dc_battery_violations(self, registry.battery_seq(), registry.inverter_seq(), (k + 1) as nat);
                assert(views(out@) =~= before + b.subrange(a.len() as int, b.len() as int));
            }
        }
        let ghost mid = views(out@);
        let mut j: usize = 0;
        while j < self.inverters.len()
            invariant
                j <= self.inverters@.len(),
                views(out@) == mid + dc_inverter_violations(
                    self,
                    registry.battery_seq(),
                    registry.inverter_seq(),
                    j as nat,
                ),
            decreases self.inverters.len() - j,
        {
            let line = &self.inverters[j];
            let ghost before = views(out@);
            if line.quantity > 0 {
                if let Some(inv) = registry.inverter(line.model_id.as_str()) {
                    if inv.topology == InverterTopology::HybridDCCoupled
                        && !self.lists_present_battery(registry, &inv.compatible_battery_ids) {
                        let msg = concat3(
                            "hybrid inverter `",
                            inv.model_id.as_str(),
                            "` lists no system battery in compatible_battery_ids",
                        );
                        push_violation(out, violation("inverters", msg));
                    }
                }
            }
            j = j + 1;
            proof {
                let k = (j - 1) as nat;
                let a = dc_inverter_violations(self, registry.battery_seq(), registry.inverter_seq(), k);
                let b = dc_inverter_violations(self, registry.battery_seq(), registry.inverter_seq(), (k + 1) as nat);
                assert(views(out@) =~= before + b.subrange(a.len() as int, b.len() as int));
            }
        }
        assert(views(out@) =~= start + dc_coupling_violations(
            self,
            registry.battery_seq(),
            registry.inverter_seq(),
        ));
    }
}

} // verus!
