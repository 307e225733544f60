//! The remaining composition rules over a HomeSystem document: the
//! compatible-inverter capacity bound, expansion packs, the generator
//! interlock, PV wiring, and the resolved facts a valid system carries.

use vstd::prelude::*;
use vstd::string::*;

use crate::catalog::{find, BatteryModel, ControllerModel, InverterModel, Registry};
use crate::kinds::{Coupling, InverterTopology};
use crate::system::{
    backup_violations, battery_lines_violations, battery_model_of, controller_lines_violations,
    check_line_quantity, check_line_resolves, controller_model_of, dc_coupling_violations, ifield,
    inverter_lines_violations, inverter_model_of, present_controller, present_inverter, quantity_violation,
    system_schema_violations, unknown_violation, HomeSystem, LineKind,
};
use crate::text::{concat3, decimal, decimal_string, indexed_field, str_eq, to_string_of};
use crate::violation::{append_violations, home_system_path, push_violation, violation, views, vv, Violation, ViolationView};
use crate::xref::{contains_id, ids_contain};

verus! {

/// Inverter line `j` is present and lists `id` as compatible.
pub open spec fn compatible_line(s: &HomeSystem, invs: Seq<InverterModel>, j: int, id: Seq<char>) -> bool {
    present_inverter(s, invs, j) && ids_contain(inverter_model_of(s, invs, j).compatible_battery_ids@, id)
}

/// Some present inverter line lists `id`.
pub open spec fn any_compatible(s: &HomeSystem, invs: Seq<InverterModel>, id: Seq<char>) -> bool {
    exists|j: int| 0 <= j < s.inverters@.len() && #[trigger] compatible_line(s, invs, j, id)
}

/// Every present inverter line listing `id` declares `max_batteries`.
pub open spec fn all_compatible_declared(s: &HomeSystem, invs: Seq<InverterModel>, id: Seq<char>) -> bool {
    forall|j: int|
        0 <= j < s.inverters@.len() && #[trigger] compatible_line(s, invs, j, id)
            ==> inverter_model_of(s, invs, j).max_batteries is Some
}

/// `a * b` saturated at `u32::MAX`.
pub open spec fn sat_mul_u32(a: u32, b: u32) -> int {
    if a * b > u32::MAX {
        u32::MAX as int
    } else {
        a * b
    }
}

/// Sum of `max_batteries x quantity` (saturating per line) over the first
/// `n` inverter lines that are present and list `id`.
pub open spec fn capacity_sum(s: &HomeSystem, invs: Seq<InverterModel>, id: Seq<char>, n: nat) -> int
    decreases n,
{
    if n == 0 {
        0
    } else {
        let j = n - 1;
        capacity_sum(s, invs, id, (n - 1) as nat) + if compatible_line(s, invs, j, id) {
            match inverter_model_of(s, invs, j).max_batteries {
                Some(mb) => sat_mul_u32(mb, s.inverters@[j].quantity),
                None => 0,
            }
        } else {
            0
        }
    }
}

/// Sum of the quantities of the first `n` battery lines naming `id`.
pub open spec fn units_sum(s: &HomeSystem, id: Seq<char>, n: nat) -> int
    decreases n,
{
    if n == 0 {
        0
    } else {
        let i = n - 1;
        units_sum(s, id, (n - 1) as nat) + if s.batteries@[i].model_id@ == id {
            s.batteries@[i].quantity as int
        } else {
            0
        }
    }
}

/// Battery line `i` is the first line naming its model.
pub open spec fn first_line_of_model(s: &HomeSystem, i: int) -> bool {
    forall|k: int| 0 <= k < i ==> (#[trigger] s.batteries@[k]).model_id@ != s.batteries@[i].model_id@
}

/// The capacity bound applies to `id`: some present inverter lists it and
/// every such inverter declares `max_batteries`.
pub open spec fn capacity_applies(s: &HomeSystem, invs: Seq<InverterModel>, id: Seq<char>) -> bool {
    any_compatible(s, invs, id) && all_compatible_declared(s, invs, id)
}

/// Wherever the capacity bound applies to a resolved battery model, the
/// capacity and unit sums fit in `u32`.
pub open spec fn capacity_sums_fit(s: &HomeSystem, bats: Seq<BatteryModel>, invs: Seq<InverterModel>) -> bool {
    forall|i: int|
        0 <= i < s.batteries@.len() && battery_model_of(s, bats, i) is Some && capacity_applies(
            s,
            invs,
            #[trigger] s.batteries@[i].model_id@,
        ) ==> capacity_sum(s, invs, s.batteries@[i].model_id@, s.inverters@.len()) <= u32::MAX
            && units_sum(s, s.batteries@[i].model_id@, s.batteries@.len()) <= u32::MAX
}

/// Message for a battery model over its compatible-inverter capacity.
pub open spec fn msg_capacity(units: int, id: Seq<char>, capacity: int) -> Seq<char> {
    decimal(units as nat) + " unit(s) of `"@ + id + "` exceed compatible-inverter capacity "@ + decimal(
        capacity as nat,
    ) + " (sum of max_batteries over present inverters)"@
}

/// Capacity violation of battery line `i`.
pub open spec fn capacity_violation(
    s: &HomeSystem,
    bats: Seq<BatteryModel>,
    invs: Seq<InverterModel>,
    i: int,
) -> Seq<ViolationView> {
    let id = s.batteries@[i].model_id@;
    let units = units_sum(s, id, s.batteries@.len());
    let cap = capacity_sum(s, invs, id, s.inverters@.len());
    if battery_model_of(s, bats, i) is Some && first_line_of_model(s, i) && capacity_applies(s, invs, id)
        && units > cap {
        seq![vv(home_system_path(), ifield("batteries["@, i, "].model_id"@), msg_capacity(units, id, cap))]
    } else {
        Seq::empty()
    }
}

/// Capacity violations of the first `n` battery lines: per battery model,
/// the total unit count is bounded by the summed `max_batteries x quantity`
/// of the present inverters listing it, when every one of them declares
/// `max_batteries`.
pub open spec fn capacity_violations(
    s: &HomeSystem,
    bats: Seq<BatteryModel>,
    invs: Seq<InverterModel>,
    n: nat,
) -> Seq<ViolationView>
    decreases n,
{
    if n == 0 {
        Seq::empty()
    } else {
        capacity_violations(s, bats, invs, (n - 1) as nat) + capacity_violation(s, bats, invs, n - 1)
    }
}

/// `capacity_sum` grows with the number of lines summed.
pub proof fn lemma_capacity_sum_monotone(
    s: &HomeSystem,
    invs: Seq<InverterModel>,
    id: Seq<char>,
    a: nat,
    b: nat,
)
    requires
        a <= b,
    ensures
        capacity_sum(s, invs, id, a) <= capacity_sum(s, invs, id, b),
    decreases b - a,
{
    if a < b {
        lemma_capacity_sum_monotone(s, invs, id, a, (b - 1) as nat);
    }
}

/// `units_sum` grows with the number of lines summed.
pub proof fn lemma_units_sum_monotone(s: &HomeSystem, id: Seq<char>, a: nat, b: nat)
    requires
        a <= b,
    ensures
        units_sum(s, id, a) <= units_sum(s, id, b),
    decreases b - a,
{
    if a < b {
        lemma_units_sum_monotone(s, id, a, (b - 1) as nat);
    }
}

impl HomeSystem {
    /// Whether some present inverter lists `id`, and whether all of them
    /// declare `max_batteries`.
    fn compatible_summary(&self, registry: &Registry, id: &str) -> (r: (bool, bool))
        ensures
            r.0 == any_compatible(self, registry.inverter_seq(), id@),
            r.1 == all_compatible_declared(self, registry.inverter_seq(), id@),
    {
        let ghost invs = registry.inverter_seq();
        let mut any = false;
        let mut all = true;
        let mut j: usize = 0;
        while j < self.inverters.len()
            invariant
                j <= self.inverters@.len(),
                invs == registry.inverter_seq(),
                any == exists|k: int| 0 <= k < j && #[trigger] compatible_line(self, invs, k, id@),
                all == forall|k: int|
                    0 <= k < j && #[trigger] compatible_line(self, invs, k, id@)
                        ==> inverter_model_of(self, invs, k).max_batteries is Some,
            decreases self.inverters.len() - j,
        {
            let line = &self.inverters[j];
            let ghost k0 = j as int;
            let ghost any0 = any;
            let ghost all0 = all;
            if line.quantity > 0 {
                if let Some(inv) = registry.inverter(line.model_id.as_str()) {
                    if contains_id(&inv.compatible_battery_ids, id) {
                        any = true;
                        if inv.max_batteries.is_none() {
                            all = false;
                        }
                    }
                }
            }
            j = j + 1;
            proof {
                if compatible_line(self, invs, k0, id@) {
                    assert(any);
                } else {
                    assert(any == any0);
                }
                if all {
                    assert(all0);
                    assert forall|k: int|
                        0 <= k < j && #[trigger] compatible_line(self, invs, k, id@) implies inverter_model_of(
                        self,
                        invs,
                        k,
                    ).max_batteries is Some by {
                        if k < k0 {
                        }
                    }
                } else if all0 {
                    assert(compatible_line(self, invs, k0, id@));
                }
            }
        }
        (any, all)
    }

    /// Summed capacity of the present inverters listing `id`, or `None`
    /// when the sum exceeds `u32::MAX`.
    fn compatible_capacity(&self, registry: &Registry, id: &str) -> (r: Option<u32>)
        ensures
            match r {
                Some(c) => c == capacity_sum(self, registry.inverter_seq(), id@, self.inverters@.len()),
                None => capacity_sum(self, registry.inverter_seq(), id@, self.inverters@.len()) > u32::MAX,
            },
    {
        let ghost invs = registry.inverter_seq();
        let mut cap: u32 = 0;
        let mut j: usize = 0;
        while j < self.inverters.len()
            invariant
                j <= self.inverters@.len(),
                invs == registry.inverter_seq(),
                cap == capacity_sum(self, invs, id@, j as nat),
            decreases self.inverters.len() - j,
        {
            let line = &self.inverters[j];
            if line.quantity > 0 {
                if let Some(inv) = registry.inverter(line.model_id.as_str()) {
                    if contains_id(&inv.compatible_battery_ids, id) {
                        let add: u32 = match inv.max_batteries {
                            Some(mb) => {
                                let q = line.quantity;
                                assert((mb as u64) * (q as u64) <= 0xffff_ffffu64 * 0xffff_ffffu64) by (nonlinear_arith)
                                    requires
                                        mb <= 0xffff_ffffu32,
                                        q <= 0xffff_ffffu32,
                                ;
                                let wide: u64 = (mb as u64) * (q as u64);
                                if wide > 0xffff_ffffu64 {
                                    0xffff_ffffu32
                                } else {
                                    wide as u32
                                }
                            },
                            None => 0,
                        };
                        if add > u32::MAX - cap {
                            proof {
                                lemma_capacity_sum_monotone(self, invs, id@, (j + 1) as nat, self.inverters@.len());
                            }
                            return None;
                        }
                        cap = cap + add;
                    }
                }
            }
            j = j + 1;
        }
        Some(cap)
    }

    /// Total quantity of the battery lines naming `id`, or `None` when it
    /// exceeds `u32::MAX`.
    fn units_of_model(&self, id: &str) -> (r: Option<u32>)
        ensures
            match r {
                Some(u) => u == units_sum(self, id@, self.batteries@.len()),
                None => units_sum(self, id@, self.batteries@.len()) > u32::MAX,
            },
    {
        let mut units: u32 = 0;
        let mut i: usize = 0;
        while i < self.batteries.len()
            invariant
                i <= self.batteries@.len(),
                units == units_sum(self, id@, i as nat),
            decreases self.batteries.len() - i,
        {
            if str_eq(self.batteries[i].model_id.as_str(), id) {
                let q = self.batteries[i].quantity;
                if q > u32::MAX - units {
                    proof {
                        lemma_units_sum_monotone(self, id@, (i + 1) as nat, self.batteries@.len());
                    }
                    return None;
                }
                units = units + q;
            }
            i = i + 1;
        }
        Some(units)
    }

    /// Whether battery line `i` is the first naming its model.
    fn is_first_line_of_model(&self, i: usize) -> (r: bool)
        requires
            i < self.batteries@.len(),
        ensures
            r == first_line_of_model(self, i as int),
    {
        let mut k: usize = 0;
        while k < i
            invariant
                k <= i < self.batteries@.len(),
                forall|q: int| 0 <= q < k ==> (#[trigger] self.batteries@[q]).model_id@ != self.batteries@[i as int].model_id@,
            decreases i - k,
        {
            if str_eq(self.batteries[k].model_id.as_str(), self.batteries[i].model_id.as_str()) {
                return false;
            }
            k = k + 1;
        }
        true
    }

    /// Whether the capacity and unit sums of every battery model the
    /// capacity bound applies to fit in `u32` (see [`capacity_sums_fit`]);
    /// [`HomeSystem::check_inverter_capacity`] needs this.
    pub fn capacity_sums_within_range(&self, registry: &Registry) -> (r: bool)
        ensures
            r == capacity_sums_fit(self, registry.battery_seq(), registry.inverter_seq()),
    {
        let ghost bats = registry.battery_seq();
        let ghost invs = registry.inverter_seq();
        let mut i: usize = 0;
        while i < self.batteries.len()
            invariant
                i <= self.batteries@.len(),
                bats == registry.battery_seq(),
                invs == registry.inverter_seq(),
                forall|q: int|
                    0 <= q < i && battery_model_of(self, bats, q) is Some && capacity_applies(
                        self,
                        invs,
                        #[trigger] self.batteries@[q].model_id@,
                    ) ==> capacity_sum(self, invs, self.batteries@[q].model_id@, self.inverters@.len())
                        <= u32::MAX && units_sum(self, self.batteries@[q].model_id@, self.batteries@.len())
                        <= u32::MAX,
            decreases self.batteries.len() - i,
        {
            let line = &self.batteries[i];
            if registry.battery(line.model_id.as_str()).is_some() {
                let (any, all) = self.compatible_summary(registry, line.model_id.as_str());
                if any && all {
                    if self.compatible_capacity(registry, line.model_id.as_str()).is_none() {
                        return false;
                    }
                    if self.units_of_model(line.model_id.as_str()).is_none() {
                        return false;
                    }
                }
            }
            i = i + 1;
        }
        true
    }

    /// Compatible-inverter capacity rule (see [`capacity_violations`]).
    pub fn check_inverter_capacity(&self, registry: &Registry, out: &mut Vec<Violation>)
        requires
            capacity_sums_fit(self, registry.battery_seq(), registry.inverter_seq()),
        ensures
            views(final(out)@) == views(old(out)@) + capacity_violations(
                self,
                registry.battery_seq(),
                registry.inverter_seq(),
                self.batteries@.len(),
            ),
    {
        let ghost start = views(out@);
        let ghost bats = registry.battery_seq();
        let ghost invs = registry.inverter_seq();
        let mut i: usize = 0;
        while i < self.batteries.len()
            invariant
                i <= self.batteries@.len(),
                bats == registry.battery_seq(),
                invs == registry.inverter_seq(),
                capacity_sums_fit(self, bats, invs),
                views(out@) == start + capacity_violations(self, bats, invs, i as nat),
            decreases self.batteries.len() - i,
        {
            let line = &self.batteries[i];
            let ghost before = views(out@);
            let ghost k = i as int;
            let ghost id = self.batteries@[k].model_id@;
            if registry.battery(line.model_id.as_str()).is_some() && self.is_first_line_of_model(i) {
                let (any, all) = self.compatible_summary(registry, line.model_id.as_str());
                if any && all {
                    assert(capacity_applies(self, invs, self.batteries@[k].model_id@));
                    let cap = match self.compatible_capacity(registry, line.model_id.as_str()) {
                        Some(c) => c,
                        None => 0,
                    };
                    let units = match self.units_of_model(line.model_id.as_str()) {
                        Some(u) => u,
                        None => 0,
                    };
                    if units > cap {
                        let field = indexed_field("batteries[", i, "].model_id");
                        let mut msg = decimal_string(units as u64);
                        msg.append(" unit(s) of `");
                        msg.append(line.model_id.as_str());
                        msg.append("` exceed compatible-inverter capacity ");
                        let c = decimal_string(cap as u64);
                        msg.append(c.as_str());
                        msg.append(" (sum of max_batteries over present inverters)");
                        push_violation(out, violation(field.as_str(), msg));
                    }
                }
            }
            i = i + 1;
            proof {
                assert(views(out@) =~= before + capacity_violation(self, bats, invs, k));
            }
        }
    }
}

} // verus!

verus! {

/// Expansion-pack field of battery line `i`.
pub open spec fn packs_field(i: int) -> Seq<char> {
    ifield("batteries["@, i, "].expansion_packs_per_unit"@)
}

/// `a - b` saturated at 0.
pub open spec fn sat_sub_u32(a: u32, b: u32) -> int {
    if a >= b {
        a - b
    } else {
        0
    }
}

/// Expansion-pack violations of battery line `i`: packs are allowed only
/// on models declaring expansion metadata with an `expansion_pack_model_id`;
/// packs per unit stay within `max_units_per_inverter - 1`; packs add
/// energy only; the pack model resolves to a battery entry.
pub open spec fn pack_violations(s: &HomeSystem, bats: Seq<BatteryModel>, i: int) -> Seq<ViolationView> {
    let b = s.batteries@[i];
    let f = packs_field(i);
    if b.expansion_packs_per_unit == 0 {
        Seq::empty()
    } else {
        match battery_model_of(s, bats, i) {
            None => Seq::empty(),
            Some(m) => match m.expansion {
                None => seq![vv(
                    home_system_path(),
                    f,
                    "`"@ + m.model_id@ + "` declares no expansion metadata; expansion packs are not supported"@,
                )],
                Some(exp) => match exp.expansion_pack_model_id {
                    None => seq![vv(
                        home_system_path(),
                        f,
                        "`"@ + m.model_id@
                            + "` declares no expansion_pack_model_id; expansion packs are not supported"@,
                    )],
                    Some(pack_id) => (match exp.max_units_per_inverter {
                        Some(max_units) => if b.expansion_packs_per_unit > sat_sub_u32(max_units, 1) {
                            seq![vv(
                                home_system_path(),
                                f,
                                decimal(b.expansion_packs_per_unit as nat) + " expansion packs per unit exceed "@
                                    + decimal(sat_sub_u32(max_units, 1) as nat)
                                    + " (max_units_per_inverter "@ + decimal(max_units as nat)
                                    + " minus the head unit)"@,
                            )]
                        } else {
                            Seq::empty()
                        },
                        None => Seq::empty(),
                    }) + (if exp.packs_add_power == Some(true) {
                        seq![vv(
                            home_system_path(),
                            f,
                            "`"@ + m.model_id@
                                + "` declares packs_add_power = true; expansion packs must add energy only"@,
                        )]
                    } else {
                        Seq::empty()
                    }) + (if find(bats, pack_id@) is None {
                        seq![vv(
                            home_system_path(),
                            f,
                            "expansion pack model `"@ + pack_id@ + "` does not resolve to a battery entry"@,
                        )]
                    } else {
                        Seq::empty()
                    }),
                },
            },
        }
    }
}

/// Expansion-pack violations of the first `n` battery lines.
pub open spec fn packs_violations(s: &HomeSystem, bats: Seq<BatteryModel>, n: nat) -> Seq<ViolationView>
    decreases n,
{
    if n == 0 {
        Seq::empty()
    } else {
        packs_violations(s, bats, (n - 1) as nat) + pack_violations(s, bats, n - 1)
    }
}

impl HomeSystem {
    /// Expansion-pack rule for one battery line.
    fn check_line_packs(&self, registry: &Registry, i: usize, out: &mut Vec<Violation>)
        requires
            i < self.batteries@.len(),
        ensures
            views(final(out)@) == views(old(out)@) + pack_violations(self, registry.battery_seq(), i as int),
    {
        let ghost start = views(out@);
        let b = &self.batteries[i];
        if b.expansion_packs_per_unit == 0 {
            assert(views(out@) =~= start + pack_violations(self, registry.battery_seq(), i as int));
            return;
        }
        let m = match registry.battery(b.model_id.as_str()) {
            Some(m) => m,
            None => {
                assert(views(out@) =~= start + pack_violations(self, registry.battery_seq(), i as int));
                return;
            },
        };
        let field = indexed_field("batteries[", i, "].expansion_packs_per_unit");
        let exp = match &m.expansion {
            Some(e) => e,
            None => {
                let msg = concat3(
                    "`",
                    m.model_id.as_str(),
                    "` declares no expansion metadata; expansion packs are not supported",
                );
                push_violation(out, violation(field.as_str(), msg));
                assert(views(out@) =~= start + pack_violations(self, registry.battery_seq(), i as int));
                return;
            },
        };
        let pack_id = match &exp.expansion_pack_model_id {
            Some(p) => p,
            None => {
                let msg = concat3(
                    "`",
                    m.model_id.as_str(),
                    "` declares no expansion_pack_model_id; expansion packs are not supported",
                );
                push_violation(out, violation(field.as_str(), msg));
                assert(views(out@) =~= start + pack_violations(self, registry.battery_seq(), i as int));
                return;
            },
        };
        let ghost s1 = views(out@);
        if let Some(max_units) = exp.max_units_per_inverter {
            let max_packs: u32 = if max_units >= 1 { max_units - 1 } else { 0 };
            if b.expansion_packs_per_unit > max_packs {
                let mut msg = decimal_string(b.expansion_packs_per_unit as u64);
                msg.append(" expansion packs per unit exceed ");
                let mp = decimal_string(max_packs as u64);
                msg.append(mp.as_str());
                msg.append(" (max_units_per_inverter ");
                let mu = decimal_string(max_units as u64);
                msg.append(mu.as_str());
                msg.append(" minus the head unit)");
                push_violation(out, violation(field.as_str(), msg));
            }
        }
        let ghost s2 = views(out@);
        if exp.packs_add_power == Some(true) {
            let msg = concat3(
                "`",
                m.model_id.as_str(),
                "` declares packs_add_power = true; expansion packs must add energy only",
            );
            push_violation(out, violation(field.as_str(), msg));
        }
        let ghost s3 = views(out@);
        if registry.battery(pack_id.as_str()).is_none() {
            let msg = concat3("expansion pack model `", pack_id.as_str(), "` does not resolve to a battery entry");
            push_violation(out, violation(field.as_str(), msg));
        }
        assert(views(out@) =~= start + pack_violations(self, registry.battery_seq(), i as int));
    }

    /// Expansion-pack rule (see [`pack_violations`]).
    pub fn check_expansion_packs(&self, registry: &Registry, out: &mut Vec<Violation>)
        ensures
            views(final(out)@) == views(old(out)@) + packs_violations(
                self,
                registry.battery_seq(),
                self.batteries@.len(),
            ),
    {
        let ghost start = views(out@);
        let mut i: usize = 0;
        while i < self.batteries.len()
            invariant
                i <= self.batteries@.len(),
                views(out@) == start + packs_violations(self, registry.battery_seq(), i as nat),
            decreases self.batteries.len() - i,
        {
            let ghost before = views(out@);
            self.check_line_packs(registry, i, out);
            i = i + 1;
            assert(views(out@) =~= before + pack_violations(self, registry.battery_seq(), (i - 1) as int));
        }
    }
}

} // verus!

verus! {

/// Some present controller line supports a generator input.
pub open spec fn generator_supported(s: &HomeSystem, ctrls: Seq<ControllerModel>) -> bool {
    exists|j: int|
        0 <= j < s.controllers@.len() && #[trigger] present_controller(s, ctrls, j)
            && controller_model_of(s, ctrls, j).supports_generator_input
}

/// Generator interlock violations: a declared generator requires a present
/// controller with `supports_generator_input`.
pub open spec fn generator_violations(s: &HomeSystem, ctrls: Seq<ControllerModel>) -> Seq<ViolationView> {
    if s.generator is Some && !generator_supported(s, ctrls) {
        seq![vv(
            home_system_path(),
            "generator"@,
            "a generator requires a present controller with supports_generator_input = true"@,
        )]
    } else {
        Seq::empty()
    }
}

/// A present hybrid landing pad for PV: a present hybrid DC-coupled
/// inverter, or a present DC-coupled battery with an integrated inverter.
pub open spec fn landing_pad(s: &HomeSystem, bats: Seq<BatteryModel>, invs: Seq<InverterModel>) -> bool {
    (exists|j: int|
        0 <= j < s.inverters@.len() && #[trigger] present_inverter(s, invs, j)
            && inverter_model_of(s, invs, j).topology == InverterTopology::HybridDCCoupled) || (exists|
        i: int,
    |
        0 <= i < s.batteries@.len() && (#[trigger] s.batteries@[i]).quantity > 0 && match battery_model_of(
            s,
            bats,
            i,
        ) {
            Some(m) => m.coupling == Coupling::DCCoupledHybrid && m.integrated_inverter == Some(true),
            None => false,
        })
}

/// PV wiring violations: an explicit azimuth lies in 0..=359; a named PV
/// inverter resolves; a null PV inverter needs a present landing pad.
pub open spec fn pv_violations(s: &HomeSystem, bats: Seq<BatteryModel>, invs: Seq<InverterModel>) -> Seq<
    ViolationView,
> {
    match s.pv {
        None => Seq::empty(),
        Some(pv) => (match pv.orientation {
            crate::system::Orientation::Azimuth(a) => if a > 359 {
                seq![vv(home_system_path(), "pv.orientation"@, "azimuth must lie in 0..=359 degrees"@)]
            } else {
                Seq::empty()
            },
            crate::system::Orientation::Named(_) => Seq::empty(),
        }) + match pv.pv_inverter_model_id {
            Some(pid) => if find(invs, pid@) is None {
                seq![vv(
                    home_system_path(),
                    "pv.pv_inverter_model_id"@,
                    "unknown inverter model `"@ + pid@ + "`"@,
                )]
            } else {
                Seq::empty()
            },
            None => if !landing_pad(s, bats, invs) {
                seq![vv(
                    home_system_path(),
                    "pv.pv_inverter_model_id"@,
                    "null PV inverter requires a present hybrid landing pad (hybrid inverter MPPTs or an integrated-inverter DC-coupled battery)"@,
                )]
            } else {
                Seq::empty()
            },
        },
    }
}

/// Model id of the first present grid-forming controller line among the
/// first `n`.
pub open spec fn first_grid_former(s: &HomeSystem, ctrls: Seq<ControllerModel>, n: nat) -> Option<Seq<char>>
    decreases n,
{
    if n == 0 {
        None
    } else {
        match first_grid_former(s, ctrls, (n - 1) as nat) {
            Some(id) => Some(id),
            None => {
                let j = n - 1;
                if present_controller(s, ctrls, j) && controller_model_of(s, ctrls, j).provides_grid_forming {
                    Some(controller_model_of(s, ctrls, j).model_id@)
                } else {
                    None
                }
            },
        }
    }
}

/// Some present battery line is DC-coupled hybrid.
pub open spec fn dc_coupled_storage(s: &HomeSystem, bats: Seq<BatteryModel>) -> bool {
    exists|i: int|
        0 <= i < s.batteries@.len() && (#[trigger] s.batteries@[i]).quantity > 0 && match battery_model_of(
            s,
            bats,
            i,
        ) {
            Some(m) => m.coupling == Coupling::DCCoupledHybrid,
            None => false,
        }
}

impl HomeSystem {
    /// Whether some present controller supports a generator input.
    fn has_generator_support(&self, registry: &Registry) -> (r: bool)
        ensures
            r == generator_supported(self, registry.controller_seq()),
    {
        let ghost ctrls = registry.controller_seq();
        let mut j: usize = 0;
        while j < self.controllers.len()
            invariant
                j <= self.controllers@.len(),
                ctrls == registry.controller_seq(),
                forall|k: int|
                    0 <= k < j ==> !(#[trigger] present_controller(self, ctrls, k)
                        && controller_model_of(self, ctrls, k).supports_generator_input),
            decreases self.controllers.len() - j,
        {
            let line = &self.controllers[j];
            if line.quantity > 0 {
                if let Some(c) = registry.controller(line.model_id.as_str()) {
                    if c.supports_generator_input {
                        assert(present_controller(self, ctrls, j as int));
                        return true;
                    }
                }
            }
            j = j + 1;
        }
        false
    }

    /// Generator interlock (see [`generator_violations`]).
    pub fn check_generator_support(&self, registry: &Registry, out: &mut Vec<Violation>)
        ensures
            views(final(out)@) == views(old(out)@) + generator_violations(self, registry.controller_seq()),
    {
        let ghost start = views(out@);
        if self.generator.is_some() && !self.has_generator_support(registry) {
            push_violation(
                out,
                violation(
                    "generator",
                    String::from_str("a generator requires a present controller with supports_generator_input = true"),
                ),
            );
        }
        assert(views(out@) =~= start + generator_violations(self, registry.controller_seq()));
    }

    /// Whether a present hybrid landing pad exists.
    fn has_landing_pad(&self, registry: &Registry) -> (r: bool)
        ensures
            r == landing_pad(self, registry.battery_seq(), registry.inverter_seq()),
    {
        let ghost invs = registry.inverter_seq();
        let ghost bats = registry.battery_seq();
        let mut j: usize = 0;
        while j < self.inverters.len()
            invariant
                j <= self.inverters@.len(),
                invs == registry.inverter_seq(),
                forall|k: int|
                    0 <= k < j ==> !(#[trigger] present_inverter(self, invs, k)
                        && inverter_model_of(self, invs, k).topology == InverterTopology::HybridDCCoupled),
            decreases self.inverters.len() - j,
        {
            let line = &self.inverters[j];
            if line.quantity > 0 {
                if let Some(inv) = registry.inverter(line.model_id.as_str()) {
                    if inv.topology == InverterTopology::HybridDCCoupled {
                        assert(present_inverter(self, invs, j as int));
                        return true;
                    }
                }
            }
            j = j + 1;
        }
        let mut i: usize = 0;
        while i < self.batteries.len()
            invariant
                i <= self.batteries@.len(),
                bats == registry.battery_seq(),
                invs == registry.inverter_seq(),
                !(exists|k: int|
                    0 <= k < self.inverters@.len() && #[trigger] present_inverter(self, invs, k)
                        && inverter_model_of(self, invs, k).topology == InverterTopology::HybridDCCoupled),
                forall|k: int|
                    0 <= k < i ==> !((#[trigger] self.batteries@[k]).quantity > 0 && match battery_model_of(
                        self,
                        bats,
                        k,
                    ) {
                        Some(m) => m.coupling == Coupling::DCCoupledHybrid && m.integrated_inverter == Some(true),
                        None => false,
                    }),
            decreases self.batteries.len() - i,
        {
            let line = &self.batteries[i];
            if line.quantity > 0 {
                if let Some(m) = registry.battery(line.model_id.as_str()) {
                    if m.coupling == Coupling::DCCoupledHybrid && m.integrated_inverter == Some(true) {
                        assert(self.batteries@[i as int].quantity > 0);
                        return true;
                    }
                }
            }
            i = i + 1;
        }
        false
    }

    /// PV wiring rule (see [`pv_violations`]).
    pub fn check_pv_structure(&self, registry: &Registry, out: &mut Vec<Violation>)
        ensures
            views(final(out)@) == views(old(out)@) + pv_violations(
                self,
                registry.battery_seq(),
                registry.inverter_seq(),
            ),
    {
        let ghost start = views(out@);
        let pv = match &self.pv {
            Some(p) => p,
            None => {
                assert(views(out@) =~= start + pv_violations(self, registry.battery_seq(), registry.inverter_seq()));
                return;
            },
        };
        match pv.orientation {
            crate::system::Orientation::Azimuth(a) => {
                if a > 359 {
                    push_violation(
                        out,
                        violation("pv.orientation", String::from_str("azimuth must lie in 0..=359 degrees")),
                    );
                }
            },
            crate::system::Orientation::Named(_) => {},
        }
        let ghost mid = views(out@);
        match &pv.pv_inverter_model_id {
            Some(pid) => {
                if registry.inverter(pid.as_str()).is_none() {
                    let msg = concat3("unknown inverter model `", pid.as_str(), "`");
                    push_violation(out, violation("pv.pv_inverter_model_id", msg));
                }
            },
            None => {
                if !self.has_landing_pad(registry) {
                    push_violation(
                        out,
                        violation(
                            "pv.pv_inverter_model_id",
                            String::from_str(
                                "null PV inverter requires a present hybrid landing pad (hybrid inverter MPPTs or an integrated-inverter DC-coupled battery)",
                            ),
                        ),
                    );
                }
            },
        }
        assert(views(out@) =~= start + pv_violations(self, registry.battery_seq(), registry.inverter_seq()));
    }

    /// `model_id` of the grid-forming controller a backup-capable system
    /// resolves to: the first present controller line whose model provides
    /// grid forming; `None` when not backup-capable.
    pub fn resolved_controller_model_id(&self, registry: &Registry) -> (r: Option<String>)
        ensures
            match r {
                Some(id) => self.backup_capable && first_grid_former(
                    self,
                    registry.controller_seq(),
                    self.controllers@.len(),
                ) == Some(id@),
                None => !self.backup_capable || first_grid_former(
                    self,
                    registry.controller_seq(),
                    self.controllers@.len(),
                ) is None,
            },
    {
        if !self.backup_capable {
            return None;
        }
        let ghost ctrls = registry.controller_seq();
        let mut j: usize = 0;
        while j < self.controllers.len()
            invariant
                j <= self.controllers@.len(),
                ctrls == registry.controller_seq(),
                self.backup_capable,
                first_grid_former(self, ctrls, j as nat) is None,
            decreases self.controllers.len() - j,
        {
            let line = &self.controllers[j];
            if line.quantity > 0 {
                if let Some(c) = registry.controller(line.model_id.as_str()) {
                    if c.provides_grid_forming {
                        let id = to_string_of(c.model_id.as_str());
                        proof {
                            assert(present_controller(self, ctrls, j as int));
                            assert(controller_model_of(self, ctrls, j as int) == *c);
                            assert(first_grid_former(self, ctrls, (j + 1) as nat) == Some(c.model_id@));
                            lemma_first_grid_former_stable(self, ctrls, (j + 1) as nat, self.controllers@.len());
                        }
                        return Some(id);
                    }
                }
            }
            j = j + 1;
        }
        None
    }

    /// Whether any present battery is DC-coupled hybrid.
    pub fn has_dc_coupled_storage(&self, registry: &Registry) -> (r: bool)
        ensures
            r == dc_coupled_storage(self, registry.battery_seq()),
    {
        let ghost bats = registry.battery_seq();
        let mut i: usize = 0;
        while i < self.batteries.len()
            invariant
                i <= self.batteries@.len(),
                bats == registry.battery_seq(),
                forall|k: int|
                    0 <= k < i ==> !((#[trigger] self.batteries@[k]).quantity > 0 && match battery_model_of(
                        self,
                        bats,
                        k,
                    ) {
                        Some(m) => m.coupling == Coupling::DCCoupledHybrid,
                        None => false,
                    }),
            decreases self.batteries.len() - i,
        {
            let line = &self.batteries[i];
            if line.quantity > 0 {
                if let Some(m) = registry.battery(line.model_id.as_str()) {
                    if m.coupling == Coupling::DCCoupledHybrid {
                        assert(self.batteries@[i as int].quantity > 0);
                        return true;
                    }
                }
            }
            i = i + 1;
        }
        false
    }
}

/// Once found, the first grid-forming controller stays the same as more
/// lines are considered.
pub proof fn lemma_first_grid_former_stable(s: &HomeSystem, ctrls: Seq<ControllerModel>, a: nat, b: nat)
    requires
        a <= b,
        first_grid_former(s, ctrls, a) is Some,
    ensures
        first_grid_former(s, ctrls, b) == first_grid_former(s, ctrls, a),
    decreases b - a,
{
    if a < b {
        lemma_first_grid_former_stable(s, ctrls, a, (b - 1) as nat);
    }
}

} // verus!

verus! {

/// Every structural composition violation of a HomeSystem, in the order
/// the rules run: schema version; battery, inverter and controller line
/// items; backup; DC coupling; inverter capacity; expansion packs;
/// generator interlock; PV wiring.
pub open spec fn composition_violations(
    s: &HomeSystem,
    bats: Seq<BatteryModel>,
    invs: Seq<InverterModel>,
    ctrls: Seq<ControllerModel>,
) -> Seq<ViolationView> {
    system_schema_violations(s) + battery_lines_violations(s, bats, s.batteries@.len())
        + inverter_lines_violations(s, invs, s.inverters@.len()) + controller_lines_violations(
        s,
        ctrls,
        s.controllers@.len(),
    ) + backup_violations(s, bats, ctrls) + dc_coupling_violations(s, bats, invs) + capacity_violations(
        s,
        bats,
        invs,
        s.batteries@.len(),
    ) + packs_violations(s, bats, s.batteries@.len()) + generator_violations(s, ctrls) + pv_violations(
        s,
        bats,
        invs,
    )
}

impl HomeSystem {
    /// Enumerate every structural composition violation against the
    /// registry (all of them, never fail-fast; see
    /// [`composition_violations`]).
    pub fn composition_violations(&self, registry: &Registry) -> (r: Vec<Violation>)
        requires
            capacity_sums_fit(self, registry.battery_seq(), registry.inverter_seq()),
        ensures
            views(r@) == composition_violations(
                self,
                registry.battery_seq(),
                registry.inverter_seq(),
                registry.controller_seq(),
            ),
    {
        let mut out: Vec<Violation> = Vec::new();
        self.check_schema(&mut out);
        self.resolve_batteries(registry, &mut out);
        self.resolve_inverters(registry, &mut out);
        self.resolve_controllers(registry, &mut out);
        self.check_backup(registry, &mut out);
        self.check_dc_coupling(registry, &mut out);
        self.check_inverter_capacity(registry, &mut out);
        self.check_expansion_packs(registry, &mut out);
        self.check_generator_support(registry, &mut out);
        self.check_pv_structure(registry, &mut out);
        assert(views(out@) =~= composition_violations(
            self,
            registry.battery_seq(),
            registry.inverter_seq(),
            registry.controller_seq(),
        ));
        out
    }
}


/// The violations that the numeric checks on floating-point parameters
/// found, each list reported at its place in the rule order.
pub struct NumericFindings {
    /// Per battery line, right after its quantity check: its SOC and
    /// reserve fractions and, for a model that resolves, the SOC window.
    pub battery_lines: Vec<Vec<Violation>>,
    /// Microinverter power ceilings, after the expansion-pack rules.
    pub microinverters: Vec<Violation>,
    /// The generator rating, before the generator interlock.
    pub generator: Vec<Violation>,
    /// The PV array parameters, before the PV wiring rules.
    pub pv: Vec<Violation>,
    /// Panel and EV-charger parameters, last.
    pub free_parameters: Vec<Violation>,
}

/// Battery line-item violations of the first `n` lines, each line's
/// numeric findings between its quantity and its model checks.
pub open spec fn battery_lines_with(
    s: &HomeSystem,
    bats: Seq<BatteryModel>,
    nums: Seq<Vec<Violation>>,
    n: nat,
) -> Seq<ViolationView>
    decreases n,
{
    if n == 0 {
        Seq::empty()
    } else {
        let i = n - 1;
        battery_lines_with(s, bats, nums, (n - 1) as nat) + quantity_violation(
            "batteries["@,
            i,
            s.batteries@[i].quantity,
        ) + views(nums[i]@) + unknown_violation(
            LineKind::Battery,
            i,
            s.batteries@[i].model_id@,
            find(bats, s.batteries@[i].model_id@) is Some,
        )
    }
}

/// Every violation of a system document, structural and numeric, in rule
/// order.
pub open spec fn system_violations_spec(
    s: &HomeSystem,
    bats: Seq<BatteryModel>,
    invs: Seq<InverterModel>,
    ctrls: Seq<ControllerModel>,
    f: NumericFindings,
) -> Seq<ViolationView> {
    system_schema_violations(s) + battery_lines_with(s, bats, f.battery_lines@, s.batteries@.len())
        + inverter_lines_violations(s, invs, s.inverters@.len()) + controller_lines_violations(
        s,
        ctrls,
        s.controllers@.len(),
    ) + backup_violations(s, bats, ctrls) + dc_coupling_violations(s, bats, invs) + capacity_violations(
        s,
        bats,
        invs,
        s.batteries@.len(),
    ) + packs_violations(s, bats, s.batteries@.len()) + views(f.microinverters@) + views(f.generator@)
        + generator_violations(s, ctrls) + views(f.pv@) + pv_violations(s, bats, invs) + views(
        f.free_parameters@,
    )
}

impl HomeSystem {
    /// Every violation of the document, in rule order: the composition
    /// rules, with the numeric findings (`findings`, one list per battery
    /// line) reported where their checks run (see
    /// [`system_violations_spec`]).
    pub fn system_violations(&self, registry: &Registry, findings: &NumericFindings) -> (r: Vec<Violation>)
        requires
            capacity_sums_fit(self, registry.battery_seq(), registry.inverter_seq()),
            findings.battery_lines@.len() == self.batteries@.len(),
        ensures
            views(r@) == system_violations_spec(
                self,
                registry.battery_seq(),
                registry.inverter_seq(),
                registry.controller_seq(),
                *findings,
            ),
    {
        let mut out: Vec<Violation> = Vec::new();
        self.check_schema(&mut out);
        let ghost start = views(out@);
        let mut i: usize = 0;
        while i < self.batteries.len()
            invariant
                i <= self.batteries@.len(),
                findings.battery_lines@.len() == self.batteries@.len(),
                views(out@) == start + battery_lines_with(
                    self,
                    registry.battery_seq(),
                    findings.battery_lines@,
                    i as nat,
                ),
            decreases self.batteries.len() - i,
        {
            let line = &self.batteries[i];
            let ghost before = views(out@);
            check_line_quantity(LineKind::Battery, i, line.quantity, &mut out);
            append_violations(&mut out, &findings.battery_lines[i]);
            let found = registry.battery(line.model_id.as_str()).is_some();
            check_line_resolves(LineKind::Battery, i, line.model_id.as_str(), found, &mut out);
            i = i + 1;
            proof {
                let k = (i - 1) as int;
                let q = quantity_violation("batteries["@, k, self.batteries@[k].quantity);
                let u = unknown_violation(
                    LineKind::Battery,
                    k,
                    self.batteries@[k].model_id@,
                    find(registry.battery_seq(), self.batteries@[k].model_id@) is Some,
                );
                assert(views(out@) =~= before + q + views(findings.battery_lines@[k]@) + u);
            }
        }
        self.resolve_inverters(registry, &mut out);
        self.resolve_controllers(registry, &mut out);
        self.check_backup(registry, &mut out);
        self.check_dc_coupling(registry, &mut out);
        self.check_inverter_capacity(registry, &mut out);
        self.check_expansion_packs(registry, &mut out);
        append_violations(&mut out, &findings.microinverters);
        append_violations(&mut out, &findings.generator);
        self.check_generator_support(registry, &mut out);
        append_violations(&mut out, &findings.pv);
        self.check_pv_structure(registry, &mut out);
        append_violations(&mut out, &findings.free_parameters);
        assert(views(out@) =~= system_violations_spec(
            self,
            registry.battery_seq(),
            registry.inverter_seq(),
            registry.controller_seq(),
            *findings,
        ));
        out
    }
}

} // verus!

verus! {

/// A backup-capable system that passes every composition rule forms its
/// island: either exactly one present controller provides grid forming
/// (and it is the controller the system resolves to), or none does and
/// its battery fleet forms the island itself.
pub proof fn law_valid_backup_forms_island(
    s: &HomeSystem,
    bats: Seq<BatteryModel>,
    invs: Seq<InverterModel>,
    ctrls: Seq<ControllerModel>,
)
    requires
        s.backup_capable,
        composition_violations(s, bats, invs, ctrls).len() == 0,
    ensures
        ({
            let gf = crate::system::grid_forming_count(s, ctrls, s.controllers@.len());
            (gf == 1 && first_grid_former(s, ctrls, s.controllers@.len()) is Some) || (gf == 0
                && crate::system::self_forming_fleet(s, bats))
        }),
{
    let all = composition_violations(s, bats, invs, ctrls);
    let b = backup_violations(s, bats, ctrls);
    let pre = system_schema_violations(s) + battery_lines_violations(s, bats, s.batteries@.len())
        + inverter_lines_violations(s, invs, s.inverters@.len()) + controller_lines_violations(
        s,
        ctrls,
        s.controllers@.len(),
    );
    assert(all.len() >= b.len() + pre.len());
    let gf = crate::system::grid_forming_count(s, ctrls, s.controllers@.len());
    if gf != 1 && (gf > 1 || !crate::system::self_forming_fleet(s, bats)) {
        assert(b.len() >= 1);
    }
    if gf == 1 {
        lemma_count_one_has_former(s, ctrls, s.controllers@.len());
    }
}

/// A positive grid-forming count means some first grid former exists.
proof fn lemma_count_one_has_former(s: &HomeSystem, ctrls: Seq<ControllerModel>, n: nat)
    requires
        crate::system::grid_forming_count(s, ctrls, n) >= 1,
    ensures
        first_grid_former(s, ctrls, n) is Some,
    decreases n,
{
    if n > 0 {
        if crate::system::grid_forming_count(s, ctrls, (n - 1) as nat) >= 1 {
            lemma_count_one_has_former(s, ctrls, (n - 1) as nat);
        }
    }
}

} // verus!
