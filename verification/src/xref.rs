//! Cross-reference validation across a whole loaded registry: controller
//! references, expansion-pack references, the DC-coupling claim rule,
//! inverter compatibility lists and PV-preset inverter ids must all
//! resolve. Every violation is enumerated, in catalog order.

use vstd::prelude::*;
use vstd::string::*;

use crate::catalog::{find, BatteryModel, ControllerModel, InverterModel, PvPreset, Registry};
use crate::kinds::{entry_path, entry_path_spec, Coupling, EntryKind, InverterTopology};
use crate::text::{concat3, decimal, decimal_string, str_eq};
use crate::violation::{push_violation, views, vv, Violation, ViolationView};

verus! {

/// Some element of `ids` has the characters of `id`.
pub open spec fn ids_contain(ids: Seq<String>, id: Seq<char>) -> bool {
    exists|j: int| 0 <= j < ids.len() && (#[trigger] ids[j])@ == id
}

/// Whether a string list contains `id`.
pub fn contains_id(ids: &Vec<String>, id: &str) -> (r: bool)
    ensures
        r == ids_contain(ids@, id@),
{
    let mut j: usize = 0;
    while j < ids.len()
        invariant
            j <= ids@.len(),
            forall|i: int| 0 <= i < j ==> (#[trigger] ids@[i])@ != id@,
        decreases ids.len() - j,
    {
        if str_eq(ids[j].as_str(), id) {
            return true;
        }
        j = j + 1;
    }
    false
}

/// Some hybrid DC-coupled inverter lists `id` as compatible.
pub open spec fn claimed(invs: Seq<InverterModel>, id: Seq<char>) -> bool {
    exists|i: int|
        0 <= i < invs.len() && (#[trigger] invs[i]).topology == InverterTopology::HybridDCCoupled
            && ids_contain(invs[i].compatible_battery_ids@, id)
}

/// Message for an unresolved controller reference.
pub open spec fn msg_unknown_controller(id: Seq<char>) -> Seq<char> {
    "unknown controller model `"@ + id + "`"@
}

/// Message for an unresolved battery reference.
pub open spec fn msg_unknown_battery(id: Seq<char>) -> Seq<char> {
    "unknown battery model `"@ + id + "`"@
}

/// Message for an unresolved inverter reference.
pub open spec fn msg_unknown_inverter(id: Seq<char>) -> Seq<char> {
    "unknown inverter model `"@ + id + "`"@
}

/// Message for a battery that no hybrid inverter claims.
pub open spec fn msg_unclaimed() -> Seq<char> {
    "DC-coupled battery without integrated inverter is not listed in any hybrid inverter's compatible_battery_ids"@
}

/// Message for an expansion pack that references its own entry.
pub open spec fn msg_self_pack() -> Seq<char> {
    "expansion pack must not reference its own model_id"@
}

/// Violation for an unresolved required controller.
pub open spec fn controller_part(ctrls: Seq<ControllerModel>, b: BatteryModel) -> Seq<ViolationView> {
    match b.requires_controller_id {
        Some(c) => if find(ctrls, c@) is None {
            seq![vv(
                entry_path_spec(EntryKind::Battery, b.model_id@),
                "requires_controller_id"@,
                msg_unknown_controller(c@),
            )]
        } else {
            Seq::empty()
        },
        None => Seq::empty(),
    }
}

/// Violation for a self-referencing or unresolved expansion pack.
pub open spec fn pack_part(bats: Seq<BatteryModel>, b: BatteryModel) -> Seq<ViolationView> {
    let path = entry_path_spec(EntryKind::Battery, b.model_id@);
    match b.expansion {
        Some(e) => match e.expansion_pack_model_id {
            Some(pid) => if pid@ == b.model_id@ {
                seq![vv(path, "expansion.expansion_pack_model_id"@, msg_self_pack())]
            } else if find(bats, pid@) is None {
                seq![vv(path, "expansion.expansion_pack_model_id"@, msg_unknown_battery(pid@))]
            } else {
                Seq::empty()
            },
            None => Seq::empty(),
        },
        None => Seq::empty(),
    }
}

/// Violation for a DC-coupled battery without integrated inverter that no
/// hybrid inverter claims.
pub open spec fn claim_part(invs: Seq<InverterModel>, b: BatteryModel) -> Seq<ViolationView> {
    if b.coupling == Coupling::DCCoupledHybrid && b.integrated_inverter != Some(true) && !claimed(
        invs,
        b.model_id@,
    ) {
        seq![vv(entry_path_spec(EntryKind::Battery, b.model_id@), "coupling"@, msg_unclaimed())]
    } else {
        Seq::empty()
    }
}

/// Cross-reference violations of one battery entry.
pub open spec fn battery_xref(
    bats: Seq<BatteryModel>,
    invs: Seq<InverterModel>,
    ctrls: Seq<ControllerModel>,
    b: BatteryModel,
) -> Seq<ViolationView> {
    controller_part(ctrls, b) + pack_part(bats, b) + claim_part(invs, b)
}

/// Field path `compatible_battery_ids[<i>]`.
pub open spec fn compat_field(i: nat) -> Seq<char> {
    "compatible_battery_ids["@ + decimal(i) + "]"@
}

/// Violations for the first `n` compatible-battery ids of an inverter.
pub open spec fn compat_xref(
    bats: Seq<BatteryModel>,
    path: Seq<char>,
    ids: Seq<String>,
    n: nat,
) -> Seq<ViolationView>
    decreases n,
{
    if n == 0 {
        Seq::empty()
    } else {
        let i = (n - 1) as nat;
        compat_xref(bats, path, ids, i) + if find(bats, ids[i as int]@) is None {
            seq![vv(path, compat_field(i), msg_unknown_battery(ids[i as int]@))]
        } else {
            Seq::empty()
        }
    }
}

/// Cross-reference violations of one inverter entry.
pub open spec fn inverter_xref(bats: Seq<BatteryModel>, inv: InverterModel) -> Seq<ViolationView> {
    compat_xref(
        bats,
        entry_path_spec(EntryKind::Inverter, inv.model_id@),
        inv.compatible_battery_ids@,
        inv.compatible_battery_ids@.len(),
    )
}

/// Cross-reference violations of one PV preset.
pub open spec fn preset_xref(invs: Seq<InverterModel>, p: PvPreset) -> Seq<ViolationView> {
    match p.pv_inverter_model_id {
        Some(id) => if find(invs, id@) is None {
            seq![vv(
                entry_path_spec(EntryKind::PvPreset, p.preset_id@),
                "pv_inverter_model_id"@,
                msg_unknown_inverter(id@),
            )]
        } else {
            Seq::empty()
        },
        None => Seq::empty(),
    }
}

/// Battery violations over the first `n` batteries, in order.
pub open spec fn batteries_xref(
    bats: Seq<BatteryModel>,
    invs: Seq<InverterModel>,
    ctrls: Seq<ControllerModel>,
    n: nat,
) -> Seq<ViolationView>
    decreases n,
{
    if n == 0 {
        Seq::empty()
    } else {
        batteries_xref(bats, invs, ctrls, (n - 1) as nat) + battery_xref(bats, invs, ctrls, bats[n - 1])
    }
}

/// Inverter violations over the first `n` inverters, in order.
pub open spec fn inverters_xref(bats: Seq<BatteryModel>, invs: Seq<InverterModel>, n: nat) -> Seq<ViolationView>
    decreases n,
{
    if n == 0 {
        Seq::empty()
    } else {
        inverters_xref(bats, invs, (n - 1) as nat) + inverter_xref(bats, invs[n - 1])
    }
}

/// Preset violations over the first `n` presets, in order.
pub open spec fn presets_xref(invs: Seq<InverterModel>, ps: Seq<PvPreset>, n: nat) -> Seq<ViolationView>
    decreases n,
{
    if n == 0 {
        Seq::empty()
    } else {
        presets_xref(invs, ps, (n - 1) as nat) + preset_xref(invs, ps[n - 1])
    }
}

/// Every cross-reference violation of a registry, in catalog order:
/// batteries, then inverters, then PV presets.
pub open spec fn registry_xref(r: &Registry) -> Seq<ViolationView> {
    batteries_xref(r.battery_seq(), r.inverter_seq(), r.controller_seq(), r.battery_seq().len())
        + inverters_xref(r.battery_seq(), r.inverter_seq(), r.inverter_seq().len())
        + presets_xref(r.inverter_seq(), r.pv_preset_seq(), r.pv_preset_seq().len())
}

proof fn lemma_batteries_xref_keeps(
    bats: Seq<BatteryModel>,
    invs: Seq<InverterModel>,
    ctrls: Seq<ControllerModel>,
    n: nat,
    i: int,
    v: ViolationView,
)
    requires
        0 <= i < n <= bats.len(),
        battery_xref(bats, invs, ctrls, bats[i]).contains(v),
    ensures
        batteries_xref(bats, invs, ctrls, n).contains(v),
    decreases n,
{
    let p = batteries_xref(bats, invs, ctrls, (n - 1) as nat);
    let q = batteries_xref(bats, invs, ctrls, n);
    if i == n - 1 {
        let x = battery_xref(bats, invs, ctrls, bats[i]);
        let k = choose|k: int| 0 <= k < x.len() && x[k] == v;
        assert(q[p.len() + k] == v);
    } else {
        lemma_batteries_xref_keeps(bats, invs, ctrls, (n - 1) as nat, i, v);
        let k = choose|k: int| 0 <= k < p.len() && p[k] == v;
        assert(q[k] == v);
    }
}

proof fn lemma_batteries_xref_coupling(bats: Seq<BatteryModel>, invs: Seq<InverterModel>, ctrls: Seq<ControllerModel>, n: nat)
    requires
        n <= bats.len(),
    ensures
        forall|v: ViolationView|
            #[trigger] batteries_xref(bats, invs, ctrls, n).contains(v) && v.field == "coupling"@ ==> exists|i: int|
                0 <= i < n && (#[trigger] bats[i]).coupling == Coupling::DCCoupledHybrid && bats[i].integrated_inverter
                    != Some(true) && !claimed(invs, bats[i].model_id@) && v.path == entry_path_spec(
                    EntryKind::Battery,
                    bats[i].model_id@,
                ),
    decreases n,
{
    reveal_strlit("coupling");
    reveal_strlit("requires_controller_id");
    reveal_strlit("expansion.expansion_pack_model_id");
    if n > 0 {
        lemma_batteries_xref_coupling(bats, invs, ctrls, (n - 1) as nat);
        let p = batteries_xref(bats, invs, ctrls, (n - 1) as nat);
        let b = bats[n - 1];
        let x = battery_xref(bats, invs, ctrls, b);
        let q = batteries_xref(bats, invs, ctrls, n);
        assert forall|v: ViolationView| #[trigger] q.contains(v) && v.field == "coupling"@ implies exists|i: int|
            0 <= i < n && (#[trigger] bats[i]).coupling == Coupling::DCCoupledHybrid && bats[i].integrated_inverter
                != Some(true) && !claimed(invs, bats[i].model_id@) && v.path == entry_path_spec(
                EntryKind::Battery,
                bats[i].model_id@,
            ) by {
            let k = choose|k: int| 0 <= k < q.len() && q[k] == v;
            if k < p.len() {
                assert(p[k] == v);
                assert(p.contains(v));
            } else {
                let c = controller_part(ctrls, b);
                let pk = pack_part(bats, b);
                let cl = claim_part(invs, b);
                let t = k - p.len();
                assert(x[t] == v);
                if t < c.len() {
                    assert(c[t] == v);
                    assert(v.field.len() == 22);
                } else if t < c.len() + pk.len() {
                    assert(pk[t - c.len()] == v);
                    assert(v.field.len() == 33);
                } else {
                    assert(cl[t - c.len() - pk.len()] == v);
                    assert(bats[n - 1] == b);
                }
            }
        }
    }
}

proof fn lemma_compat_fields(bats: Seq<BatteryModel>, path: Seq<char>, ids: Seq<String>, n: nat)
    ensures
        forall|v: ViolationView| #[trigger] compat_xref(bats, path, ids, n).contains(v) ==> v.field.len() >= 24,
    decreases n,
{
    reveal_strlit("compatible_battery_ids[");
    reveal_strlit("]");
    if n > 0 {
        lemma_compat_fields(bats, path, ids, (n - 1) as nat);
        let p = compat_xref(bats, path, ids, (n - 1) as nat);
        let q = compat_xref(bats, path, ids, n);
        assert forall|v: ViolationView| #[trigger] q.contains(v) implies v.field.len() >= 24 by {
            let k = choose|k: int| 0 <= k < q.len() && q[k] == v;
            if k < p.len() {
                assert(p[k] == v);
                assert(p.contains(v));
            } else {
                assert(v.field == compat_field((n - 1) as nat));
            }
        }
    }
}

proof fn lemma_inverters_fields(bats: Seq<BatteryModel>, invs: Seq<InverterModel>, n: nat)
    requires
        n <= invs.len(),
    ensures
        forall|v: ViolationView| #[trigger] inverters_xref(bats, invs, n).contains(v) ==> v.field.len() >= 24,
    decreases n,
{
    if n > 0 {
        lemma_inverters_fields(bats, invs, (n - 1) as nat);
        let p = inverters_xref(bats, invs, (n - 1) as nat);
        let inv = invs[n - 1];
        let x = inverter_xref(bats, inv);
        lemma_compat_fields(
            bats,
            entry_path_spec(EntryKind::Inverter, inv.model_id@),
            inv.compatible_battery_ids@,
            inv.compatible_battery_ids@.len(),
        );
        let q = inverters_xref(bats, invs, n);
        assert forall|v: ViolationView| #[trigger] q.contains(v) implies v.field.len() >= 24 by {
            let k = choose|k: int| 0 <= k < q.len() && q[k] == v;
            if k < p.len() {
                assert(p[k] == v);
                assert(p.contains(v));
            } else {
                assert(x[k - p.len()] == v);
                assert(x.contains(v));
            }
        }
    }
}

proof fn lemma_presets_fields(invs: Seq<InverterModel>, ps: Seq<PvPreset>, n: nat)
    requires
        n <= ps.len(),
    ensures
        forall|v: ViolationView| #[trigger] presets_xref(invs, ps, n).contains(v) ==> v.field == "pv_inverter_model_id"@,
    decreases n,
{
    if n > 0 {
        lemma_presets_fields(invs, ps, (n - 1) as nat);
        let p = presets_xref(invs, ps, (n - 1) as nat);
        let q = presets_xref(invs, ps, n);
        assert forall|v: ViolationView| #[trigger] q.contains(v) implies v.field == "pv_inverter_model_id"@ by {
            let k = choose|k: int| 0 <= k < q.len() && q[k] == v;
            if k < p.len() {
                assert(p[k] == v);
                assert(p.contains(v));
            }
        }
    }
}

/// A DC-coupled battery without an integrated inverter that no hybrid
/// DC-coupled inverter of the registry names in its
/// `compatible_battery_ids` is reported on its `coupling` field, whatever
/// other hybrid inverters the registry holds.
pub proof fn law_unclaimed_dc_battery_is_reported(r: &Registry, i: int)
    requires
        0 <= i < r.battery_seq().len(),
        r.battery_seq()[i].coupling == Coupling::DCCoupledHybrid,
        r.battery_seq()[i].integrated_inverter != Some(true),
        forall|k: int, m: int|
            0 <= k < r.inverter_seq().len() && r.inverter_seq()[k].topology == InverterTopology::HybridDCCoupled && 0 <= m
                < r.inverter_seq()[k].compatible_battery_ids@.len() ==> (#[trigger] r.inverter_seq()[k].compatible_battery_ids@[m])@
                != r.battery_seq()[i].model_id@,
    ensures
        registry_xref(r).contains(
            vv(entry_path_spec(EntryKind::Battery, r.battery_seq()[i].model_id@), "coupling"@, msg_unclaimed()),
        ),
{
    let bats = r.battery_seq();
    let invs = r.inverter_seq();
    let ctrls = r.controller_seq();
    let b = bats[i];
    let v = vv(entry_path_spec(EntryKind::Battery, b.model_id@), "coupling"@, msg_unclaimed());
    if claimed(invs, b.model_id@) {
        let k = choose|k: int|
            0 <= k < invs.len() && (#[trigger] invs[k]).topology == InverterTopology::HybridDCCoupled && ids_contain(
                invs[k].compatible_battery_ids@,
                b.model_id@,
            );
        let m = choose|m: int|
            0 <= m < invs[k].compatible_battery_ids@.len() && (#[trigger] invs[k].compatible_battery_ids@[m])@
                == b.model_id@;
        assert(r.inverter_seq()[k].compatible_battery_ids@[m]@ != b.model_id@);
    }
    let x = battery_xref(bats, invs, ctrls, b);
    let c = controller_part(ctrls, b);
    let pk = pack_part(bats, b);
    assert(x[(c.len() + pk.len()) as int] == v);
    lemma_batteries_xref_keeps(bats, invs, ctrls, bats.len(), i, v);
    let a = batteries_xref(bats, invs, ctrls, bats.len());
    let rest = inverters_xref(bats, invs, invs.len()) + presets_xref(invs, r.pv_preset_seq(), r.pv_preset_seq().len());
    let k = choose|k: int| 0 <= k < a.len() && a[k] == v;
    assert(registry_xref(r) =~= a + rest);
    assert((a + rest)[k] == v);
}

/// Every `coupling` violation of the registry names a DC-coupled battery
/// without an integrated inverter that no hybrid DC-coupled inverter lists
/// in its `compatible_battery_ids`.
pub proof fn law_coupling_violations_name_unclaimed_batteries(r: &Registry)
    ensures
        forall|v: ViolationView|
            #[trigger] registry_xref(r).contains(v) && v.field == "coupling"@ ==> exists|i: int|
                0 <= i < r.battery_seq().len() && (#[trigger] r.battery_seq()[i]).coupling == Coupling::DCCoupledHybrid
                    && r.battery_seq()[i].integrated_inverter != Some(true) && v.path == entry_path_spec(
                    EntryKind::Battery,
                    r.battery_seq()[i].model_id@,
                ) && forall|k: int, m: int|
                    0 <= k < r.inverter_seq().len() && r.inverter_seq()[k].topology
                        == InverterTopology::HybridDCCoupled && 0 <= m
                        < r.inverter_seq()[k].compatible_battery_ids@.len() ==> (
                    #[trigger] r.inverter_seq()[k].compatible_battery_ids@[m])@ != r.battery_seq()[i].model_id@,
{
    let bats = r.battery_seq();
    let invs = r.inverter_seq();
    let ctrls = r.controller_seq();
    let ps = r.pv_preset_seq();
    let a = batteries_xref(bats, invs, ctrls, bats.len());
    let b = inverters_xref(bats, invs, invs.len());
    let c = presets_xref(invs, ps, ps.len());
    lemma_batteries_xref_coupling(bats, invs, ctrls, bats.len());
    lemma_inverters_fields(bats, invs, invs.len());
    lemma_presets_fields(invs, ps, ps.len());
    reveal_strlit("coupling");
    reveal_strlit("pv_inverter_model_id");
    assert forall|v: ViolationView| #[trigger] registry_xref(r).contains(v) && v.field == "coupling"@ implies exists|i: int|
        0 <= i < bats.len() && (#[trigger] bats[i]).coupling == Coupling::DCCoupledHybrid
            && bats[i].integrated_inverter != Some(true) && v.path == entry_path_spec(EntryKind::Battery, bats[i].model_id@)
            && forall|k: int, m: int|
            0 <= k < invs.len() && invs[k].topology == InverterTopology::HybridDCCoupled && 0 <= m
                < invs[k].compatible_battery_ids@.len() ==> (#[trigger] invs[k].compatible_battery_ids@[m])@
                != bats[i].model_id@ by {
        let t = registry_xref(r);
        let k = choose|k: int| 0 <= k < t.len() && t[k] == v;
        if k < a.len() {
            assert(a[k] == v);
            assert(a.contains(v));
            let i = choose|i: int|
                0 <= i < bats.len() && (#[trigger] bats[i]).coupling == Coupling::DCCoupledHybrid
                    && bats[i].integrated_inverter != Some(true) && !claimed(invs, bats[i].model_id@) && v.path
                    == entry_path_spec(EntryKind::Battery, bats[i].model_id@);
            assert forall|kk: int, m: int|
                0 <= kk < invs.len() && invs[kk].topology == InverterTopology::HybridDCCoupled && 0 <= m
                    < invs[kk].compatible_battery_ids@.len() implies (#[trigger] invs[kk].compatible_battery_ids@[m])@
                    != bats[i].model_id@ by {
                if invs[kk].compatible_battery_ids@[m]@ == bats[i].model_id@ {
                    assert(ids_contain(invs[kk].compatible_battery_ids@, bats[i].model_id@));
                    assert(claimed(invs, bats[i].model_id@));
                }
            }
        } else if k < a.len() + b.len() {
            assert(b[k - a.len()] == v);
            assert(b.contains(v));
        } else {
            assert(c[k - a.len() - b.len()] == v);
            assert(c.contains(v));
        }
    }
}

/// Whether some hybrid inverter of the registry claims `id`.
fn is_claimed(registry: &Registry, id: &str) -> (r: bool)
    ensures
        r == claimed(registry.inverter_seq(), id@),
{
    let invs = registry.inverters();
    let mut i: usize = 0;
    while i < invs.len()
        invariant
            invs@ == registry.inverter_seq(),
            i <= invs@.len(),
            forall|j: int|
                0 <= j < i ==> !((#[trigger] invs@[j]).topology == InverterTopology::HybridDCCoupled
                    && ids_contain(invs@[j].compatible_battery_ids@, id@)),
        decreases invs.len() - i,
    {
        if invs[i].topology == InverterTopology::HybridDCCoupled && contains_id(
            &invs[i].compatible_battery_ids,
            id,
        ) {
            return true;
        }
        i = i + 1;
    }
    false
}

/// Cross-reference checks of one battery entry.
fn check_battery_refs(registry: &Registry, b: &BatteryModel, out: &mut Vec<Violation>)
    ensures
        views(final(out)@) == views(old(out)@) + battery_xref(
            registry.battery_seq(),
            registry.inverter_seq(),
            registry.controller_seq(),
            *b,
        ),
{
    let ghost start = views(out@);
    let path = entry_path(EntryKind::Battery, b.model_id.as_str());
    if let Some(controller_id) = &b.requires_controller_id {
        if registry.controller(controller_id.as_str()).is_none() {
            let msg = concat3("unknown controller model `", controller_id.as_str(), "`");
            push_violation(out, Violation::new(path.as_str(), "requires_controller_id", msg));
        }
    }
    let ghost after_controller = views(out@);
    if let Some(expansion) = &b.expansion {
        if let Some(pack_id) = &expansion.expansion_pack_model_id {
            if str_eq(pack_id.as_str(), b.model_id.as_str()) {
                let msg = String::from_str("expansion pack must not reference its own model_id");
                push_violation(
                    out,
                    Violation::new(path.as_str(), "expansion.expansion_pack_model_id", msg),
                );
            } else if registry.battery(pack_id.as_str()).is_none() {
                let msg = concat3("unknown battery model `", pack_id.as_str(), "`");
                push_violation(
                    out,
                    Violation::new(path.as_str(), "expansion.expansion_pack_model_id", msg),
                );
            }
        }
    }
    let ghost after_pack = views(out@);
    if b.coupling == Coupling::DCCoupledHybrid && b.integrated_inverter != Some(true) {
        if !is_claimed(registry, b.model_id.as_str()) {
            let msg = String::from_str(
                "DC-coupled battery without integrated inverter is not listed in any hybrid inverter's compatible_battery_ids",
            );
            push_violation(out, Violation::new(path.as_str(), "coupling", msg));
        }
    }
    proof {
        let bats = registry.battery_seq();
        let invs = registry.inverter_seq();
        let ctrls = registry.controller_seq();
        assert(after_controller =~= start + controller_part(ctrls, *b));
        assert(after_pack =~= after_controller + pack_part(bats, *b));
        assert(views(out@) =~= after_pack + claim_part(invs, *b));
        assert(views(out@) =~= start + battery_xref(bats, invs, ctrls, *b));
    }
}

/// Cross-reference checks of one inverter entry.
fn check_inverter_refs(registry: &Registry, inv: &InverterModel, out: &mut Vec<Violation>)
    ensures
        views(final(out)@) == views(old(out)@) + inverter_xref(registry.battery_seq(), *inv),
{
    let ghost start = views(out@);
    let path = entry_path(EntryKind::Inverter, inv.model_id.as_str());
    let ids = &inv.compatible_battery_ids;
    let mut i: usize = 0;
    while i < ids.len()
        invariant
            i <= ids@.len(),
            path@ == entry_path_spec(EntryKind::Inverter, inv.model_id@),
            ids@ == inv.compatible_battery_ids@,
            views(out@) == start + compat_xref(registry.battery_seq(), path@, ids@, i as nat),
        decreases ids.len() - i,
    {
        if registry.battery(ids[i].as_str()).is_none() {
            let mut field = String::from_str("compatible_battery_ids[");
            let num = decimal_string(i as u64);
            field.append(num.as_str());
            field.append("]");
            let msg = concat3("unknown battery model `", ids[i].as_str(), "`");
            push_violation(out, Violation::new(path.as_str(), field.as_str(), msg));
        }
        i = i + 1;
    }
}

/// Cross-reference check of one PV preset.
fn check_preset_refs(registry: &Registry, p: &PvPreset, out: &mut Vec<Violation>)
    ensures
        views(final(out)@) == views(old(out)@) + preset_xref(registry.inverter_seq(), *p),
{
    if let Some(inverter_id) = &p.pv_inverter_model_id {
        if registry.inverter(inverter_id.as_str()).is_none() {
            let path = entry_path(EntryKind::PvPreset, p.preset_id.as_str());
            let msg = concat3("unknown inverter model `", inverter_id.as_str(), "`");
            push_violation(out, Violation::new(path.as_str(), "pv_inverter_model_id", msg));
            return;
        }
    }
    assert(views(out@) =~= views(out@) + preset_xref(registry.inverter_seq(), *p));
}

/// Cross-reference validation across the whole registry: controller
/// references, battery/inverter compatibility, expansion-pack references
/// and PV preset inverter ids. Returns every violation, in catalog order.
pub fn check_cross_references(registry: &Registry) -> (r: Vec<Violation>)
    ensures
        views(r@) == registry_xref(registry),
{
    let mut out: Vec<Violation> = Vec::new();
    let bats = registry.batteries();
    let mut i: usize = 0;
    while i < bats.len()
        invariant
            bats@ == registry.battery_seq(),
            i <= bats@.len(),
            views(out@) == batteries_xref(
                registry.battery_seq(),
                registry.inverter_seq(),
                registry.controller_seq(),
                i as nat,
            ),
        decreases bats.len() - i,
    {
        check_battery_refs(registry, &bats[i], &mut out);
        i = i + 1;
    }
    let ghost after_b = views(out@);
    let invs = registry.inverters();
    let mut j: usize = 0;
    while j < invs.len()
        invariant
            invs@ == registry.inverter_seq(),
            j <= invs@.len(),
            views(out@) == after_b + inverters_xref(registry.battery_seq(), registry.inverter_seq(), j as nat),
        decreases invs.len() - j,
    {
        check_inverter_refs(registry, &invs[j], &mut out);
        j = j + 1;
        proof {
            let x = inverters_xref(registry.battery_seq(), registry.inverter_seq(), (j - 1) as nat);
            let y = inverter_xref(registry.battery_seq(), registry.inverter_seq()[j - 1]);
            assert(after_b + x + y =~= after_b + (x + y));
        }
    }
    let ghost after_i = views(out@);
    let ps = registry.pv_presets();
    let mut k: usize = 0;
    while k < ps.len()
        invariant
            ps@ == registry.pv_preset_seq(),
            k <= ps@.len(),
            views(out@) == after_i + presets_xref(registry.inverter_seq(), registry.pv_preset_seq(), k as nat),
        decreases ps.len() - k,
    {
        check_preset_refs(registry, &ps[k], &mut out);
        k = k + 1;
        proof {
            let x = presets_xref(registry.inverter_seq(), registry.pv_preset_seq(), (k - 1) as nat);
            let y = preset_xref(registry.inverter_seq(), registry.pv_preset_seq()[k - 1]);
            assert(after_i + x + y =~= after_i + (x + y));
        }
    }
    out
}

} // verus!
