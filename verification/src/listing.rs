//! Resource listing and request admission helpers: catalog, audit-log and
//! home filters and page envelopes, scenario time bindings, climate and load
//! zones, and fleet manifests: their validation, the per-home expansion
//! seeds and the expansion hash.

use vstd::prelude::*;
use vstd::string::*;

use crate::api::{CommandStatus, PageInfo};
use crate::auth::opt_view;
use crate::audit::{AuditStore, CommandDoc};
use crate::catalog::{ascending_keys, sort_by_key, BatteryModel, InverterModel, Registry};
use crate::kinds::Chemistry;
use crate::clock::{rfc3339_unix, unix_of};
use crate::telemetry::{bound_spec, parse_labeled_time, refused_for, validation_view};
use crate::codec::{encode_cursor, xxh3_64_hash, xxh3_64_of, base64url_text};
use crate::digest::{hex_sha256, sha256_of};
use crate::problem::{problem_new_view, Problem, ProblemCode};
use crate::text::{chars_of, concat2, concat3, hex_seq, lower_seq, padded_decimal, padded_decimal_string, str_eq, string_from_chars, to_string_of};
use crate::xref::{contains_id, ids_contain};

verus! {

/// Whether a command record passes the audit-log filters: rollup status,
/// a target home, and acceptance at or after `since` (records whose time
/// does not parse pass).
pub open spec fn command_selected(
    r: CommandDoc,
    status: Option<CommandStatus>,
    target: Option<Seq<char>>,
    since: Option<u64>,
) -> bool {
    &&& (status matches Some(s) ==> r.status == s)
    &&& (target matches Some(t) ==> exists|i: int|
        0 <= i < r.targets@.len() && (#[trigger] r.targets@[i]).home_id@ == t)
    &&& (since matches Some(s) ==> match rfc3339_unix(r.created_at@) {
        Some(c) => c < 0 || c >= s,
        None => true,
    })
}

/// Whether a command record passes the filters.
pub fn command_matches(r: &CommandDoc, status: Option<CommandStatus>, target: Option<&str>, since: Option<u64>) -> (b: bool)
    ensures
        b == command_selected(
            *r,
            status,
            match target {
                Some(t) => Some(t@),
                None => None,
            },
            since,
        ),
{
    if let Some(s) = status {
        if r.status != s {
            return false;
        }
    }
    if let Some(t) = target {
        let mut found = false;
        let mut i: usize = 0;
        while i < r.targets.len()
            invariant
                i <= r.targets@.len(),
                found == exists|j: int| 0 <= j < i && (#[trigger] r.targets@[j]).home_id@ == t@,
            decreases r.targets.len() - i,
        {
            if str_eq(r.targets[i].home_id.as_str(), t) {
                found = true;
            }
            i = i + 1;
        }
        if !found {
            return false;
        }
    }
    if let Some(s) = since {
        match unix_of(r.created_at.as_str()) {
            Ok(c) => {
                if c < s {
                    return false;
                }
            },
            Err(_) => {},
        }
    }
    true
}

/// Ids of the retained commands passing the filters, sorted.
pub fn matching_command_ids(
    store: &AuditStore,
    status: Option<CommandStatus>,
    target: Option<&str>,
    since: Option<u64>,
) -> (r: Vec<String>)
    ensures
        ascending_keys(r@),
        r@.to_multiset() == selected_ids(
            store.records_view(),
            status,
            match target {
                Some(t) => Some(t@),
                None => None,
            },
            since,
        ).to_multiset(),
{
    let recs = store.records();
    let ghost tv = match target {
        Some(t) => Some(t@),
        None => None,
    };
    let mut ids: Vec<String> = Vec::new();
    let mut i: usize = 0;
    while i < recs.len()
        invariant
            i <= recs@.len(),
            recs@ == store.records_view(),
            ids@ == selected_ids(recs@.take(i as int), status, tv, since),
            tv == match target {
                Some(t) => Some(t@),
                None => None::<Seq<char>>,
            },
        decreases recs.len() - i,
    {
        proof {
            assert(recs@.take(i + 1).drop_last() =~= recs@.take(i as int));
            assert(recs@.take(i + 1).last() == recs@[i as int]);
        }
        if command_matches(&recs[i], status, target, since) {
            ids.push(recs[i].command_id.clone());
        }
        i = i + 1;
    }
    assert(recs@.take(recs@.len() as int) =~= recs@);
    sort_by_key(ids)
}

/// Ids of the records passing the filters, in record order.
pub open spec fn selected_ids(
    rs: Seq<CommandDoc>,
    status: Option<CommandStatus>,
    target: Option<Seq<char>>,
    since: Option<u64>,
) -> Seq<String>
    decreases rs.len(),
{
    if rs.len() == 0 {
        Seq::empty()
    } else {
        let rest = selected_ids(rs.drop_last(), status, target, since);
        if command_selected(rs.last(), status, target, since) {
            rest.push(rs.last().command_id)
        } else {
            rest
        }
    }
}

/// The engine's metadata of one home slot.
#[derive(Debug, Clone)]
pub struct SlotMeta {
    /// Home id.
    pub home_id: String,
    /// Fleet membership.
    pub fleet_id: Option<String>,
}

/// The facts of a home that the home-list filters read.
#[derive(Debug, Clone)]
pub struct HomeIndexEntry {
    /// Home id.
    pub id: String,
    /// Owning fleet, if any.
    pub fleet_id: Option<String>,
    /// ERCOT load zone.
    pub load_zone: String,
    /// Battery `model_id`.
    pub battery_model: String,
}

/// Whether a home passes the list filters: owning fleet, load zone and
/// battery model, each when given.
pub open spec fn home_selected(
    h: HomeIndexEntry,
    fleet: Option<Seq<char>>,
    zone: Option<Seq<char>>,
    model: Option<Seq<char>>,
) -> bool {
    &&& (fleet matches Some(f) ==> h.fleet_id matches Some(hf) && hf@ == f)
    &&& (zone matches Some(z) ==> h.load_zone@ == z)
    &&& (model matches Some(m) ==> h.battery_model@ == m)
}

/// Ids of the homes passing the filters, in the given order.
pub open spec fn selected_home_ids(
    hs: Seq<HomeIndexEntry>,
    fleet: Option<Seq<char>>,
    zone: Option<Seq<char>>,
    model: Option<Seq<char>>,
) -> Seq<String>
    decreases hs.len(),
{
    if hs.len() == 0 {
        Seq::empty()
    } else {
        let rest = selected_home_ids(hs.drop_last(), fleet, zone, model);
        if home_selected(hs.last(), fleet, zone, model) {
            rest.push(hs.last().id)
        } else {
            rest
        }
    }
}

/// Whether one home passes the list filters.
fn home_matches(h: &HomeIndexEntry, fleet_id: Option<&str>, load_zone: Option<&str>, battery_model: Option<&str>) -> (b: bool)
    ensures
        b == home_selected(*h, opt_view(fleet_id), opt_view(load_zone), opt_view(battery_model)),
{
    if let Some(f) = fleet_id {
        match &h.fleet_id {
            Some(hf) => {
                if !str_eq(hf.as_str(), f) {
                    return false;
                }
            },
            None => {
                return false;
            },
        }
    }
    if let Some(z) = load_zone {
        if !str_eq(h.load_zone.as_str(), z) {
            return false;
        }
    }
    if let Some(m) = battery_model {
        if !str_eq(h.battery_model.as_str(), m) {
            return false;
        }
    }
    true
}

/// Ids of the homes passing the list filters, sorted.
pub fn matching_home_ids(
    homes: &[HomeIndexEntry],
    fleet_id: Option<&str>,
    load_zone: Option<&str>,
    battery_model: Option<&str>,
) -> (r: Vec<String>)
    ensures
        ascending_keys(r@),
        r@.to_multiset() == selected_home_ids(
            homes@,
            opt_view(fleet_id),
            opt_view(load_zone),
            opt_view(battery_model),
        ).to_multiset(),
{
    let ghost (fv, zv, mv) = (opt_view(fleet_id), opt_view(load_zone), opt_view(battery_model));
    let mut ids: Vec<String> = Vec::new();
    let mut i: usize = 0;
    while i < homes.len()
        invariant
            i <= homes@.len(),
            fv == opt_view(fleet_id),
            zv == opt_view(load_zone),
            mv == opt_view(battery_model),
            ids@ == selected_home_ids(homes@.take(i as int), fv, zv, mv),
        decreases homes.len() - i,
    {
        proof {
            assert(homes@.take(i + 1).drop_last() =~= homes@.take(i as int));
            assert(homes@.take(i + 1).last() == homes@[i as int]);
        }
        if home_matches(&homes[i], fleet_id, load_zone, battery_model) {
            ids.push(homes[i].id.clone());
        }
        i = i + 1;
    }
    assert(homes@.take(homes@.len() as int) =~= homes@);
    sort_by_key(ids)
}

/// The page envelope: a cursor naming the last id on the page when more
/// results exist.
pub fn page_info(page: &Vec<String>, has_more: bool) -> (r: PageInfo)
    ensures
        r.has_more == has_more,
        match r.next_cursor {
            Some(c) => has_more && c@ == base64url_text(
                vstd::utf8::encode_utf8(if page@.len() > 0 { page@.last()@ } else { Seq::empty() }),
            ),
            None => !has_more,
        },
{
    let next_cursor = if has_more {
        if page.len() > 0 {
            Some(encode_cursor(page[page.len() - 1].as_str()))
        } else {
            proof {
                reveal_strlit("");
            }
            Some(encode_cursor(""))
        }
    } else {
        None
    };
    PageInfo { next_cursor, has_more }
}

/// The outcome of a scenario time binding, checked in this order: the
/// start and the end parse (see [`bound_spec`]); the end comes after the
/// start; the start lies on a five-minute boundary; the tick length
/// (default 1 s) lies in 1..=60.
pub open spec fn scenario_time_outcome(start: Seq<char>, end: Seq<char>, tick_seconds: Option<u32>) -> Result<
    (u64, u64, u32),
    (Seq<char>, bool),
> {
    let t = match tick_seconds {
        Some(x) => x,
        None => 1,
    };
    match bound_spec("time.start"@, Some(start), 0) {
        Err(m) => Err(m),
        Ok(s) => match bound_spec("time.end"@, Some(end), 0) {
            Err(m) => Err(m),
            Ok(e) => if e <= s {
                Err(("time.end must be after time.start"@, false))
            } else if s % 300 != 0 {
                Err(("time.start must be aligned to a 5-minute boundary"@, false))
            } else if !(1 <= t <= 60) {
                Err(("time.tick_seconds must be within 1..=60"@, false))
            } else {
                Ok((s, e, t))
            },
        },
    }
}

/// Validate a scenario's time binding (see [`scenario_time_outcome`]); a
/// refusal is a validation problem whose detail is the reason (an
/// unparsable time continues with the parser's own words).
pub fn validate_scenario_time(start: &str, end: &str, tick_seconds: Option<u32>) -> (r: Result<(u64, u64, u32), Problem>)
    ensures
        match scenario_time_outcome(start@, end@, tick_seconds) {
            Ok(v) => r == Ok::<(u64, u64, u32), Problem>(v),
            Err(m) => r matches Err(p) && refused_for(p@, m),
        },
{
    let s = match parse_labeled_time(start, "time.start") {
        Ok(s) => s,
        Err(p) => return Err(p),
    };
    let e = match parse_labeled_time(end, "time.end") {
        Ok(v) => v,
        Err(p) => return Err(p),
    };
    if e <= s {
        return Err(refusal("time.end must be after time.start"));
    }
    if s % 300 != 0 {
        return Err(refusal("time.start must be aligned to a 5-minute boundary"));
    }
    let t = match tick_seconds {
        Some(x) => x,
        None => 1,
    };
    if !(1 <= t && t <= 60) {
        return Err(refusal("time.tick_seconds must be within 1..=60"));
    }
    Ok((s, e, t))
}

/// A validation problem whose detail is exactly `msg`.
fn refusal(msg: &str) -> (p: Problem)
    ensures
        p@ == validation_view(msg@),
{
    Problem::validation(String::from_str(msg))
}

/// Texas climate zones.
#[derive(Debug, Clone, Copy, PartialEq, Eq, Structural)]
pub enum ClimateZone {
    /// IECC 2A.
    GulfCoast,
    /// IECC 3A.
    Central,
    /// IECC 3B.
    West,
    /// IECC 4A.
    North,
}

/// The climate zone a (lowercased) name resolves to.
pub open spec fn zone_named(s: Seq<char>) -> Option<ClimateZone> {
    if s == "2a"@ || s == "gulf_coast"@ || s == "gulfcoast"@ {
        Some(ClimateZone::GulfCoast)
    } else if s == "3a"@ || s == "central"@ {
        Some(ClimateZone::Central)
    } else if s == "3b"@ || s == "west"@ {
        Some(ClimateZone::West)
    } else if s == "4a"@ || s == "north"@ {
        Some(ClimateZone::North)
    } else {
        None
    }
}

/// Resolve a climate-zone name (ASCII case-insensitive; default
/// `central`): IECC codes 2A, 3A, 3B, 4A or Texas zone names.
pub fn climate_zone(s: Option<&str>) -> (r: Result<ClimateZone, Problem>)
    ensures
        ({
            let name = match s {
                Some(x) => lower_seq(x@),
                None => "central"@,
            };
            match zone_named(name) {
                Some(z) => r == Ok::<ClimateZone, Problem>(z),
                None => r matches Err(p) && p@ == problem_new_view(ProblemCode::ValidationError, 400, "Validation error"@)
                    .with_detail(
                    "unknown climate zone `"@ + name + "` (expected 2A, 3A, 3B, 4A, or a Texas zone name)"@,
                ),
            }
        }),
{
    let lowered: String = match s {
        Some(x) => string_from_chars(&crate::text::ascii_lowercase(x)),
        None => String::from_str("central"),
    };
    let l = lowered.as_str();
    if str_eq(l, "2a") || str_eq(l, "gulf_coast") || str_eq(l, "gulfcoast") {
        Ok(ClimateZone::GulfCoast)
    } else if str_eq(l, "3a") || str_eq(l, "central") {
        Ok(ClimateZone::Central)
    } else if str_eq(l, "3b") || str_eq(l, "west") {
        Ok(ClimateZone::West)
    } else if str_eq(l, "4a") || str_eq(l, "north") {
        Ok(ClimateZone::North)
    } else {
        let m = concat3("unknown climate zone `", l, "` (expected 2A, 3A, 3B, 4A, or a Texas zone name)");
        Err(Problem::validation(m))
    }
}

/// ERCOT load zones with known site coordinates.
pub open spec fn known_load_zone(z: Seq<char>) -> bool {
    z == "LZ_NORTH"@ || z == "LZ_NORTH_C"@ || z == "LZ_HOUSTON"@ || z == "LZ_COAST"@ || z == "LZ_SOUTH"@ || z
        == "LZ_SOUTH_C"@ || z == "LZ_SOUTHERN"@ || z == "LZ_AUSTIN"@ || z == "LZ_WEST"@ || z == "LZ_FAR_WEST"@
        || z == "LZ_EAST"@
}

/// Whether `z` is a known ERCOT load zone.
pub fn is_known_load_zone(z: &str) -> (r: bool)
    ensures
        r == known_load_zone(z@),
{
    str_eq(z, "LZ_NORTH") || str_eq(z, "LZ_NORTH_C") || str_eq(z, "LZ_HOUSTON") || str_eq(z, "LZ_COAST")
        || str_eq(z, "LZ_SOUTH") || str_eq(z, "LZ_SOUTH_C") || str_eq(z, "LZ_SOUTHERN") || str_eq(z, "LZ_AUSTIN")
        || str_eq(z, "LZ_WEST") || str_eq(z, "LZ_FAR_WEST") || str_eq(z, "LZ_EAST")
}

/// Little-endian bytes of a 64-bit value.
pub open spec fn le_bytes(x: u64) -> Seq<u8> {
    Seq::new(8, |i: int| ((x as int / pow256(i)) % 256) as u8)
}

/// 256 to the power `e`.
pub open spec fn pow256(e: int) -> int
    decreases e,
{
    if e <= 0 {
        1
    } else {
        256 * pow256(e - 1)
    }
}

/// Tag mixed into every expansion seed (`expand` in ASCII, little-endian).
pub open spec fn expansion_tag() -> u64 {
    0x6578_7061_6e64
}

/// Little-endian bytes of a 64-bit value.
fn le_bytes_of(x: u64, out: &mut Vec<u8>)
    ensures
        final(out)@ == old(out)@ + le_bytes(x),
{
    let ghost start = out@;
    let mut v = x;
    let mut i: usize = 0;
    while i < 8
        invariant
            i <= 8,
            v as int == x as int / pow256(i as int),
            out@ == start + le_bytes(x).take(i as int),
        decreases 8 - i,
    {
        proof {
            lemma_pow256(i as int);
        }
        let b = (v % 256) as u8;
        out.push(b);
        proof {
            assert(le_bytes(x)[i as int] == b);
            assert(le_bytes(x).take(i + 1) =~= le_bytes(x).take(i as int).push(b));
            assert((v / 256) as int == x as int / pow256(i + 1)) by (nonlinear_arith)
                requires
                    v as int == x as int / pow256(i as int),
                    pow256(i + 1) == 256 * pow256(i as int),
                    pow256(i as int) >= 1,
                    x >= 0,
            {
                vstd::arithmetic::div_mod::lemma_div_denominator(x as int, pow256(i as int), 256);
            }
        }
        v = v / 256;
        i = i + 1;
    }
    assert(le_bytes(x).take(8) =~= le_bytes(x));
}

/// `pow256` is positive and steps by 256.
proof fn lemma_pow256(e: int)
    requires
        0 <= e,
    ensures
        pow256(e) >= 1,
        pow256(e + 1) == 256 * pow256(e),
    decreases e,
{
    if e > 0 {
        lemma_pow256(e - 1);
    }
}

/// The draw-stream seed of the home at `ordinal` in a fleet expanded
/// from `seed`.
pub open spec fn expansion_seed_spec(seed: u64, ordinal: u64) -> u64 {
    xxh3_64_of(le_bytes(seed) + le_bytes(ordinal) + le_bytes(expansion_tag()))
}

/// The draw-stream seeds of `n` homes expanded from ordinal `base` on.
pub open spec fn expansion_seed_list(seed: u64, base: u64, n: nat) -> Seq<u64> {
    Seq::new(n, |i: int| expansion_seed_spec(seed, (base + i) as u64))
}

/// Seed of the deterministic draw stream of one expanded home: xxh3 over
/// the fleet seed, the home's ordinal and a fixed tag, each as 8
/// little-endian bytes.
pub fn expansion_seed(seed: u64, ordinal: u64) -> (r: u64)
    ensures
        r == expansion_seed_spec(seed, ordinal),
{
    let mut key: Vec<u8> = Vec::new();
    le_bytes_of(seed, &mut key);
    le_bytes_of(ordinal, &mut key);
    le_bytes_of(0x6578_7061_6e64, &mut key);
    assert(key@ =~= Seq::<u8>::empty() + le_bytes(seed) + le_bytes(ordinal) + le_bytes(expansion_tag()));
    xxh3_64_hash(key.as_slice())
}

/// Content hash of a manifest expansion (its canonical JSON bytes) as
/// `sha256:<hex>`.
pub fn expansion_hash(canonical_json: &[u8]) -> (r: String)
    ensures
        r@ == "sha256:"@ + hex_seq(sha256_of(canonical_json@)),
        r@.len() == 71,
{
    let h = hex_sha256(canonical_json);
    proof {
        reveal_strlit("sha256:");
    }
    concat2("sha256:", h.as_str())
}

/// The synthetic ERCOT ESI ID of a composed home: `1008900` followed by
/// the xxh3 hash of its id modulo 10^13, as 13 zero-padded digits.
pub fn esiid_for(home_id: &str) -> (r: String)
    ensures
        r@ == "1008900"@ + padded_decimal(
            (xxh3_64_of(vstd::utf8::encode_utf8(home_id@)) % 10_000_000_000_000) as nat,
            13,
        ),
{
    let h = xxh3_64_hash(home_id.as_bytes());
    let digits = padded_decimal_string(h % 10_000_000_000_000, 13);
    concat2("1008900", digits.as_str())
}

/// Index of the first inverter listing battery `id` as compatible.
pub open spec fn first_compatible(invs: Seq<InverterModel>, id: Seq<char>, n: int) -> Option<int>
    decreases n,
{
    if n <= 0 {
        None
    } else {
        match first_compatible(invs, id, n - 1) {
            Some(i) => Some(i),
            None => if ids_contain(invs[n - 1].compatible_battery_ids@, id) {
                Some(n - 1)
            } else {
                None
            },
        }
    }
}

/// The default inverter of a battery without an explicit inverter: the
/// first catalog inverter (in `model_id` order) listing it as compatible.
pub fn compatible_inverter(registry: &Registry, battery_model_id: &str) -> (r: Option<String>)
    ensures
        match first_compatible(registry.inverter_seq(), battery_model_id@, registry.inverter_seq().len() as int) {
            Some(i) => r matches Some(m) && m@ == registry.inverter_seq()[i].model_id@,
            None => r is None,
        },
{
    let invs = registry.inverters();
    let mut i: usize = 0;
    while i < invs.len()
        invariant
            i <= invs@.len(),
            invs@ == registry.inverter_seq(),
            first_compatible(invs@, battery_model_id@, i as int) is None,
        decreases invs.len() - i,
    {
        if contains_id(&invs[i].compatible_battery_ids, battery_model_id) {
            proof {
                lemma_first_compatible_stable(invs@, battery_model_id@, i + 1, invs@.len() as int);
            }
            return Some(to_string_of(invs[i].model_id.as_str()));
        }
        i = i + 1;
    }
    None
}

/// Once a compatible inverter is found, it stays the first.
proof fn lemma_first_compatible_stable(invs: Seq<InverterModel>, id: Seq<char>, a: int, b: int)
    requires
        a <= b,
        first_compatible(invs, id, a) is Some,
    ensures
        first_compatible(invs, id, b) == first_compatible(invs, id, a),
    decreases b - a,
{
    if a < b {
        lemma_first_compatible_stable(invs, id, a, b - 1);
    }
}

/// Most homes one fleet creation or expansion request may add.
pub const MAX_HOMES_PER_REQUEST: u32 = 10_000;

/// The first problem among a fleet manifest's load zones, given in the
/// manifest's (sorted) order, each with whether its weight is positive
/// and finite: an unknown zone, then a bad weight, zone by zone.
pub open spec fn zone_issue(zones: Seq<(String, bool)>, k: int) -> Option<Seq<char>>
    decreases k,
{
    if k <= 0 {
        None
    } else {
        match zone_issue(zones, k - 1) {
            Some(m) => Some(m),
            None => {
                let name = zones[k - 1].0@;
                if !known_load_zone(name) {
                    Some("unknown ERCOT load zone `"@ + name + "`"@)
                } else if !zones[k - 1].1 {
                    Some("load-zone weights must be positive"@)
                } else {
                    None
                }
            },
        }
    }
}

proof fn lemma_zone_issue_stable(zones: Seq<(String, bool)>, j: int, n: int)
    requires
        0 <= j <= n,
        zone_issue(zones, j) is Some,
    ensures
        zone_issue(zones, n) == zone_issue(zones, j),
    decreases n - j,
{
    if n > j {
        lemma_zone_issue_stable(zones, j, n - 1);
    }
}

/// Whether every flag is set.
pub open spec fn all_true(s: Seq<bool>) -> bool {
    forall|i: int| 0 <= i < s.len() ==> s[i]
}

/// The first problem with a fleet manifest, in the order the checks run:
/// the home count, the archetype list and its weights (each given as
/// whether it is positive and finite), then the load zones when a
/// distribution is given.
pub open spec fn manifest_issue(
    count: u32,
    weights_ok: Seq<bool>,
    zones: Option<Seq<(String, bool)>>,
) -> Option<Seq<char>> {
    if count == 0 {
        Some("count must be >= 1"@)
    } else if count > MAX_HOMES_PER_REQUEST {
        Some("count must be <= 10000 per request"@)
    } else if weights_ok.len() == 0 {
        Some("archetypes must not be empty"@)
    } else if !all_true(weights_ok) {
        Some("archetype weights must be positive"@)
    } else {
        match zones {
            None => None,
            Some(z) => if z.len() == 0 {
                Some("ercot_load_zones must not be empty"@)
            } else {
                zone_issue(z, z.len() as int)
            },
        }
    }
}

/// Validates a fleet manifest before expansion: the validation problem of
/// the first failing check, or `None` when the manifest can be expanded.
pub fn manifest_problem(count: u32, weights_ok: &Vec<bool>, zones: Option<&Vec<(String, bool)>>) -> (r: Option<Problem>)
    ensures
        match manifest_issue(
            count,
            weights_ok@,
            match zones {
                Some(z) => Some(z@),
                None => None,
            },
        ) {
            Some(m) => r matches Some(p) && p@ == validation_view(m),
            None => r is None,
        },
{
    if count == 0 {
        return Some(Problem::validation(String::from_str("count must be >= 1")));
    }
    if count > MAX_HOMES_PER_REQUEST {
        return Some(Problem::validation(String::from_str("count must be <= 10000 per request")));
    }
    if weights_ok.len() == 0 {
        return Some(Problem::validation(String::from_str("archetypes must not be empty")));
    }
    let mut i: usize = 0;
    while i < weights_ok.len()
        invariant
            i <= weights_ok.len(),
            forall|j: int| 0 <= j < i ==> weights_ok@[j],
            1 <= count <= MAX_HOMES_PER_REQUEST,
            weights_ok@.len() > 0,
        decreases weights_ok.len() - i,
    {
        if !weights_ok[i] {
            proof {
                assert(!weights_ok@[i as int]);
            }
            return Some(Problem::validation(String::from_str("archetype weights must be positive")));
        }
        i += 1;
    }
    assert(all_true(weights_ok@));
    match zones {
        None => None,
        Some(z) => {
            if z.len() == 0 {
                return Some(Problem::validation(String::from_str("ercot_load_zones must not be empty")));
            }
            let mut k: usize = 0;
            while k < z.len()
                invariant
                    k <= z.len(),
                    zone_issue(z@, k as int) is None,
                    1 <= count <= MAX_HOMES_PER_REQUEST,
                    weights_ok@.len() > 0,
                    all_true(weights_ok@),
                    z@.len() > 0,
                    zones == Some(z),
                decreases z.len() - k,
            {
                let name = z[k].0.as_str();
                if !is_known_load_zone(name) {
                    let m = concat3("unknown ERCOT load zone `", name, "`");
                    proof {
                        assert(zone_issue(z@, k + 1) == Some(m@));
                        lemma_zone_issue_stable(z@, k + 1, z@.len() as int);
                    }
                    return Some(Problem::validation(m));
                }
                if !z[k].1 {
                    proof {
                        lemma_zone_issue_stable(z@, k + 1, z@.len() as int);
                    }
                    return Some(Problem::validation(String::from_str("load-zone weights must be positive")));
                }
                k += 1;
            }
            None
        },
    }
}

/// The draw-stream seeds of the `count` homes an expansion adds after the
/// `ordinal_base` homes expanded before it.
pub fn expansion_seeds(seed: u64, ordinal_base: u64, count: u32) -> (r: Vec<u64>)
    requires
        ordinal_base + count <= u64::MAX,
    ensures
        r@ == expansion_seed_list(seed, ordinal_base, count as nat),
{
    let mut out: Vec<u64> = Vec::new();
    let mut i: u32 = 0;
    while i < count
        invariant
            i <= count,
            ordinal_base + count <= u64::MAX,
            out@ == expansion_seed_list(seed, ordinal_base, i as nat),
        decreases count - i,
    {
        let s = expansion_seed(seed, ordinal_base + i as u64);
        out.push(s);
        i += 1;
        assert(out@ =~= expansion_seed_list(seed, ordinal_base, i as nat));
    }
    out
}

/// Fleet expansion is chained through ordinals: expanding by `a` homes and
/// then by `b` more draws exactly the seeds that expanding by `a + b` at
/// once draws, so a fleet's homes do not depend on how its growth was
/// split into requests.
pub proof fn law_expansion_chains(seed: u64, base: u64, a: nat, b: nat)
    requires
        base + a + b <= u64::MAX,
    ensures
        expansion_seed_list(seed, base, a) + expansion_seed_list(seed, (base + a) as u64, b)
            == expansion_seed_list(seed, base, a + b),
{
    assert(expansion_seed_list(seed, base, a) + expansion_seed_list(seed, (base + a) as u64, b)
        =~= expansion_seed_list(seed, base, a + b));
}

/// Whether `needle` occurs in `hay` as a contiguous run of characters.
pub open spec fn has_substring(hay: Seq<char>, needle: Seq<char>) -> bool {
    exists|i: int| 0 <= i && i + needle.len() <= hay.len() && #[trigger] hay.subrange(i, i + needle.len()) == needle
}

fn matches_at(hay: &Vec<char>, needle: &Vec<char>, i: usize) -> (r: bool)
    requires
        i + needle@.len() <= hay@.len(),
    ensures
        r == (hay@.subrange(i as int, i + needle@.len()) == needle@),
{
    let hl = hay.len();
    let mut j: usize = 0;
    while j < needle.len()
        invariant
            hl == hay@.len(),
            i + needle@.len() <= hay@.len(),
            j <= needle@.len(),
            forall|k: int| 0 <= k < j ==> hay@[i + k] == needle@[k],
        decreases needle.len() - j,
    {
        if hay[i + j] != needle[j] {
            assert(hay@.subrange(i as int, i + needle@.len())[j as int] != needle@[j as int]);
            return false;
        }
        j += 1;
    }
    assert(hay@.subrange(i as int, i + needle@.len()) =~= needle@);
    true
}

/// Whether `needle` occurs in `hay` (see [`has_substring`]).
pub fn contains_text(hay: &str, needle: &str) -> (r: bool)
    ensures
        r == has_substring(hay@, needle@),
{
    let h = chars_of(hay);
    let n = chars_of(needle);
    if n.len() > h.len() {
        return false;
    }
    let last = h.len() - n.len();
    let mut i: usize = 0;
    loop
        invariant
            h@ == hay@,
            n@ == needle@,
            last == h@.len() - n@.len(),
            i <= last,
            forall|k: int| 0 <= k < i ==> #[trigger] h@.subrange(k, k + n@.len()) != n@,
        decreases last - i,
    {
        if matches_at(&h, &n, i) {
            return true;
        }
        if i == last {
            assert forall|k: int| 0 <= k && k + needle@.len() <= hay@.len() implies #[trigger] hay@.subrange(
                k,
                k + needle@.len(),
            ) != needle@ by {
                if k < i {
                } else {
                    assert(k == i);
                }
            }
            return false;
        }
        i += 1;
    }
}

/// The name a chemistry is listed and filtered by.
pub open spec fn chemistry_text(c: Chemistry) -> Seq<char> {
    match c {
        Chemistry::LFP => "LFP"@,
        Chemistry::NMC => "NMC"@,
        Chemistry::NCA => "NCA"@,
    }
}

/// The name a chemistry is listed by (see [`chemistry_text`]).
pub fn chemistry_name(c: Chemistry) -> (r: &'static str)
    ensures
        r@ == chemistry_text(c),
{
    match c {
        Chemistry::LFP => "LFP",
        Chemistry::NMC => "NMC",
        Chemistry::NCA => "NCA",
    }
}

/// Whether a battery passes the catalog listing's text filters: its vendor
/// contains the vendor filter, and its chemistry's name equals the
/// chemistry filter up to ASCII case.
pub open spec fn battery_listed(b: BatteryModel, vendor: Option<Seq<char>>, chemistry: Option<Seq<char>>) -> bool {
    &&& (vendor matches Some(v) ==> has_substring(b.vendor@, v))
    &&& (chemistry matches Some(c) ==> lower_seq(chemistry_text(b.chemistry)) == lower_seq(c))
}

/// The catalog positions among the first `k` batteries that pass the text
/// filters and whose capacity is within the requested bounds.
pub open spec fn battery_listing_prefix(
    bs: Seq<BatteryModel>,
    vendor: Option<Seq<char>>,
    chemistry: Option<Seq<char>>,
    capacity_ok: Seq<bool>,
    k: int,
) -> Seq<usize>
    decreases k,
{
    if k <= 0 {
        Seq::empty()
    } else {
        let p = battery_listing_prefix(bs, vendor, chemistry, capacity_ok, k - 1);
        if battery_listed(bs[k - 1], vendor, chemistry) && capacity_ok[k - 1] {
            p.push((k - 1) as usize)
        } else {
            p
        }
    }
}

/// The batteries a catalog listing returns, as positions in catalog
/// (`model_id`) order: those passing the vendor and chemistry filters and,
/// as given per battery, the capacity bounds.
pub fn list_battery_positions(
    registry: &Registry,
    vendor: Option<&str>,
    chemistry: Option<&str>,
    capacity_ok: &Vec<bool>,
) -> (r: Vec<usize>)
    requires
        capacity_ok@.len() == registry.battery_seq().len(),
    ensures
        r@ == battery_listing_prefix(
            registry.battery_seq(),
            opt_view(vendor),
            opt_view(chemistry),
            capacity_ok@,
            registry.battery_seq().len() as int,
        ),
{
    let bs = registry.batteries();
    let wanted_chem: Option<Vec<char>> = match chemistry {
        Some(c) => Some(crate::text::ascii_lowercase(c)),
        None => None,
    };
    let mut out: Vec<usize> = Vec::new();
    let mut i: usize = 0;
    while i < bs.len()
        invariant
            bs@ == registry.battery_seq(),
            capacity_ok@.len() == bs@.len(),
            i <= bs@.len(),
            wanted_chem matches Some(w) ==> (chemistry matches Some(c) && w@ == lower_seq(c@)),
            wanted_chem is None <==> chemistry is None,
            out@ == battery_listing_prefix(bs@, opt_view(vendor), opt_view(chemistry), capacity_ok@, i as int),
        decreases bs.len() - i,
    {
        let b = &bs[i];
        let vendor_ok = match vendor {
            Some(v) => contains_text(b.vendor.as_str(), v),
            None => true,
        };
        let chem_ok = match &wanted_chem {
            Some(w) => {
                let have = crate::text::ascii_lowercase(chemistry_name(b.chemistry));
                crate::entry_checks::chars_equal(&have, w)
            },
            None => true,
        };
        if vendor_ok && chem_ok && capacity_ok[i] {
            out.push(i);
        }
        i += 1;
    }
    out
}

/// The catalog positions among the first `k` inverters whose vendor
/// contains the vendor filter and whose rating meets the requested floor.
pub open spec fn inverter_listing_prefix(
    is: Seq<InverterModel>,
    vendor: Option<Seq<char>>,
    power_ok: Seq<bool>,
    k: int,
) -> Seq<usize>
    decreases k,
{
    if k <= 0 {
        Seq::empty()
    } else {
        let p = inverter_listing_prefix(is, vendor, power_ok, k - 1);
        if (vendor matches Some(v) ==> has_substring(is[k - 1].vendor@, v)) && power_ok[k - 1] {
            p.push((k - 1) as usize)
        } else {
            p
        }
    }
}

/// The inverters a catalog listing returns, as positions in catalog order:
/// those passing the vendor filter and, as given per inverter, the power
/// floor.
pub fn list_inverter_positions(registry: &Registry, vendor: Option<&str>, power_ok: &Vec<bool>) -> (r: Vec<usize>)
    requires
        power_ok@.len() == registry.inverter_seq().len(),
    ensures
        r@ == inverter_listing_prefix(
            registry.inverter_seq(),
            opt_view(vendor),
            power_ok@,
            registry.inverter_seq().len() as int,
        ),
{
    let is = registry.inverters();
    let mut out: Vec<usize> = Vec::new();
    let mut i: usize = 0;
    while i < is.len()
        invariant
            is@ == registry.inverter_seq(),
            power_ok@.len() == is@.len(),
            i <= is@.len(),
            out@ == inverter_listing_prefix(is@, opt_view(vendor), power_ok@, i as int),
        decreases is.len() - i,
    {
        let vendor_ok = match vendor {
            Some(v) => contains_text(is[i].vendor.as_str(), v),
            None => true,
        };
        if vendor_ok && power_ok[i] {
            out.push(i);
        }
        i += 1;
    }
    out
}

} // verus!
