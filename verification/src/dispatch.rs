//! Dispatch planning: target resolution and filtering, deterministic
//! per-target latency draws and sampling buckets, execution ticks, the
//! engine steps of each action, and the acceptance documents.

use vstd::prelude::*;
use vstd::string::*;

use crate::api::{api_mode_of, api_mode_spec, control_mode_of, control_mode_spec, CommandStatus, ControlMode, DispatchResponse, ExecutionSpec, LatencySpec, OperatingMode};
use crate::audit::{command_record, inserted, AuditStore, CommandDoc, TargetExecution};
use crate::catalog::{ascending_keys, sort_by_key};
use crate::codec::{xxh3_64_hash, xxh3_64_of};
use crate::auth::opt_view;
use crate::idem::has_str;
use crate::telemetry::opt_vec;
use crate::problem::{problem_new_view, Problem, ProblemCode};
use crate::sim::div_ceil;
use crate::text::{concat2, hex_digit, str_eq};

verus! {

/// The value `rand_chacha::ChaCha8Rng::seed_from_u64(seed)` draws first
/// from `lo..=hi` with `rand::Rng::gen_range`.
pub uninterp spec fn seeded_draw(seed: u64, lo: u64, hi: u64) -> u64;

/// `ChaCha8Rng::seed_from_u64(seed)` followed by one
/// `gen_range(lo..=hi)`. Trusted: the result is the named draw and lies
/// in the range (rand documents `gen_range` as uniform over the range and
/// panicking only on an empty one, excluded here).
#[verifier::external_body]
fn chacha_draw(seed: u64, lo: u64, hi: u64) -> (r: u64)
    requires
        lo <= hi,
    ensures
        r == seeded_draw(seed, lo, hi),
        lo <= r <= hi,
{
    let mut rng = <rand_chacha::ChaCha8Rng as rand::SeedableRng>::seed_from_u64(seed);
    rand::Rng::gen_range(&mut rng, lo..=hi)
}

/// Bytes of `command_id`, a zero byte, then bytes of `home_id`.
pub open spec fn latency_key(command_id: Seq<char>, home_id: Seq<char>) -> Seq<u8> {
    vstd::utf8::encode_utf8(command_id) + seq![0u8] + vstd::utf8::encode_utf8(home_id)
}

/// The latency of one target: a fixed value, or a deterministic draw
/// seeded by the command and home ids over the requested range (default
/// 250..=2000 ms; an empty or degenerate range gives its lower bound; a
/// range reaching `u64::MAX` draws below it).
pub open spec fn latency_spec(latency: Option<LatencySpec>, seed: u64) -> u64 {
    match latency {
        None => seeded_draw(seed, 250, 2000),
        Some(LatencySpec::Fixed(ms)) => ms,
        Some(LatencySpec::Range { uniform }) => if uniform[0] >= uniform[1] {
            uniform[0]
        } else {
            seeded_draw(seed, uniform[0], if uniform[1] == u64::MAX { (uniform[1] - 1) as u64 } else { uniform[1] })
        },
    }
}

/// The requested latency model of an execution spec.
pub open spec fn latency_of(spec: Option<ExecutionSpec>) -> Option<LatencySpec> {
    match spec {
        Some(e) => e.latency_ms,
        None => None,
    }
}

/// Deterministic per-target latency draw in milliseconds.
pub fn latency_ms(spec: Option<&ExecutionSpec>, command_id: &str, home_id: &str) -> (r: u64)
    ensures
        r == latency_spec(
            latency_of(
                match spec {
                    Some(e) => Some(*e),
                    None => None,
                },
            ),
            xxh3_64_of(latency_key(command_id@, home_id@)),
        ),
        match latency_of(
            match spec {
                Some(e) => Some(*e),
                None => None,
            },
        ) {
            None => 250 <= r <= 2000,
            Some(LatencySpec::Fixed(ms)) => r == ms,
            Some(LatencySpec::Range { uniform }) => if uniform[0] >= uniform[1] {
                r == uniform[0]
            } else {
                &&& uniform[0] <= r <= uniform[1]
                &&& uniform[1] == u64::MAX ==> r < uniform[1]
            },
        },
{
    let mut key: Vec<u8> = Vec::new();
    let cb = command_id.as_bytes();
    let hb = home_id.as_bytes();
    let mut i: usize = 0;
    while i < cb.len()
        invariant
            i <= cb@.len(),
            key@ == cb@.subrange(0, i as int),
        decreases cb.len() - i,
    {
        key.push(cb[i]);
        i = i + 1;
        assert(key@ =~= cb@.subrange(0, i as int));
    }
    key.push(0);
    let mut j: usize = 0;
    while j < hb.len()
        invariant
            j <= hb@.len(),
            key@ == cb@ + seq![0u8] + hb@.subrange(0, j as int),
        decreases hb.len() - j,
    {
        key.push(hb[j]);
        j = j + 1;
        assert(key@ =~= cb@ + seq![0u8] + hb@.subrange(0, j as int));
    }
    assert(cb@.subrange(0, cb@.len() as int) =~= cb@);
    assert(hb@.subrange(0, hb@.len() as int) =~= hb@);
    assert(key@ =~= latency_key(command_id@, home_id@));
    let seed = xxh3_64_hash(key.as_slice());
    let lat = match spec {
        Some(e) => e.latency_ms,
        None => None,
    };
    match lat {
        None => chacha_draw(seed, 250, 2000),
        Some(LatencySpec::Fixed(ms)) => ms,
        Some(LatencySpec::Range { uniform }) => {
            if uniform[0] >= uniform[1] {
                uniform[0]
            } else {
                let hi = if uniform[1] == u64::MAX {
                    uniform[1] - 1
                } else {
                    uniform[1]
                };
                chacha_draw(seed, uniform[0], hi)
            }
        },
    }
}

/// Sampling bucket of a target (0..=99): the xxh3 of `command_id:home_id`
/// modulo 100.
pub fn sample_bucket(command_id: &str, home_id: &str) -> (r: u64)
    ensures
        r == xxh3_64_of(vstd::utf8::encode_utf8(command_id@ + ":"@ + home_id@)) % 100,
        r < 100,
{
    let mut s = concat2(command_id, ":");
    s.append(home_id);
    let h = xxh3_64_hash(s.as_str().as_bytes());
    h % 100
}

/// A latency range must be ordered.
pub fn check_latency_order(spec: Option<&ExecutionSpec>) -> (r: Result<(), Problem>)
    ensures
        match latency_of(
            match spec {
                Some(e) => Some(*e),
                None => None,
            },
        ) {
            Some(LatencySpec::Range { uniform }) => if uniform[0] > uniform[1] {
                r matches Err(p) && p@ == problem_new_view(ProblemCode::ValidationError, 400, "Validation error"@)
                    .with_detail("latency range must be ordered"@)
            } else {
                r is Ok
            },
            _ => r is Ok,
        },
{
    if let Some(e) = spec {
        if let Some(LatencySpec::Range { uniform }) = e.latency_ms {
            if uniform[0] > uniform[1] {
                return Err(Problem::validation(String::from_str("latency range must be ordered")));
            }
        }
    }
    Ok(())
}

/// `acc` followed by every id of `ids` not already present, in order.
pub open spec fn append_unique(acc: Seq<String>, ids: Seq<String>) -> Seq<String>
    decreases ids.len(),
{
    if ids.len() == 0 {
        acc
    } else {
        let a = append_unique(acc, ids.drop_last());
        if has_str(a, ids.last()@) {
            a
        } else {
            a.push(ids.last())
        }
    }
}

/// Index of the first id not known, if any.
pub open spec fn first_unknown(known: Seq<bool>, n: int) -> Option<int>
    decreases n,
{
    if n <= 0 {
        None
    } else {
        match first_unknown(known, n - 1) {
            Some(i) => Some(i),
            None => if !known[n - 1] {
                Some(n - 1)
            } else {
                None
            },
        }
    }
}

/// Whether `r` is the outcome of resolving a dispatch target, checked in
/// this order: a named fleet exists; every listed home exists (the first
/// unknown one is reported); some target is named. On success: the fleet's
/// homes and the listed ones, each once, in ascending id order.
pub open spec fn targets_resolved(
    fleet_id: Option<Seq<char>>,
    fleet_homes: Option<Seq<String>>,
    home_ids: Option<Seq<String>>,
    home_known: Seq<bool>,
    r: Result<Vec<String>, Problem>,
) -> bool {
    match (fleet_id, fleet_homes) {
        (Some(f), None) => r matches Err(p) && p@ == problem_new_view(ProblemCode::NotFound, 404, "Not found"@)
            .with_detail("no "@ + "fleet"@ + " with id `"@ + f + "`"@),
        _ => {
            let base = match (fleet_id, fleet_homes) {
                (Some(_), Some(fh)) => fh,
                _ => Seq::<String>::empty(),
            };
            match home_ids {
                Some(h) if first_unknown(home_known, h.len() as int) is Some => {
                    let i = first_unknown(home_known, h.len() as int).unwrap();
                    r matches Err(p) && p@ == problem_new_view(ProblemCode::NotFound, 404, "Not found"@).with_detail(
                        "no "@ + "home"@ + " with id `"@ + h[i]@ + "`"@,
                    )
                },
                _ => {
                    let all = match home_ids {
                        Some(h) => append_unique(base, h),
                        None => base,
                    };
                    if all.len() == 0 && fleet_id is None && home_ids is None {
                        r matches Err(p) && p@ == problem_new_view(
                            ProblemCode::ValidationError,
                            400,
                            "Validation error"@,
                        ).with_detail("target must name a fleet_id and/or home_ids"@)
                    } else {
                        r matches Ok(v) && ascending_keys(v@) && v@.to_multiset() == all.to_multiset()
                    }
                },
            }
        },
    }
}

/// Expand a dispatch target into a sorted home id list: the homes of the
/// named fleet (`fleet_homes`, `None` when no such fleet exists) and the
/// listed home ids (`home_known` tells which exist), deduplicated. An
/// unknown fleet or home is a not-found problem; a target naming neither
/// is a validation problem.
pub fn resolve_target_ids(
    fleet_id: Option<&str>,
    fleet_homes: Option<&Vec<String>>,
    home_ids: Option<&Vec<String>>,
    home_known: &Vec<bool>,
) -> (r: Result<Vec<String>, Problem>)
    requires
        home_ids matches Some(h) ==> home_known@.len() == h@.len(),
    ensures
        targets_resolved(opt_view(fleet_id), opt_vec(fleet_homes), opt_vec(home_ids), home_known@, r),
{
    let mut target_ids: Vec<String> = Vec::new();
    if let Some(f) = fleet_id {
        match fleet_homes {
            None => {
                return Err(Problem::not_found("fleet", f));
            },
            Some(fh) => {
                target_ids = fh.clone();
                assert(target_ids@ =~= fh@);
            },
        }
    }
    let ghost base = target_ids@;
    assert(base == match (fleet_id, fleet_homes) {
        (Some(_), Some(fh)) => fh@,
        _ => Seq::<String>::empty(),
    });
    if let Some(h) = home_ids {
        let mut i: usize = 0;
        while i < h.len()
            invariant
                i <= h@.len(),
                home_known@.len() == h@.len(),
                first_unknown(home_known@, i as int) is None,
                target_ids@ == append_unique(base, h@.take(i as int)),
                !(fleet_id is Some && fleet_homes is None),
                base == match (fleet_id, fleet_homes) {
                    (Some(_), Some(fh)) => fh@,
                    _ => Seq::<String>::empty(),
                },
                home_ids == Some(h),
            decreases h.len() - i,
        {
            if !home_known[i] {
                proof {
                    assert(first_unknown(home_known@, i as int + 1) == Some(i as int));
                    lemma_first_unknown_stable(home_known@, i as int + 1, h@.len() as int);
                }
                return Err(Problem::not_found("home", h[i].as_str()));
            }
            let present = contains_str(&target_ids, h[i].as_str());
            proof {
                assert(h@.take(i + 1).drop_last() =~= h@.take(i as int));
                assert(h@.take(i + 1).last() == h@[i as int]);
            }
            if !present {
                target_ids.push(h[i].clone());
            }
            i = i + 1;
        }
        assert(h@.take(h@.len() as int) =~= h@);
    }
    if target_ids.len() == 0 && fleet_id.is_none() && home_ids.is_none() {
        return Err(Problem::validation(String::from_str("target must name a fleet_id and/or home_ids")));
    }
    Ok(sort_by_key(target_ids))
}

/// Once an unknown id is found, it stays the first unknown.
pub(crate) proof fn lemma_first_unknown_stable(known: Seq<bool>, a: int, b: int)
    requires
        a <= b,
        first_unknown(known, a) is Some,
    ensures
        first_unknown(known, b) == first_unknown(known, a),
    decreases b - a,
{
    if a < b {
        lemma_first_unknown_stable(known, a, b - 1);
    }
}

/// Whether `v` holds a string with the characters of `s`.
pub fn contains_str(v: &Vec<String>, s: &str) -> (r: bool)
    ensures
        r == has_str(v@, s@),
{
    let mut i: usize = 0;
    while i < v.len()
        invariant
            i <= v@.len(),
            forall|j: int| 0 <= j < i ==> (#[trigger] v@[j])@ != s@,
        decreases v.len() - i,
    {
        if str_eq(v[i].as_str(), s) {
            return true;
        }
        i = i + 1;
    }
    false
}

/// One planned target execution.
#[derive(Debug)]
pub struct TargetPlan {
    /// Home id.
    pub home_id: String,
    /// Assigned latency in milliseconds.
    pub latency_ms: u64,
    /// Tick at which the actions apply.
    pub execute_at_tick: u64,
    /// Timeout in ticks after the execution tick.
    pub timeout_ticks: u64,
}

/// Ticks of execution lag for a latency: `latency / (1000 * dt)` rounded up.
pub open spec fn lag_ticks(latency: u64, dt: u32) -> int {
    (latency + 1000 * dt - 1) / (1000 * dt as int)
}

/// The largest latency a latency model allows: 2000 ms by default, the
/// fixed value, or the top of the range (below `u64::MAX` when the range
/// reaches it).
pub open spec fn latency_cap(latency: Option<LatencySpec>) -> u64 {
    match latency {
        None => 2000,
        Some(LatencySpec::Fixed(ms)) => ms,
        Some(LatencySpec::Range { uniform }) => if uniform[0] >= uniform[1] {
            uniform[0]
        } else if uniform[1] == u64::MAX {
            (u64::MAX - 1) as u64
        } else {
            uniform[1]
        },
    }
}

/// The execution spec, if any, as a value.
pub open spec fn spec_value(spec: Option<&ExecutionSpec>) -> Option<ExecutionSpec> {
    match spec {
        Some(e) => Some(*e),
        None => None,
    }
}

/// Plan each resolved target: its latency, its execution tick (the
/// current tick plus the latency in ticks, rounded up), and the timeout in
/// ticks (default 30 s, rounded up). The tick plus the lag of the largest
/// latency the model allows must fit in a `u64`.
pub fn plan_targets(
    spec: Option<&ExecutionSpec>,
    command_id: &str,
    homes: &Vec<String>,
    tick: u64,
    dt_s: u32,
) -> (r: Vec<TargetPlan>)
    requires
        dt_s >= 1,
        tick + lag_ticks(latency_cap(latency_of(spec_value(spec))), dt_s) <= u64::MAX,
    ensures
        r@.len() == homes@.len(),
        forall|i: int|
            0 <= i < homes@.len() ==> {
                let p = #[trigger] r@[i];
                let lat = latency_spec(
                    latency_of(
                        match spec {
                            Some(e) => Some(*e),
                            None => None,
                        },
                    ),
                    xxh3_64_of(latency_key(command_id@, homes@[i]@)),
                );
                let timeout = match spec {
                    Some(e) => match e.timeout_s {
                        Some(t) => t,
                        None => 30,
                    },
                    None => 30,
                };
                &&& p.home_id@ == homes@[i]@
                &&& p.latency_ms == lat
                &&& p.execute_at_tick == tick + lag_ticks(lat, dt_s)
                &&& p.timeout_ticks == (timeout + dt_s - 1) / (dt_s as int)
            },
{
    let timeout_s: u64 = match spec {
        Some(e) => match e.timeout_s {
            Some(t) => t,
            None => 30,
        },
        None => 30,
    };
    let timeout_ticks = div_ceil(timeout_s, dt_s as u64);
    let unit: u64 = 1000 * (dt_s as u64);
    let mut out: Vec<TargetPlan> = Vec::new();
    let mut i: usize = 0;
    while i < homes.len()
        invariant
            i <= homes@.len(),
            out@.len() == i,
            dt_s >= 1,
            unit == 1000 * dt_s,
            tick + lag_ticks(latency_cap(latency_of(spec_value(spec))), dt_s) <= u64::MAX,
            timeout_ticks == (timeout_s + dt_s - 1) / (dt_s as int),
            timeout_s == match spec {
                Some(e) => match e.timeout_s {
                    Some(t) => t,
                    None => 30u64,
                },
                None => 30u64,
            },
            forall|j: int|
                0 <= j < i ==> {
                    let p = #[trigger] out@[j];
                    let lat = latency_spec(
                        latency_of(
                            match spec {
                                Some(e) => Some(*e),
                                None => None,
                            },
                        ),
                        xxh3_64_of(latency_key(command_id@, homes@[j]@)),
                    );
                    &&& p.home_id@ == homes@[j]@
                    &&& p.latency_ms == lat
                    &&& p.execute_at_tick == tick + lag_ticks(lat, dt_s)
                    &&& p.timeout_ticks == timeout_ticks
                },
        decreases homes.len() - i,
    {
        let lat = latency_ms(spec, command_id, homes[i].as_str());
        let lag = div_ceil(lat, unit);
        proof {
            let cap = latency_cap(latency_of(spec_value(spec)));
            assert(lat <= cap);
            vstd::arithmetic::div_mod::lemma_div_is_ordered(lat + unit - 1, cap + unit - 1, unit as int);
            assert(lag <= lag_ticks(cap, dt_s));
        }
        out.push(
            TargetPlan { home_id: homes[i].clone(), latency_ms: lat, execute_at_tick: tick + lag, timeout_ticks },
        );
        i = i + 1;
    }
    out
}

/// Poll URL of a command.
pub fn status_url(command_id: &str) -> (r: String)
    ensures
        r@ == "/v1/dispatch/commands/"@ + command_id@,
{
    concat2("/v1/dispatch/commands/", command_id)
}

/// Lowercase 16-digit zero-padded hex of a 64-bit hash (`{:016x}`).
pub open spec fn hex16(h: u64) -> Seq<char> {
    Seq::new(16, |i: int| hex_digit(((h as int) / pow16(15 - i)) as nat % 16))
}

/// 16 to the power `e`.
pub open spec fn pow16(e: int) -> int
    decreases e,
{
    if e <= 0 {
        1
    } else {
        16 * pow16(e - 1)
    }
}

/// `pow16` is positive and steps by 16.
proof fn lemma_pow16(e: int)
    requires
        0 <= e,
    ensures
        pow16(e) >= 1,
        pow16(e + 1) == 16 * pow16(e),
    decreases e,
{
    if e > 0 {
        lemma_pow16(e - 1);
    }
}

/// Lowercase 16-digit zero-padded hex of a 64-bit hash (`{:016x}`).
pub fn hash_hex16(h: u64) -> (r: String)
    ensures
        r@ == hex16(h),
{
    let mut s = String::new();
    let mut p: u64 = 0x1000_0000_0000_0000;
    proof {
        reveal_with_fuel(pow16, 16);
        assert(pow16(15) == 0x1000_0000_0000_0000);
    }
    let mut i: usize = 0;
    while i < 16
        invariant
            i <= 16,
            i < 16 ==> p == pow16(15 - i),
            p >= 1,
            s@.len() == i,
            forall|j: int| 0 <= j < i ==> s@[j] == hex_digit(((h as int) / pow16(15 - j)) as nat % 16),
        decreases 16 - i,
    {
        let d = ((h / p) % 16) as u8;
        crate::text::push_char(&mut s, crate::text::hex_char(d));
        if i < 15 {
            proof {
                lemma_pow16(14 - i as int);
                assert(p / 16 == pow16(14 - i as int)) by (nonlinear_arith)
                    requires
                        p == 16 * pow16(14 - i as int),
                ;
                assert(pow16(14 - i as int) >= 1);
            }
            p = p / 16;
        }
        i = i + 1;
    }
    assert(s@ =~= hex16(h));
    s
}

/// The acceptance document of a command already in the audit log.
pub fn replayed_acceptance(existing: &CommandDoc) -> (r: DispatchResponse)
    ensures
        r.command_id@ == existing.command_id@,
        r.accepted,
        r.targets == existing.targets@.len(),
        r.status == existing.status,
        r.status_url@ == "/v1/dispatch/commands/"@ + existing.command_id@,
{
    DispatchResponse {
        command_id: existing.command_id.clone(),
        accepted: true,
        targets: existing.targets.len(),
        status: existing.status,
        status_url: status_url(existing.command_id.as_str()),
    }
}

/// The acceptance document of a newly queued command.
pub fn queued_acceptance(command_id: &str, targets: usize) -> (r: DispatchResponse)
    ensures
        r.command_id@ == command_id@,
        r.accepted,
        r.targets == targets,
        r.status == CommandStatus::Queued,
        r.status_url@ == "/v1/dispatch/commands/"@ + command_id@,
{
    DispatchResponse {
        command_id: String::from_str(command_id),
        accepted: true,
        targets,
        status: CommandStatus::Queued,
        status_url: status_url(command_id),
    }
}

/// Command-id deduplication: a command already in the audit log is
/// answered with its original acceptance (and nothing is enqueued again);
/// `None` when the command is new.
pub fn existing_acceptance(store: &AuditStore, command_id: &str) -> (r: Option<DispatchResponse>)
    requires
        store.wf(),
    ensures
        match store.position_of(command_id@) {
            Some(i) => r matches Some(d) && {
                let rec = store.records_view()[i];
                &&& rec.command_id@ == command_id@
                &&& d.command_id@ == command_id@
                &&& d.accepted
                &&& d.targets == rec.targets@.len()
                &&& d.status == rec.status
                &&& d.status_url@ == "/v1/dispatch/commands/"@ + command_id@
            },
            None => r is None,
        },
{
    match store.get(command_id) {
        Some(existing) => Some(replayed_acceptance(existing)),
        None => None,
    }
}

/// A dispatch action as its planning reads it; the power, reserve and
/// curtailment amounts travel with the request and are applied as given.
#[derive(Debug, Clone, Copy, PartialEq, Eq, Structural)]
pub enum ActionRequest {
    /// Charge at the requested power, optionally for a duration (seconds).
    ChargeTo { duration_s: Option<u64> },
    /// Discharge at the requested power, optionally for a duration.
    DischargeTo { duration_s: Option<u64> },
    /// Set the reserve SOC to the requested value.
    SetReserveSoc,
    /// Switch operating mode.
    SetMode { mode: OperatingMode },
    /// Curtail PV by the requested percentage.
    CurtailPv,
    /// Clear every override.
    ClearOverride,
}

/// One engine step of a planned dispatch.
#[derive(Debug, Clone, Copy, PartialEq, Eq, Structural)]
pub enum PlannedStep {
    /// Switch the controller mode.
    Mode(ControlMode),
    /// Manual setpoint: charge at the requested power.
    ChargeSetpoint,
    /// Manual setpoint: discharge at the requested power.
    DischargeSetpoint,
    /// Manual setpoint of zero.
    ZeroSetpoint,
    /// Reserve SOC at the requested value.
    Reserve,
    /// PV curtailment at the requested fraction.
    Curtail,
    /// No PV curtailment.
    NoCurtail,
}

/// The steps a timed setpoint takes: manual mode and the setpoint at the
/// execution tick, then, with a duration, a zero setpoint and
/// self-consumption once the duration has elapsed (rounded up to whole
/// ticks).
pub open spec fn setpoint_steps(setpoint: PlannedStep, duration_s: Option<u64>, at: u64, dt_s: u32) -> Seq<(u64, PlannedStep)> {
    let head = seq![(at, PlannedStep::Mode(ControlMode::Manual)), (at, setpoint)];
    match duration_s {
        None => head,
        Some(d) => {
            let ticks = (d + dt_s - 1) / (dt_s as int);
            let back = if at + ticks > u64::MAX {
                u64::MAX
            } else {
                (at + ticks) as u64
            };
            head + seq![(back, PlannedStep::ZeroSetpoint), (back, PlannedStep::Mode(ControlMode::SelfConsumption))]
        },
    }
}

/// The engine steps of an action executed at tick `at`, each with its tick.
pub open spec fn action_steps(action: ActionRequest, at: u64, dt_s: u32) -> Seq<(u64, PlannedStep)> {
    match action {
        ActionRequest::ChargeTo { duration_s } => setpoint_steps(PlannedStep::ChargeSetpoint, duration_s, at, dt_s),
        ActionRequest::DischargeTo { duration_s } => setpoint_steps(
            PlannedStep::DischargeSetpoint,
            duration_s,
            at,
            dt_s,
        ),
        ActionRequest::SetReserveSoc => seq![(at, PlannedStep::Reserve)],
        ActionRequest::SetMode { mode } => seq![(at, PlannedStep::Mode(control_mode_spec(mode)))],
        ActionRequest::CurtailPv => seq![(at, PlannedStep::Curtail)],
        ActionRequest::ClearOverride => seq![
            (at, PlannedStep::NoCurtail),
            (at, PlannedStep::ZeroSetpoint),
            (at, PlannedStep::Mode(ControlMode::SelfConsumption)),
        ],
    }
}

fn push_setpoint_steps(out: &mut Vec<(u64, PlannedStep)>, setpoint: PlannedStep, duration_s: Option<u64>, at: u64, dt_s: u32)
    requires
        dt_s >= 1,
        old(out)@.len() == 0,
    ensures
        final(out)@ == setpoint_steps(setpoint, duration_s, at, dt_s),
{
    out.push((at, PlannedStep::Mode(ControlMode::Manual)));
    out.push((at, setpoint));
    if let Some(d) = duration_s {
        let ticks = div_ceil(d, dt_s as u64);
        let back = at.saturating_add(ticks);
        out.push((back, PlannedStep::ZeroSetpoint));
        out.push((back, PlannedStep::Mode(ControlMode::SelfConsumption)));
    }
    assert(out@ =~= setpoint_steps(setpoint, duration_s, at, dt_s));
}

/// Translates an action into the engine steps it takes, executed at tick
/// `at` with ticks of `dt_s` seconds (see [`action_steps`]), each tagged
/// with the command's `tag` (so that a cancellation can find them).
pub fn plan_actions(action: ActionRequest, at: u64, dt_s: u32, tag: u64) -> (r: Vec<(u64, PlannedStep, u64)>)
    requires
        dt_s >= 1,
    ensures
        r@.len() == action_steps(action, at, dt_s).len(),
        forall|i: int|
            0 <= i < r@.len() ==> (#[trigger] r@[i]).0 == action_steps(action, at, dt_s)[i].0 && r@[i].1
                == action_steps(action, at, dt_s)[i].1 && r@[i].2 == tag,
{
    let mut out: Vec<(u64, PlannedStep)> = Vec::new();
    match action {
        ActionRequest::ChargeTo { duration_s } => push_setpoint_steps(&mut out, PlannedStep::ChargeSetpoint, duration_s, at, dt_s),
        ActionRequest::DischargeTo { duration_s } => push_setpoint_steps(
            &mut out,
            PlannedStep::DischargeSetpoint,
            duration_s,
            at,
            dt_s,
        ),
        ActionRequest::SetReserveSoc => out.push((at, PlannedStep::Reserve)),
        ActionRequest::SetMode { mode } => out.push((at, PlannedStep::Mode(control_mode_of(mode)))),
        ActionRequest::CurtailPv => out.push((at, PlannedStep::Curtail)),
        ActionRequest::ClearOverride => {
            out.push((at, PlannedStep::NoCurtail));
            out.push((at, PlannedStep::ZeroSetpoint));
            out.push((at, PlannedStep::Mode(ControlMode::SelfConsumption)));
        },
    }
    assert(out@ =~= action_steps(action, at, dt_s));
    let mut tagged: Vec<(u64, PlannedStep, u64)> = Vec::new();
    let mut i: usize = 0;
    while i < out.len()
        invariant
            i <= out@.len(),
            tagged@.len() == i,
            forall|j: int|
                0 <= j < i ==> (#[trigger] tagged@[j]).0 == out@[j].0 && tagged@[j].1 == out@[j].1 && tagged@[j].2 == tag,
        decreases out.len() - i,
    {
        let (t, step) = out[i];
        tagged.push((t, step, tag));
        i += 1;
    }
    tagged
}

/// What is known of one candidate target when the request's filters run.
#[derive(Debug, Clone, Copy, PartialEq, Eq, Structural)]
pub struct TargetFacts {
    /// Whether the home still exists.
    pub known: bool,
    /// Its controller mode (read only when a mode filter is given).
    pub mode: ControlMode,
    /// Whether its SOC lies above the filter's floor (true without one).
    pub above_floor: bool,
    /// Whether its sampling bucket lies under the sampling percentage
    /// (true without sampling).
    pub sampled: bool,
}

/// Whether a candidate survives the filters: it exists, its mode (read
/// back in API terms) is among the requested modes when any are given, its
/// SOC clears the floor, and it is sampled in.
pub open spec fn target_kept(f: TargetFacts, modes: Option<Seq<OperatingMode>>) -> bool {
    &&& f.known
    &&& (modes matches Some(ms) ==> ms.contains(api_mode_spec(f.mode)))
    &&& f.above_floor
    &&& f.sampled
}

/// The positions among the first `k` candidates that survive the filters.
pub open spec fn kept_prefix(facts: Seq<TargetFacts>, modes: Option<Seq<OperatingMode>>, k: int) -> Seq<usize>
    decreases k,
{
    if k <= 0 {
        Seq::empty()
    } else {
        let p = kept_prefix(facts, modes, k - 1);
        if target_kept(facts[k - 1], modes) {
            p.push((k - 1) as usize)
        } else {
            p
        }
    }
}

fn mode_listed(modes: &Vec<OperatingMode>, m: OperatingMode) -> (r: bool)
    ensures
        r == modes@.contains(m),
{
    let mut i: usize = 0;
    while i < modes.len()
        invariant
            i <= modes.len(),
            forall|j: int| 0 <= j < i ==> modes@[j] != m,
        decreases modes.len() - i,
    {
        if modes[i] == m {
            assert(modes@[i as int] == m);
            return true;
        }
        i += 1;
    }
    false
}

/// Filters the candidate targets of a command: the positions of those
/// that survive (see [`target_kept`]), in order; a command left with no
/// target is refused as unprocessable.
pub fn filter_targets(facts: &Vec<TargetFacts>, modes: Option<&Vec<OperatingMode>>) -> (r: Result<Vec<usize>, Problem>)
    ensures
        ({
            let ms = match modes {
                Some(v) => Some(v@),
                None => None,
            };
            let kept = kept_prefix(facts@, ms, facts@.len() as int);
            &&& kept.len() > 0 ==> (r matches Ok(v) && v@ == kept)
            &&& kept.len() == 0 ==> (r matches Err(p) && p@ == problem_new_view(
                ProblemCode::Unprocessable,
                422,
                "Unprocessable request"@,
            ).with_detail("target resolution produced an empty set"@))
        }),
{
    let ghost ms = match modes {
        Some(v) => Some(v@),
        None => None,
    };
    let mut out: Vec<usize> = Vec::new();
    let mut i: usize = 0;
    while i < facts.len()
        invariant
            i <= facts.len(),
            ms == match modes {
                Some(v) => Some(v@),
                None => None::<Seq<OperatingMode>>,
            },
            out@ == kept_prefix(facts@, ms, i as int),
        decreases facts.len() - i,
    {
        let f = facts[i];
        let mode_ok = match modes {
            Some(v) => mode_listed(v, api_mode_of(f.mode)),
            None => true,
        };
        if f.known && mode_ok && f.above_floor && f.sampled {
            out.push(i);
        }
        i += 1;
    }
    if out.len() == 0 {
        return Err(Problem::unprocessable(String::from_str("target resolution produced an empty set")));
    }
    Ok(out)
}

/// What becomes of a queued target execution at a tick.
#[derive(Debug, Clone, Copy, PartialEq, Eq, Structural)]
pub enum PendingFate {
    /// Its execution tick has come: its outcome is measured now.
    Due,
    /// It was never applied and its timeout has passed.
    TimedOut,
    /// It keeps waiting.
    Waiting,
}

/// The fate at `tick` of an execution due at `execute_at` with `timeout`
/// ticks of grace (the deadline saturates at the largest tick).
pub open spec fn fate_spec(execute_at: u64, timeout: u64, tick: u64) -> PendingFate {
    let deadline = if execute_at + timeout > u64::MAX {
        u64::MAX as int
    } else {
        execute_at + timeout
    };
    if execute_at <= tick {
        PendingFate::Due
    } else if deadline < tick {
        PendingFate::TimedOut
    } else {
        PendingFate::Waiting
    }
}

/// Decides the fate of one queued execution (see [`fate_spec`]).
pub fn pending_fate(execute_at: u64, timeout: u64, tick: u64) -> (r: PendingFate)
    ensures
        r == fate_spec(execute_at, timeout, tick),
{
    if execute_at <= tick {
        PendingFate::Due
    } else if execute_at.saturating_add(timeout) < tick {
        PendingFate::TimedOut
    } else {
        PendingFate::Waiting
    }
}

/// The positions among the first `k` queued executions whose fate is `f`.
pub open spec fn fate_prefix(execute_at: Seq<u64>, timeouts: Seq<u64>, tick: u64, f: PendingFate, k: int) -> Seq<usize>
    decreases k,
{
    if k <= 0 {
        Seq::empty()
    } else {
        let p = fate_prefix(execute_at, timeouts, tick, f, k - 1);
        if fate_spec(execute_at[k - 1], timeouts[k - 1], tick) == f {
            p.push((k - 1) as usize)
        } else {
            p
        }
    }
}

/// The commands, each once in first-seen order, that have an execution
/// among the first `k` settling (due or timed out) at `tick`.
pub open spec fn settled_commands(
    commands: Seq<String>,
    execute_at: Seq<u64>,
    timeouts: Seq<u64>,
    tick: u64,
    k: int,
) -> Seq<String>
    decreases k,
{
    if k <= 0 {
        Seq::empty()
    } else {
        let p = settled_commands(commands, execute_at, timeouts, tick, k - 1);
        if fate_spec(execute_at[k - 1], timeouts[k - 1], tick) != PendingFate::Waiting && !has_str(
            p,
            commands[k - 1]@,
        ) {
            p.push(commands[k - 1])
        } else {
            p
        }
    }
}

/// The dispatch queue sorted at one tick.
#[derive(Debug)]
pub struct PendingSweep {
    /// Positions of the executions due now, in queue order.
    pub due: Vec<usize>,
    /// Positions of the executions that timed out, in queue order.
    pub timed_out: Vec<usize>,
    /// Positions of the executions still waiting, in queue order.
    pub waiting: Vec<usize>,
    /// The commands with a settled execution, once each in first-seen
    /// order: their rollups are recomputed.
    pub settled: Vec<String>,
}

/// Sorts the dispatch queue at `tick`: each queued execution (its command,
/// execution tick and timeout) is due, timed out or still waiting, and the
/// commands touched are collected for their rollups.
pub fn sweep_pending(commands: &Vec<String>, execute_at: &Vec<u64>, timeouts: &Vec<u64>, tick: u64) -> (r: PendingSweep)
    requires
        commands.len() == execute_at.len(),
        commands.len() == timeouts.len(),
    ensures
        r.due@ == fate_prefix(execute_at@, timeouts@, tick, PendingFate::Due, execute_at@.len() as int),
        r.timed_out@ == fate_prefix(execute_at@, timeouts@, tick, PendingFate::TimedOut, execute_at@.len() as int),
        r.waiting@ == fate_prefix(execute_at@, timeouts@, tick, PendingFate::Waiting, execute_at@.len() as int),
        r.settled@ == settled_commands(commands@, execute_at@, timeouts@, tick, commands@.len() as int),
{
    let mut due: Vec<usize> = Vec::new();
    let mut timed_out: Vec<usize> = Vec::new();
    let mut waiting: Vec<usize> = Vec::new();
    let mut settled: Vec<String> = Vec::new();
    let mut i: usize = 0;
    while i < execute_at.len()
        invariant
            i <= execute_at.len(),
            commands.len() == execute_at.len(),
            commands.len() == timeouts.len(),
            due@ == fate_prefix(execute_at@, timeouts@, tick, PendingFate::Due, i as int),
            timed_out@ == fate_prefix(execute_at@, timeouts@, tick, PendingFate::TimedOut, i as int),
            waiting@ == fate_prefix(execute_at@, timeouts@, tick, PendingFate::Waiting, i as int),
            settled@ == settled_commands(commands@, execute_at@, timeouts@, tick, i as int),
        decreases execute_at.len() - i,
    {
        let fate = pending_fate(execute_at[i], timeouts[i], tick);
        match fate {
            PendingFate::Due => due.push(i),
            PendingFate::TimedOut => timed_out.push(i),
            PendingFate::Waiting => waiting.push(i),
        }
        if fate != PendingFate::Waiting && !contains_str(&settled, commands[i].as_str()) {
            settled.push(commands[i].clone());
        }
        i += 1;
    }
    PendingSweep { due, timed_out, waiting, settled }
}

proof fn lemma_fate_prefix_members(execute_at: Seq<u64>, timeouts: Seq<u64>, tick: u64, f: PendingFate, k: int)
    requires
        0 <= k <= execute_at.len(),
        execute_at.len() == timeouts.len(),
        execute_at.len() <= usize::MAX,
    ensures
        forall|i: usize| #[trigger] fate_prefix(execute_at, timeouts, tick, f, k).contains(i) <==> (i < k
            && fate_spec(execute_at[i as int], timeouts[i as int], tick) == f),
    decreases k,
{
    if k > 0 {
        lemma_fate_prefix_members(execute_at, timeouts, tick, f, k - 1);
        let p = fate_prefix(execute_at, timeouts, tick, f, k - 1);
        let last = (k - 1) as usize;
        assert(last as int == k - 1);
        assert forall|i: usize| #[trigger] fate_prefix(execute_at, timeouts, tick, f, k).contains(i) <==> (i < k
            && fate_spec(execute_at[i as int], timeouts[i as int], tick) == f) by {
            if fate_spec(execute_at[k - 1], timeouts[k - 1], tick) == f {
                assert(fate_prefix(execute_at, timeouts, tick, f, k) == p.push(last));
                if p.push(last).contains(i) && i != last {
                    let j = choose|j: int| 0 <= j < p.push(last).len() && p.push(last)[j] == i;
                    assert(p.contains(i)) by {
                        assert(p[j] == i);
                    }
                }
                if p.contains(i) {
                    let j = choose|j: int| 0 <= j < p.len() && p[j] == i;
                    assert(p.push(last)[j] == i);
                }
                if i == last {
                    assert(p.push(last)[p.len() as int] == i);
                }
            }
        }
    }
}

/// Whether position `i` is in the list of fate `f` of a sweep of the
/// whole queue.
pub open spec fn in_sweep(execute_at: Seq<u64>, timeouts: Seq<u64>, tick: u64, f: PendingFate, i: usize) -> bool {
    fate_prefix(execute_at, timeouts, tick, f, execute_at.len() as int).contains(i)
}

/// Every queued execution lands in exactly one of a sweep's three lists,
/// and one that keeps waiting has neither come due nor passed its
/// deadline: nothing waits past its timeout.
pub proof fn law_sweep_partitions(execute_at: Seq<u64>, timeouts: Seq<u64>, tick: u64)
    requires
        execute_at.len() == timeouts.len(),
        execute_at.len() <= usize::MAX,
    ensures
        forall|i: usize|
            #![trigger in_sweep(execute_at, timeouts, tick, PendingFate::Due, i)]
            #![trigger in_sweep(execute_at, timeouts, tick, PendingFate::TimedOut, i)]
            #![trigger in_sweep(execute_at, timeouts, tick, PendingFate::Waiting, i)]
            i < execute_at.len() ==> {
                &&& in_sweep(execute_at, timeouts, tick, PendingFate::Due, i) || in_sweep(
                    execute_at,
                    timeouts,
                    tick,
                    PendingFate::TimedOut,
                    i,
                ) || in_sweep(execute_at, timeouts, tick, PendingFate::Waiting, i)
                &&& !(in_sweep(execute_at, timeouts, tick, PendingFate::Due, i) && in_sweep(
                    execute_at,
                    timeouts,
                    tick,
                    PendingFate::TimedOut,
                    i,
                ))
                &&& !(in_sweep(execute_at, timeouts, tick, PendingFate::Due, i) && in_sweep(
                    execute_at,
                    timeouts,
                    tick,
                    PendingFate::Waiting,
                    i,
                ))
                &&& !(in_sweep(execute_at, timeouts, tick, PendingFate::TimedOut, i) && in_sweep(
                    execute_at,
                    timeouts,
                    tick,
                    PendingFate::Waiting,
                    i,
                ))
                &&& in_sweep(execute_at, timeouts, tick, PendingFate::Waiting, i) ==> tick < execute_at[i as int]
                    && tick <= execute_at[i as int] + timeouts[i as int]
            },
{
    let n = execute_at.len() as int;
    lemma_fate_prefix_members(execute_at, timeouts, tick, PendingFate::Due, n);
    lemma_fate_prefix_members(execute_at, timeouts, tick, PendingFate::TimedOut, n);
    lemma_fate_prefix_members(execute_at, timeouts, tick, PendingFate::Waiting, n);
}

/// A sweep never times an execution out: one not yet due has its deadline
/// at or after its execution tick, so after the current tick. Executions
/// settle only by coming due.
pub proof fn law_sweep_never_times_out(execute_at: Seq<u64>, timeouts: Seq<u64>, tick: u64)
    requires
        execute_at.len() == timeouts.len(),
        execute_at.len() <= usize::MAX,
    ensures
        fate_prefix(execute_at, timeouts, tick, PendingFate::TimedOut, execute_at.len() as int).len() == 0,
{
    let n = execute_at.len() as int;
    let p = fate_prefix(execute_at, timeouts, tick, PendingFate::TimedOut, n);
    lemma_fate_prefix_members(execute_at, timeouts, tick, PendingFate::TimedOut, n);
    if p.len() > 0 {
        assert(p.contains(p[0]));
    }
}

/// The positions among the first `k` queued executions whose command tag
/// is (when `matching`) or is not `tag`.
pub open spec fn tagged_prefix(tags: Seq<u64>, tag: u64, matching: bool, k: int) -> Seq<usize>
    decreases k,
{
    if k <= 0 {
        Seq::empty()
    } else {
        let p = tagged_prefix(tags, tag, matching, k - 1);
        if (tags[k - 1] == tag) == matching {
            p.push((k - 1) as usize)
        } else {
            p
        }
    }
}

/// Splits the dispatch queue for a cancellation of the command tagged
/// `tag`: the positions of its executions (cancelled, each recorded as
/// such) and of the others (kept queued), both in queue order.
pub fn cancel_split(tags: &Vec<u64>, tag: u64) -> (r: (Vec<usize>, Vec<usize>))
    ensures
        r.0@ == tagged_prefix(tags@, tag, true, tags@.len() as int),
        r.1@ == tagged_prefix(tags@, tag, false, tags@.len() as int),
{
    let mut cancelled: Vec<usize> = Vec::new();
    let mut kept: Vec<usize> = Vec::new();
    let mut i: usize = 0;
    while i < tags.len()
        invariant
            i <= tags.len(),
            cancelled@ == tagged_prefix(tags@, tag, true, i as int),
            kept@ == tagged_prefix(tags@, tag, false, i as int),
        decreases tags.len() - i,
    {
        if tags[i] == tag {
            cancelled.push(i);
        } else {
            kept.push(i);
        }
        i += 1;
    }
    (cancelled, kept)
}

/// The audit entries of a command's planned targets: one queued entry per
/// plan, in plan order, with its home, its latency and the requested power
/// (as a bit pattern) of a power action.
pub fn queued_targets(plans: &Vec<TargetPlan>, requested_kw_bits: Option<u64>) -> (r: Vec<TargetExecution>)
    ensures
        r@.len() == plans@.len(),
        forall|i: int|
            0 <= i < plans@.len() ==> {
                let t = #[trigger] r@[i];
                &&& t.home_id@ == plans@[i].home_id@
                &&& t.status is None
                &&& t.requested_kw_bits == requested_kw_bits
                &&& t.applied_kw_bits is None
                &&& t.executed_at_sim_time is None
                &&& t.latency_ms == plans@[i].latency_ms
            },
{
    let mut out: Vec<TargetExecution> = Vec::new();
    let mut i: usize = 0;
    while i < plans.len()
        invariant
            i <= plans@.len(),
            out@.len() == i,
            forall|j: int|
                0 <= j < i ==> {
                    let t = #[trigger] out@[j];
                    &&& t.home_id@ == plans@[j].home_id@
                    &&& t.status is None
                    &&& t.requested_kw_bits == requested_kw_bits
                    &&& t.applied_kw_bits is None
                    &&& t.executed_at_sim_time is None
                    &&& t.latency_ms == plans@[j].latency_ms
                },
        decreases plans.len() - i,
    {
        let p = &plans[i];
        out.push(
            TargetExecution {
                home_id: crate::text::to_string_of(p.home_id.as_str()),
                status: None,
                requested_kw_bits,
                applied_kw_bits: None,
                executed_at_sim_time: None,
                latency_ms: p.latency_ms,
            },
        );
        i += 1;
    }
    out
}

/// A dispatch to every home of one fleet: the action as its planning
/// reads it (amounts travel with the request), the client's command id and
/// the execution shaping.
#[derive(Debug)]
pub struct FleetDispatchRequest {
    /// Client-supplied command id.
    pub command_id: Option<String>,
    /// Action.
    pub action: ActionRequest,
    /// Execution shaping.
    pub execution: Option<ExecutionSpec>,
}

/// Whether a latency request is a range given upside down.
pub open spec fn latency_misordered(l: Option<LatencySpec>) -> bool {
    l matches Some(LatencySpec::Range { uniform }) && uniform[0] > uniform[1]
}

/// What the first stage of a dispatch decides.
#[derive(Debug)]
pub enum DispatchAdmission {
    /// The command id is already in the log: the command is answered with
    /// its original acceptance and nothing is enqueued again.
    Replay(DispatchResponse),
    /// The request is admitted for these targets (sorted home ids).
    Proceed(Vec<String>),
}

/// The first stage of a dispatch, in this order: a command id already in
/// the log is answered from the log; then a latency range must be ordered;
/// then the numeric checks of the action and the target filters (run by
/// the caller, `value_problem` holding the first refusal among them); then
/// the target is resolved (see [`targets_resolved`]).
pub fn admit_dispatch(
    store: &AuditStore,
    command_id: &str,
    execution: Option<&ExecutionSpec>,
    value_problem: Option<Problem>,
    fleet_id: Option<&str>,
    fleet_homes: Option<&Vec<String>>,
    home_ids: Option<&Vec<String>>,
    home_known: &Vec<bool>,
) -> (r: Result<DispatchAdmission, Problem>)
    requires
        store.wf(),
        home_ids matches Some(h) ==> home_known@.len() == h@.len(),
    ensures
        match store.position_of(command_id@) {
            Some(i) => r matches Ok(DispatchAdmission::Replay(d)) && {
                let rec = store.records_view()[i];
                &&& d.command_id@ == command_id@
                &&& d.accepted
                &&& d.targets == rec.targets@.len()
                &&& d.status == rec.status
                &&& d.status_url@ == "/v1/dispatch/commands/"@ + command_id@
            },
            None => if latency_misordered(
                latency_of(
                    match execution {
                        Some(e) => Some(*e),
                        None => None,
                    },
                ),
            ) {
                r matches Err(p) && p@ == problem_new_view(ProblemCode::ValidationError, 400, "Validation error"@)
                    .with_detail("latency range must be ordered"@)
            } else if value_problem is Some {
                r == Err::<DispatchAdmission, Problem>(value_problem.unwrap())
            } else {
                ||| (r matches Ok(DispatchAdmission::Proceed(v)) && targets_resolved(
                    opt_view(fleet_id),
                    opt_vec(fleet_homes),
                    opt_vec(home_ids),
                    home_known@,
                    Ok::<Vec<String>, Problem>(v),
                ))
                ||| (r matches Err(p) && targets_resolved(
                    opt_view(fleet_id),
                    opt_vec(fleet_homes),
                    opt_vec(home_ids),
                    home_known@,
                    Err::<Vec<String>, Problem>(p),
                ))
            },
        },
{
    if let Some(d) = existing_acceptance(store, command_id) {
        return Ok(DispatchAdmission::Replay(d));
    }
    if let Err(p) = check_latency_order(execution) {
        return Err(p);
    }
    if let Some(p) = value_problem {
        return Err(p);
    }
    match resolve_target_ids(fleet_id, fleet_homes, home_ids, home_known) {
        Ok(v) => Ok(DispatchAdmission::Proceed(v)),
        Err(p) => Err(p),
    }
}

/// Whether `p` is the plan of home `p.home_id` for a command planned at
/// `tick` with ticks of `dt_s` seconds (see [`plan_targets`]).
pub open spec fn planned(spec: Option<ExecutionSpec>, command_id: Seq<char>, tick: u64, dt_s: u32, p: TargetPlan) -> bool {
    let lat = latency_spec(latency_of(spec), xxh3_64_of(latency_key(command_id, p.home_id@)));
    let timeout = match spec {
        Some(e) => match e.timeout_s {
            Some(t) => t,
            None => 30,
        },
        None => 30,
    };
    &&& p.latency_ms == lat
    &&& p.execute_at_tick == tick + lag_ticks(lat, dt_s)
    &&& p.timeout_ticks == (timeout + dt_s - 1) / (dt_s as int)
}

/// Whether `t` is the queued audit entry of plan `p`.
pub open spec fn queued_entry(t: TargetExecution, p: TargetPlan, requested_kw_bits: Option<u64>) -> bool {
    &&& t.home_id@ == p.home_id@
    &&& t.status is None
    &&& t.requested_kw_bits == requested_kw_bits
    &&& t.applied_kw_bits is None
    &&& t.executed_at_sim_time is None
    &&& t.latency_ms == p.latency_ms
}

proof fn lemma_kept_bounds(facts: Seq<TargetFacts>, modes: Option<Seq<OperatingMode>>, k: int)
    requires
        0 <= k <= facts.len(),
        facts.len() <= usize::MAX,
    ensures
        forall|j: int| 0 <= j < kept_prefix(facts, modes, k).len() ==> #[trigger] kept_prefix(facts, modes, k)[j] < k,
    decreases k,
{
    if k > 0 {
        lemma_kept_bounds(facts, modes, k - 1);
        let p = kept_prefix(facts, modes, k - 1);
        let last = (k - 1) as usize;
        assert(last as int == k - 1);
        if target_kept(facts[k - 1], modes) {
            assert forall|j: int| 0 <= j < p.push(last).len() implies #[trigger] p.push(last)[j] < k by {
                if j < p.len() {
                    assert(p.push(last)[j] == p[j]);
                }
            }
        }
    }
}

/// The second stage of a dispatch over the admitted targets: the filters
/// (see [`filter_targets`]), one plan per surviving home (see
/// [`plan_targets`]), the command's record appended to the audit log with
/// one queued entry per plan, and the acceptance. The caller enqueues the
/// plans' actions.
pub fn commit_dispatch(
    store: &mut AuditStore,
    command_id: &str,
    targets: &Vec<String>,
    facts: &Vec<TargetFacts>,
    modes: Option<&Vec<OperatingMode>>,
    execution: Option<&ExecutionSpec>,
    tick: u64,
    dt_s: u32,
    requested_kw_bits: Option<u64>,
    principal: String,
    idempotency_key: Option<String>,
    request_hash: String,
    request_json: String,
) -> (r: Result<(DispatchResponse, Vec<TargetPlan>), Problem>)
    requires
        old(store).wf(),
        old(store).has_room(),
        facts@.len() == targets@.len(),
        dt_s >= 1,
        tick + lag_ticks(latency_cap(latency_of(spec_value(execution))), dt_s) <= u64::MAX,
    ensures
        final(store).wf(),
        ({
            let ms = match modes {
                Some(v) => Some(v@),
                None => None,
            };
            let kept = kept_prefix(facts@, ms, facts@.len() as int);
            let spec = match execution {
                Some(e) => Some(*e),
                None => None,
            };
            &&& kept.len() == 0 ==> *final(store) == *old(store)
            &&& kept.len() == 0 ==> (r matches Err(p) && p@ == problem_new_view(
                ProblemCode::Unprocessable,
                422,
                "Unprocessable request"@,
            ).with_detail("target resolution produced an empty set"@))
            &&& kept.len() > 0 ==> (r matches Ok((d, plans)) && {
                &&& d.command_id@ == command_id@
                &&& d.accepted
                &&& d.targets == kept.len()
                &&& d.status == CommandStatus::Queued
                &&& d.status_url@ == "/v1/dispatch/commands/"@ + command_id@
                &&& plans@.len() == kept.len()
                &&& forall|i: int|
                    0 <= i < kept.len() ==> (#[trigger] plans@[i]).home_id@ == targets@[kept[i] as int]@ && planned(
                        spec,
                        command_id@,
                        tick,
                        dt_s,
                        plans@[i],
                    )
                &&& exists|rec: CommandDoc|
                    #[trigger] inserted(*old(store), *final(store), rec) && rec.command_id@ == command_id@ && rec.status
                        == CommandStatus::Queued && rec.principal == principal && rec.idempotency_key
                        == idempotency_key && rec.request_hash == request_hash && rec.request_json == request_json
                        && rec.targets@.len() == kept.len() && forall|i: int|
                        0 <= i < kept.len() ==> queued_entry(
                            #[trigger] rec.targets@[i],
                            plans@[i],
                            requested_kw_bits,
                        )
            })
        }),
{
    let kept = match filter_targets(facts, modes) {
        Ok(k) => k,
        Err(p) => return Err(p),
    };
    let ghost ms = match modes {
        Some(v) => Some(v@),
        None => None::<Seq<OperatingMode>>,
    };
    let fl = facts.len();
    proof {
        lemma_kept_bounds(facts@, ms, fl as int);
    }
    let mut homes: Vec<String> = Vec::new();
    let mut j: usize = 0;
    while j < kept.len()
        invariant
            j <= kept@.len(),
            homes@.len() == j,
            kept@ == kept_prefix(facts@, ms, facts@.len() as int),
            facts@.len() == targets@.len(),
            forall|a: int| 0 <= a < kept@.len() ==> #[trigger] kept@[a] < facts@.len(),
            forall|a: int| 0 <= a < j ==> (#[trigger] homes@[a])@ == targets@[kept@[a] as int]@,
        decreases kept.len() - j,
    {
        let k = kept[j];
        homes.push(crate::text::to_string_of(targets[k].as_str()));
        j += 1;
    }
    let plans = plan_targets(execution, command_id, &homes, tick, dt_s);
    let entries = queued_targets(&plans, requested_kw_bits);
    let rec = command_record(String::from_str(command_id), principal, idempotency_key, request_hash, request_json, entries);
    let ghost g = rec;
    store.insert(rec);
    let n = plans.len();
    let d = queued_acceptance(command_id, n);
    proof {
        assert(inserted(*old(store), *store, g));
        assert forall|i: int| 0 <= i < g.targets@.len() implies queued_entry(
            #[trigger] g.targets@[i],
            plans@[i],
            requested_kw_bits,
        ) by {
            assert(g.targets@[i] == entries@[i]);
        }
    }
    Ok((d, plans))
}

/// A command once committed is answered from the log: the log then holds
/// its record under its id, so a retried dispatch with that id is replayed
/// (see [`admit_dispatch`]) and never enqueued a second time.
pub proof fn law_committed_command_is_replayed(o: AuditStore, n: AuditStore, rec: CommandDoc)
    requires
        inserted(o, n, rec),
        crate::audit::within_retention(o),
    ensures
        n.position_of(rec.command_id@) is Some,
{
}

} // verus!
