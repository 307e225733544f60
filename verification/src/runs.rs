//! Backtests: validation of a run request (strategy schedule, ancillary
//! awards, 4CP candidates), the run state as the API reports it, and the
//! refusals of a settlement report request.

use vstd::prelude::*;
use vstd::string::*;

use crate::dispatch::ActionRequest;
use crate::problem::{problem_new_view, Problem, ProblemCode};
use crate::telemetry::{bound_spec, parse_labeled_time, refused_for, validation_view};
use crate::text::{concat2, concat3, decimal, decimal_string};

verus! {

/// Backtest lifecycle state.
#[derive(Debug, Clone)]
pub enum BacktestState {
    /// Run in progress.
    Running,
    /// Run settled; report available.
    Settled,
    /// Run failed, with the reason (e.g. a price coverage gap).
    Failed(String),
}

/// Shapes of the synthetic price profile.
#[derive(Debug, Clone, Copy, PartialEq, Eq, Structural)]
pub enum SyntheticProfile {
    /// Flat at the base price.
    Flat,
    /// Diurnal wave peaking in the late afternoon.
    SummerPeak,
}

/// The refusal of a settlement-report request for a live run, if any: a
/// failed run answers with its reason, a running one with the number of
/// intervals settled so far; a settled run has its report.
pub fn settlement_refusal(state: &BacktestState, intervals_settled: usize) -> (r: Option<Problem>)
    ensures
        match state {
            BacktestState::Settled => r is None,
            BacktestState::Failed(reason) => r matches Some(p) && p@ == problem_new_view(
                ProblemCode::Conflict,
                409,
                "Conflict"@,
            ).with_detail("backtest failed: "@ + reason@),
            BacktestState::Running => r matches Some(p) && p@ == problem_new_view(
                ProblemCode::Conflict,
                409,
                "Conflict"@,
            ).with_detail(
                "backtest is still running ("@ + decimal(intervals_settled as nat) + " intervals settled)"@,
            ),
        },
{
    match state {
        BacktestState::Settled => None,
        BacktestState::Failed(reason) => {
            let mut m = String::from_str("backtest failed: ");
            m.append(reason.as_str());
            Some(Problem::conflict(m))
        },
        BacktestState::Running => {
            let n = decimal_string(intervals_settled as u64);
            let m = concat3("backtest is still running (", n.as_str(), " intervals settled)");
            Some(Problem::conflict(m))
        },
    }
}

/// The refusal when a run is no longer live and kept no report.
pub fn no_report_problem() -> (r: Problem)
    ensures
        r@ == problem_new_view(ProblemCode::Conflict, 409, "Conflict"@).with_detail(
            "backtest has not settled and is no longer the active run"@,
        ),
{
    Problem::conflict(String::from_str("backtest has not settled and is no longer the active run"))
}

/// The state a run reports: the live engine state when the run is the
/// active one, else `settled` when a report was kept and `unknown (engine
/// rebound since this run)` otherwise.
pub open spec fn run_state_text(live: Option<BacktestState>, has_report: bool) -> Seq<char> {
    match live {
        Some(BacktestState::Running) => "running"@,
        Some(BacktestState::Settled) => "settled"@,
        Some(BacktestState::Failed(reason)) => "failed: "@ + reason@,
        None => if has_report {
            "settled"@
        } else {
            "unknown (engine rebound since this run)"@
        },
    }
}

/// The state label of a run (see [`run_state_text`]).
pub fn run_state_label(live: Option<&BacktestState>, has_report: bool) -> (r: String)
    ensures
        r@ == run_state_text(
            match live {
                Some(s) => Some(*s),
                None => None,
            },
            has_report,
        ),
{
    match live {
        Some(BacktestState::Running) => String::from_str("running"),
        Some(BacktestState::Settled) => String::from_str("settled"),
        Some(BacktestState::Failed(reason)) => concat2("failed: ", reason.as_str()),
        None => if has_report {
            String::from_str("settled")
        } else {
            String::from_str("unknown (engine rebound since this run)")
        },
    }
}

/// Where a run's settlement report is served.
pub fn settlement_url(run_id: &str) -> (r: String)
    ensures
        r@ == "/v1/backtests/"@ + run_id@ + "/settlement"@,
{
    concat3("/v1/backtests/", run_id, "/settlement")
}

/// The refusal of a backtest over a fleet that has no homes yet.
pub fn empty_fleet_problem(fleet_id: &str) -> (r: Problem)
    ensures
        r@ == problem_new_view(ProblemCode::Unprocessable, 422, "Unprocessable request"@).with_detail(
            "fleet "@ + fleet_id@ + " has no homes; expand it first"@,
        ),
{
    Problem::unprocessable(concat3("fleet ", fleet_id, " has no homes; expand it first"))
}

/// A validation problem whose detail is exactly `msg`.
fn exact_refusal(msg: String) -> (p: Problem)
    ensures
        p@ == validation_view(msg@),
{
    Problem::validation(msg)
}

/// One strategy entry: its start parses (label `strategy start`), lies in
/// the operating day `[start, end)`, and its power is positive and finite.
pub open spec fn schedule_entry_outcome(text: Seq<char>, kw_ok: bool, start: u64, end: u64) -> Result<u64, (Seq<char>, bool)> {
    match bound_spec("strategy start"@, Some(text), 0) {
        Err(m) => Err(m),
        Ok(u) => if u < start || u >= end {
            Err(("strategy entry `"@ + text + "` is outside the operating day"@, false))
        } else if !kw_ok {
            Err(("strategy kw must be positive and finite"@, false))
        } else {
            Ok(u)
        },
    }
}

/// The start times of the first `k` strategy entries, or the first
/// refusal among them.
pub open spec fn schedule_outcome(texts: Seq<String>, kw_ok: Seq<bool>, start: u64, end: u64, k: int) -> Result<
    Seq<u64>,
    (Seq<char>, bool),
>
    decreases k,
{
    if k <= 0 {
        Ok(Seq::empty())
    } else {
        match schedule_outcome(texts, kw_ok, start, end, k - 1) {
            Err(m) => Err(m),
            Ok(ts) => match schedule_entry_outcome(texts[k - 1]@, kw_ok[k - 1], start, end) {
                Err(m) => Err(m),
                Ok(u) => Ok(ts.push(u)),
            },
        }
    }
}

proof fn lemma_schedule_err_stable(texts: Seq<String>, kw_ok: Seq<bool>, start: u64, end: u64, j: int, n: int)
    requires
        0 <= j <= n,
        schedule_outcome(texts, kw_ok, start, end, j) is Err,
    ensures
        schedule_outcome(texts, kw_ok, start, end, n) == schedule_outcome(texts, kw_ok, start, end, j),
    decreases n - j,
{
    if n > j {
        lemma_schedule_err_stable(texts, kw_ok, start, end, j, n - 1);
    }
}

/// Validates a strategy schedule for the operating day `[start, end)`:
/// the entries' start times in request order, or the refusal of the first
/// bad entry (each entry's power given as whether it is positive and
/// finite).
pub fn schedule_times(texts: &Vec<String>, kw_ok: &Vec<bool>, start: u64, end: u64) -> (r: Result<Vec<u64>, Problem>)
    requires
        texts.len() == kw_ok.len(),
    ensures
        match schedule_outcome(texts@, kw_ok@, start, end, texts@.len() as int) {
            Ok(ts) => r matches Ok(v) && v@ == ts,
            Err(m) => r matches Err(p) && refused_for(p@, m),
        },
{
    let mut out: Vec<u64> = Vec::new();
    let mut i: usize = 0;
    while i < texts.len()
        invariant
            i <= texts.len(),
            texts.len() == kw_ok.len(),
            schedule_outcome(texts@, kw_ok@, start, end, i as int) == Ok::<Seq<u64>, (Seq<char>, bool)>(out@),
        decreases texts.len() - i,
    {
        let text = texts[i].as_str();
        let u = match parse_labeled_time(text, "strategy start") {
            Ok(u) => u,
            Err(p) => {
                proof {
                    lemma_schedule_err_stable(texts@, kw_ok@, start, end, i + 1, texts@.len() as int);
                }
                return Err(p);
            },
        };
        if u < start || u >= end {
            let m = concat3("strategy entry `", text, "` is outside the operating day");
            proof {
                lemma_schedule_err_stable(texts@, kw_ok@, start, end, i + 1, texts@.len() as int);
            }
            return Err(exact_refusal(m));
        }
        if !kw_ok[i] {
            proof {
                lemma_schedule_err_stable(texts@, kw_ok@, start, end, i + 1, texts@.len() as int);
            }
            return Err(exact_refusal(String::from_str("strategy kw must be positive and finite")));
        }
        out.push(u);
        i += 1;
    }
    Ok(out)
}

/// Whether entry `i` comes before entry `j` in time order, earlier
/// request position first among equal times.
pub open spec fn runs_before(times: Seq<u64>, i: int, j: int) -> bool {
    times[i] < times[j] || (times[i] == times[j] && i < j)
}

/// The positions of `times` in time order, ties kept in request order
/// (the order a stable sort by time leaves).
pub fn chronological_order(times: &Vec<u64>) -> (r: Vec<usize>)
    ensures
        r@.len() == times@.len(),
        forall|j: int| 0 <= j < r@.len() ==> r@[j] < times@.len(),
        forall|x: usize| x < times@.len() ==> #[trigger] r@.contains(x),
        forall|a: int, b: int| 0 <= a < b < r@.len() ==> runs_before(times@, r@[a] as int, r@[b] as int),
{
    let mut r: Vec<usize> = Vec::new();
    let mut i: usize = 0;
    while i < times.len()
        invariant
            i <= times.len(),
            r@.len() == i,
            forall|j: int| 0 <= j < r@.len() ==> r@[j] < i,
            forall|x: usize| x < i ==> #[trigger] r@.contains(x),
            forall|a: int, b: int| 0 <= a < b < r@.len() ==> runs_before(times@, r@[a] as int, r@[b] as int),
        decreases times.len() - i,
    {
        let t = times[i];
        let mut p: usize = 0;
        while p < r.len() && times[r[p]] <= t
            invariant
                p <= r@.len(),
                r@.len() == i,
                i < times.len(),
                t == times@[i as int],
                forall|j: int| 0 <= j < r@.len() ==> r@[j] < i,
                forall|q: int| 0 <= q < p ==> times@[r@[q] as int] <= t,
            decreases r@.len() - p,
        {
            p += 1;
        }
        let ghost old_r = r@;
        r.insert(p, i);
        proof {
            assert(r@ == old_r.insert(p as int, i));
            assert forall|a: int, b: int| 0 <= a < b < r@.len() implies runs_before(
                times@,
                r@[a] as int,
                r@[b] as int,
            ) by {
                if p < old_r.len() {
                    assert(times@[old_r[p as int] as int] > t);
                }
                if a < p as int && b < p as int {
                    assert(r@[a] == old_r[a] && r@[b] == old_r[b]);
                } else if a < p as int && b == p as int {
                    assert(r@[a] == old_r[a]);
                } else if a < p as int {
                    assert(r@[a] == old_r[a] && r@[b] == old_r[b - 1]);
                } else if a == p as int {
                    assert(r@[b] == old_r[b - 1]);
                    assert(runs_before(times@, old_r[p as int] as int, old_r[b - 1] as int) || b - 1 == p);
                } else {
                    assert(r@[a] == old_r[a - 1] && r@[b] == old_r[b - 1]);
                }
            }
            assert forall|x: usize| x < i + 1 implies #[trigger] r@.contains(x) by {
                if x < i {
                    assert(old_r.contains(x));
                    let j = choose|j: int| 0 <= j < old_r.len() && old_r[j] == x;
                    if j < p {
                        assert(r@[j] == x);
                    } else {
                        assert(r@[j + 1] == x);
                    }
                } else {
                    assert(r@[p as int] == i);
                }
            }
        }
        i += 1;
    }
    r
}

/// One ancillary-service award: its start and end parse (labels `as award
/// start` and `as award end`), the end comes after the start, and the
/// awarded power is positive and finite.
pub open spec fn award_outcome(start_text: Seq<char>, end_text: Seq<char>, mw_ok: bool) -> Result<(u64, u64), (Seq<char>, bool)> {
    match bound_spec("as award start"@, Some(start_text), 0) {
        Err(m) => Err(m),
        Ok(a) => match bound_spec("as award end"@, Some(end_text), 0) {
            Err(m) => Err(m),
            Ok(b) => if b <= a {
                Err(("as award end must be after start"@, false))
            } else if !mw_ok {
                Err(("awarded_mw must be positive and finite"@, false))
            } else {
                Ok((a, b))
            },
        },
    }
}

/// The windows of the first `k` awards, or the first refusal among them.
pub open spec fn awards_outcome(starts: Seq<String>, ends: Seq<String>, mw_ok: Seq<bool>, k: int) -> Result<
    Seq<(u64, u64)>,
    (Seq<char>, bool),
>
    decreases k,
{
    if k <= 0 {
        Ok(Seq::empty())
    } else {
        match awards_outcome(starts, ends, mw_ok, k - 1) {
            Err(m) => Err(m),
            Ok(ws) => match award_outcome(starts[k - 1]@, ends[k - 1]@, mw_ok[k - 1]) {
                Err(m) => Err(m),
                Ok(w) => Ok(ws.push(w)),
            },
        }
    }
}

proof fn lemma_awards_err_stable(starts: Seq<String>, ends: Seq<String>, mw_ok: Seq<bool>, j: int, n: int)
    requires
        0 <= j <= n,
        awards_outcome(starts, ends, mw_ok, j) is Err,
    ensures
        awards_outcome(starts, ends, mw_ok, n) == awards_outcome(starts, ends, mw_ok, j),
    decreases n - j,
{
    if n > j {
        lemma_awards_err_stable(starts, ends, mw_ok, j, n - 1);
    }
}

/// Validates ancillary-service awards: each award's `[start, end)` window
/// in request order, or the refusal of the first bad award (each award's
/// power given as whether it is positive and finite).
pub fn award_windows(starts: &Vec<String>, ends: &Vec<String>, mw_ok: &Vec<bool>) -> (r: Result<Vec<(u64, u64)>, Problem>)
    requires
        starts.len() == ends.len(),
        starts.len() == mw_ok.len(),
    ensures
        match awards_outcome(starts@, ends@, mw_ok@, starts@.len() as int) {
            Ok(ws) => r matches Ok(v) && v@ == ws,
            Err(m) => r matches Err(p) && refused_for(p@, m),
        },
{
    let mut out: Vec<(u64, u64)> = Vec::new();
    let mut i: usize = 0;
    while i < starts.len()
        invariant
            i <= starts.len(),
            starts.len() == ends.len(),
            starts.len() == mw_ok.len(),
            awards_outcome(starts@, ends@, mw_ok@, i as int) == Ok::<Seq<(u64, u64)>, (Seq<char>, bool)>(out@),
        decreases starts.len() - i,
    {
        let a = match parse_labeled_time(starts[i].as_str(), "as award start") {
            Ok(a) => a,
            Err(p) => {
                proof {
                    lemma_awards_err_stable(starts@, ends@, mw_ok@, i + 1, starts@.len() as int);
                }
                return Err(p);
            },
        };
        let b = match parse_labeled_time(ends[i].as_str(), "as award end") {
            Ok(b) => b,
            Err(p) => {
                proof {
                    lemma_awards_err_stable(starts@, ends@, mw_ok@, i + 1, starts@.len() as int);
                }
                return Err(p);
            },
        };
        if b <= a {
            proof {
                lemma_awards_err_stable(starts@, ends@, mw_ok@, i + 1, starts@.len() as int);
            }
            return Err(exact_refusal(String::from_str("as award end must be after start")));
        }
        if !mw_ok[i] {
            proof {
                lemma_awards_err_stable(starts@, ends@, mw_ok@, i + 1, starts@.len() as int);
            }
            return Err(exact_refusal(String::from_str("awarded_mw must be positive and finite")));
        }
        out.push((a, b));
        i += 1;
    }
    Ok(out)
}

/// The parsed times of the first `k` texts (each under `label`), or the
/// first refusal among them.
pub open spec fn times_outcome(texts: Seq<String>, label: Seq<char>, k: int) -> Result<Seq<u64>, (Seq<char>, bool)>
    decreases k,
{
    if k <= 0 {
        Ok(Seq::empty())
    } else {
        match times_outcome(texts, label, k - 1) {
            Err(m) => Err(m),
            Ok(ts) => match bound_spec(label, Some(texts[k - 1]@), 0) {
                Err(m) => Err(m),
                Ok(u) => Ok(ts.push(u)),
            },
        }
    }
}

proof fn lemma_times_err_stable(texts: Seq<String>, label: Seq<char>, j: int, n: int)
    requires
        0 <= j <= n,
        times_outcome(texts, label, j) is Err,
    ensures
        times_outcome(texts, label, n) == times_outcome(texts, label, j),
    decreases n - j,
{
    if n > j {
        lemma_times_err_stable(texts, label, j, n - 1);
    }
}

/// The 4CP configuration: the transmission rate must be non-negative and
/// finite, then every candidate interval must parse (label `4cp
/// candidate`).
pub open spec fn four_cp_outcome(rate_ok: bool, candidates: Seq<String>) -> Result<Seq<u64>, (Seq<char>, bool)> {
    if !rate_ok {
        Err(("transmission_rate_usd_per_kw_mo must be non-negative and finite"@, false))
    } else {
        times_outcome(candidates, "4cp candidate"@, candidates.len() as int)
    }
}

/// Validates a 4CP configuration (see [`four_cp_outcome`]): the candidate
/// intervals' start times in request order.
pub fn four_cp_candidates(rate_ok: bool, candidates: &Vec<String>) -> (r: Result<Vec<u64>, Problem>)
    ensures
        match four_cp_outcome(rate_ok, candidates@) {
            Ok(ts) => r matches Ok(v) && v@ == ts,
            Err(m) => r matches Err(p) && refused_for(p@, m),
        },
{
    if !rate_ok {
        return Err(exact_refusal(String::from_str("transmission_rate_usd_per_kw_mo must be non-negative and finite")));
    }
    let mut out: Vec<u64> = Vec::new();
    let mut i: usize = 0;
    while i < candidates.len()
        invariant
            i <= candidates.len(),
            rate_ok,
            times_outcome(candidates@, "4cp candidate"@, i as int) == Ok::<Seq<u64>, (Seq<char>, bool)>(out@),
        decreases candidates.len() - i,
    {
        let u = match parse_labeled_time(candidates[i].as_str(), "4cp candidate") {
            Ok(u) => u,
            Err(p) => {
                proof {
                    lemma_times_err_stable(candidates@, "4cp candidate"@, i + 1, candidates@.len() as int);
                }
                return Err(p);
            },
        };
        out.push(u);
        i += 1;
    }
    Ok(out)
}

/// One past the last strategy entry, counting from `next`, that is due at
/// `unix`: entries fire in schedule order while their time has come.
pub open spec fn due_end(schedule: Seq<u64>, next: int, unix: u64) -> int
    decreases schedule.len() - next,
{
    if 0 <= next < schedule.len() && schedule[next] <= unix {
        due_end(schedule, next + 1, unix)
    } else {
        next
    }
}

/// What a running backtest does at the start of a tick.
#[derive(Debug, Clone, Copy, PartialEq, Eq, Structural)]
pub struct TickDecision {
    /// The strategy entries from the next unfired one up to (excluding)
    /// this position fire now, in schedule order.
    pub fire_to: usize,
    /// Whether the open settlement interval closes now.
    pub close_interval: bool,
}

/// Decides the start of a backtest tick at `unix`: which strategy entries
/// fire (from `next_entry` on, while due) and whether the open settlement
/// interval, started at `interval_start`, closes on this interval
/// boundary.
pub fn plan_backtest_tick(schedule: &Vec<u64>, next_entry: usize, interval_start: u64, interval_secs: u64, unix: u64) -> (r: TickDecision)
    requires
        next_entry <= schedule.len(),
        interval_secs > 0,
    ensures
        r.fire_to == due_end(schedule@, next_entry as int, unix),
        next_entry <= r.fire_to <= schedule@.len(),
        forall|i: int| next_entry <= i < r.fire_to ==> schedule@[i] <= unix,
        r.fire_to < schedule@.len() ==> schedule@[r.fire_to as int] > unix,
        r.close_interval == (unix % interval_secs == 0 && unix > interval_start),
{
    let mut k = next_entry;
    while k < schedule.len() && schedule[k] <= unix
        invariant
            next_entry <= k <= schedule@.len(),
            due_end(schedule@, k as int, unix) == due_end(schedule@, next_entry as int, unix),
            forall|i: int| next_entry <= i < k ==> schedule@[i] <= unix,
        decreases schedule.len() - k,
    {
        k += 1;
    }
    TickDecision { fire_to: k, close_interval: unix % interval_secs == 0 && unix > interval_start }
}

/// Whether a backtest run goes on after a tick, or ends.
#[derive(Debug, Clone, Copy, PartialEq, Eq, Structural)]
pub enum RunEnd {
    /// The run goes on: meter deltas of this step accumulate.
    Continue,
    /// The run ends now and settles; an interval still open closes first.
    Finish { close_open_interval: bool },
}

/// Decides, once a tick's interval close is done, whether the run ends:
/// it ends when `unix` reaches `end_unix`, closing the interval still open
/// (started before `unix`) first.
pub fn plan_backtest_end(interval_start: u64, end_unix: u64, unix: u64) -> (r: RunEnd)
    ensures
        unix >= end_unix ==> r == (RunEnd::Finish { close_open_interval: interval_start < unix }),
        unix < end_unix ==> r == RunEnd::Continue,
{
    if unix >= end_unix {
        RunEnd::Finish { close_open_interval: interval_start < unix }
    } else {
        RunEnd::Continue
    }
}

/// With a schedule in time order, a tick fires every unfired entry whose
/// time has come and no other: the entries left unfired all lie after
/// `unix`.
pub proof fn law_due_entries_fire(schedule: Seq<u64>, next: int, unix: u64)
    requires
        0 <= next <= schedule.len(),
        forall|i: int, j: int| 0 <= i <= j < schedule.len() ==> schedule[i] <= schedule[j],
    ensures
        next <= due_end(schedule, next, unix) <= schedule.len(),
        forall|i: int| next <= i < due_end(schedule, next, unix) ==> schedule[i] <= unix,
        forall|i: int| due_end(schedule, next, unix) <= i < schedule.len() ==> schedule[i] > unix,
    decreases schedule.len() - next,
{
    if next < schedule.len() && schedule[next] <= unix {
        law_due_entries_fire(schedule, next + 1, unix);
    }
}

/// One entry of a backtest's strategy schedule: when it fires and the
/// action it applies to every home (its power travels with the request).
#[derive(Debug, Clone, Copy, PartialEq, Eq, Structural)]
pub struct StrategyEntry {
    /// Unix time at which the action fires.
    pub unix: u64,
    /// Action to apply.
    pub action: ActionRequest,
}

} // verus!
