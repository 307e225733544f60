//! Virtual-time control: the run-state machine (start, pause, resume,
//! stop), synchronous step and run-until admission, and the step report.

use vstd::prelude::*;
use vstd::string::*;

use crate::api::{SimState, StepResponse};
use crate::clock::{rfc3339_of, rfc3339_of_spec};
use crate::problem::{problem_new_view, Problem, ProblemCode};
use crate::text::{decimal, to_string_of};

verus! {

/// Run-state control commands.
#[derive(Debug, Clone, Copy, PartialEq, Eq, Structural)]
pub enum SimControl {
    /// Stopped -> Running.
    Start,
    /// Running -> Paused.
    Pause,
    /// Paused -> Running.
    Resume,
    /// Running or Paused -> Stopped.
    Stop,
}

/// The state a control command moves to from `s`, or the refusal message.
pub open spec fn control_outcome(s: SimState, c: SimControl) -> Result<SimState, Seq<char>> {
    match c {
        SimControl::Start => if s == SimState::Stopped {
            Ok(SimState::Running)
        } else {
            Err("simulation can only start from stopped"@)
        },
        SimControl::Pause => if s == SimState::Running {
            Ok(SimState::Paused)
        } else {
            Err("simulation is not running"@)
        },
        SimControl::Resume => if s == SimState::Paused {
            Ok(SimState::Running)
        } else {
            Err("simulation is not paused"@)
        },
        SimControl::Stop => if s == SimState::Stopped {
            Err("simulation is already stopped"@)
        } else {
            Ok(SimState::Stopped)
        },
    }
}

/// Apply a control command to the run state: on success the state moves
/// (and pacing restarts when it becomes `Running`, reported as `true`);
/// a refused command leaves the state unchanged.
pub fn apply_control(state: &mut SimState, c: SimControl) -> (r: Result<bool, String>)
    ensures
        match control_outcome(*old(state), c) {
            Ok(next) => *final(state) == next && r == Ok::<bool, String>(next == SimState::Running),
            Err(m) => *final(state) == *old(state) && (r matches Err(e) && e@ == m),
        },
{
    let (from, next, err) = match c {
        SimControl::Start => (SimState::Stopped, SimState::Running, "simulation can only start from stopped"),
        SimControl::Pause => (SimState::Running, SimState::Paused, "simulation is not running"),
        SimControl::Resume => (SimState::Paused, SimState::Running, "simulation is not paused"),
        SimControl::Stop => {
            if *state == SimState::Stopped {
                return Err(String::from_str("simulation is already stopped"));
            }
            *state = SimState::Stopped;
            return Ok(false);
        },
    };
    if *state == from {
        *state = next;
        Ok(next == SimState::Running)
    } else {
        Err(String::from_str(err))
    }
}

/// The problem a refused transition maps to: `sim-running` while the
/// simulation runs, else `sim-not-running`.
pub fn transition_error(msg: String, current: SimState) -> (r: Problem)
    ensures
        r@ == (if current == SimState::Running {
            problem_new_view(ProblemCode::SimRunning, 409, "Simulation is running"@)
        } else {
            problem_new_view(ProblemCode::SimNotRunning, 409, "Simulation is not running"@)
        }).with_detail(msg@),
{
    if current == SimState::Running {
        Problem::sim_running(msg)
    } else {
        Problem::sim_not_running(msg)
    }
}

/// Largest synchronous advance without `allow_large` (one sim-day of
/// 1-second ticks).
pub const MAX_SYNC_TICKS: u64 = 86400;

/// Ticks needed to reach `until` from `now` with `dt`-second ticks
/// (rounded up).
pub open spec fn ticks_to_reach(now: u64, until: u64, dt: u64) -> int {
    ((until - now) + dt - 1) / (dt as int)
}

/// Admission of a synchronous step of `ticks` in run state `state`.
pub fn admit_step(ticks: u64, allow_large: Option<bool>, state: SimState) -> (r: Result<(), Problem>)
    ensures
        r is Ok <==> (ticks >= 1 && (ticks <= MAX_SYNC_TICKS || allow_large == Some(true))
            && state == SimState::Paused),
        ticks == 0 ==> (r matches Err(p) && p@ == problem_new_view(
            ProblemCode::ValidationError,
            400,
            "Validation error"@,
        ).with_detail("ticks must be >= 1"@)),
        ticks >= 1 && ticks > MAX_SYNC_TICKS && allow_large != Some(true) ==> (r matches Err(p) && p@
            == problem_new_view(ProblemCode::ValidationError, 400, "Validation error"@).with_detail(
            "ticks is capped at "@ + decimal(86400) + " (one sim-day) unless allow_large=true"@,
        )),
        ticks >= 1 && (ticks <= MAX_SYNC_TICKS || allow_large == Some(true)) && state == SimState::Running
            ==> (r matches Err(p) && p@ == problem_new_view(ProblemCode::SimRunning, 409, "Simulation is running"@).with_detail(
            "pause the simulation before stepping"@,
        )),
        ticks >= 1 && (ticks <= MAX_SYNC_TICKS || allow_large == Some(true)) && state == SimState::Stopped
            ==> (r matches Err(p) && p@ == problem_new_view(
            ProblemCode::SimNotRunning,
            409,
            "Simulation is not running"@,
        ).with_detail("start and pause the simulation before stepping"@)),
{
    if ticks == 0 {
        return Err(Problem::validation(String::from_str("ticks must be >= 1")));
    }
    if ticks > MAX_SYNC_TICKS && allow_large != Some(true) {
        let mut m = String::from_str("ticks is capped at ");
        let n = crate::text::decimal_string(86400);
        m.append(n.as_str());
        m.append(" (one sim-day) unless allow_large=true");
        return Err(Problem::validation(m));
    }
    if state == SimState::Running {
        return Err(Problem::sim_running(String::from_str("pause the simulation before stepping")));
    }
    if state == SimState::Stopped {
        return Err(Problem::sim_not_running(String::from_str("start and pause the simulation before stepping")));
    }
    Ok(())
}

/// Admission of a run-until to `until` from sim time `now` with `dt`-second
/// ticks in run state `state`; on success, the ticks to advance.
pub fn admit_run_until(until: u64, now: u64, dt: u32, allow_large: Option<bool>, state: SimState) -> (r: Result<
    u64,
    Problem,
>)
    requires
        dt >= 1,
    ensures
        match r {
            Ok(t) => state == SimState::Paused && until > now && t == ticks_to_reach(now, until, dt as u64) && (t
                <= MAX_SYNC_TICKS || allow_large == Some(true)),
            Err(p) => !(state == SimState::Paused && until > now && (ticks_to_reach(now, until, dt as u64)
                <= MAX_SYNC_TICKS || allow_large == Some(true))) && (if state == SimState::Running {
                p@ == problem_new_view(ProblemCode::SimRunning, 409, "Simulation is running"@).with_detail(
                    "pause the simulation before run-until"@,
                )
            } else if state == SimState::Stopped {
                p@ == problem_new_view(ProblemCode::SimNotRunning, 409, "Simulation is not running"@).with_detail(
                    "start and pause the simulation before run-until"@,
                )
            } else if until <= now {
                p@ == problem_new_view(ProblemCode::ValidationError, 400, "Validation error"@).with_detail(
                    "until must be in the future"@,
                )
            } else {
                p@ == problem_new_view(ProblemCode::ValidationError, 400, "Validation error"@).with_detail(
                    "advance would exceed "@ + decimal(86400) + " ticks (one sim-day); pass allow_large=true"@,
                )
            }),
        },
{
    if state == SimState::Running {
        return Err(Problem::sim_running(String::from_str("pause the simulation before run-until")));
    }
    if state == SimState::Stopped {
        return Err(Problem::sim_not_running(String::from_str("start and pause the simulation before run-until")));
    }
    if until <= now {
        return Err(Problem::validation(String::from_str("until must be in the future")));
    }
    let ticks = div_ceil(until - now, dt as u64);
    if ticks > MAX_SYNC_TICKS && allow_large != Some(true) {
        let mut m = String::from_str("advance would exceed ");
        let n = crate::text::decimal_string(86400);
        m.append(n.as_str());
        m.append(" ticks (one sim-day); pass allow_large=true");
        return Err(Problem::validation(m));
    }
    Ok(ticks)
}

/// `a / b` rounded up.
pub fn div_ceil(a: u64, b: u64) -> (r: u64)
    requires
        b >= 1,
    ensures
        r == (a + b - 1) / (b as int),
{
    let q = a / b;
    let rem = a % b;
    proof {
        assert(a == b * q + rem) by (nonlinear_arith)
            requires
                q == a / b,
                rem == a % b,
                b >= 1,
        ;
        if rem == 0 {
            assert((a + b - 1) / (b as int) == q) by (nonlinear_arith)
                requires
                    a == b * q,
                    b >= 1,
            ;
        } else {
            assert((a + b - 1) / (b as int) == q + 1) by (nonlinear_arith)
                requires
                    a == b * q + rem,
                    1 <= rem < b,
            ;
            assert(q < 0xffff_ffff_ffff_ffffu64) by (nonlinear_arith)
                requires
                    a == b * q + rem,
                    1 <= rem < b,
                    a <= 0xffff_ffff_ffff_ffffu64,
                    q >= 0,
            ;
        }
    }
    if rem == 0 {
        q
    } else {
        q + 1
    }
}

/// Engine-side run-until: the ticks to advance from sim time `now` to
/// `until` with `dt`-second ticks, in a paused simulation.
pub fn run_until_ticks(state: SimState, now: u64, until: u64, dt: u32) -> (r: Result<u64, String>)
    requires
        dt >= 1,
    ensures
        match r {
            Ok(t) => state == SimState::Paused && until > now && t == ticks_to_reach(now, until, dt as u64),
            Err(m) => if state != SimState::Paused {
                m@ == "run-until requires a paused simulation"@
            } else {
                until <= now && m@ == "target time must be in the future"@
            },
        },
{
    if state != SimState::Paused {
        return Err(String::from_str("run-until requires a paused simulation"));
    }
    if until <= now {
        return Err(String::from_str("target time must be in the future"));
    }
    Ok(div_ceil(until - now, dt as u64))
}

/// Result of a synchronous advance.
#[derive(Debug, Clone)]
pub struct StepOutcome {
    /// Ticks executed.
    pub ticks: u64,
    /// Tick reached.
    pub tick: u64,
    /// Unix time reached.
    pub unix: u64,
    /// Wall milliseconds taken.
    pub wall_ms: u64,
}

/// The step report of an advance.
pub fn outcome_doc(o: &StepOutcome) -> (r: StepResponse)
    ensures
        r.sim_time@ == rfc3339_of_spec(o.unix),
        r.tick == o.tick,
        r.ticks_executed == o.ticks,
        r.wall_ms == o.wall_ms,
{
    StepResponse { sim_time: rfc3339_of(o.unix), tick: o.tick, ticks_executed: o.ticks, wall_ms: o.wall_ms }
}

/// Operations that change the world (home configuration, deleting homes
/// or fleets) are refused while the simulation runs.
pub fn require_not_running(state: SimState, detail: &str) -> (r: Result<(), Problem>)
    ensures
        state == SimState::Running ==> (r matches Err(p) && p@ == problem_new_view(
            ProblemCode::SimRunning,
            409,
            "Simulation is running"@,
        ).with_detail(detail@)),
        state != SimState::Running ==> r is Ok,
{
    if state == SimState::Running {
        Err(Problem::sim_running(to_string_of(detail)))
    } else {
        Ok(())
    }
}

/// Operations that rebind the world (scenario activation and
/// deactivation, backtest runs) require a stopped simulation.
pub fn require_stopped(state: SimState, detail: &str) -> (r: Result<(), Problem>)
    ensures
        state != SimState::Stopped ==> (r matches Err(p) && p@ == problem_new_view(
            ProblemCode::SimRunning,
            409,
            "Simulation is running"@,
        ).with_detail(detail@)),
        state == SimState::Stopped ==> r is Ok,
{
    if state != SimState::Stopped {
        Err(Problem::sim_running(to_string_of(detail)))
    } else {
        Ok(())
    }
}

/// Whether `id` names the active scenario.
pub open spec fn is_active_scenario(active: Option<String>, id: Seq<char>) -> bool {
    active matches Some(a) && a@ == id
}

/// Deactivate scenario `id` (`exists`: whether it is defined) given the
/// active scenario: the scenario must exist, the simulation must be
/// stopped, and it must be the active one, which then none is.
pub fn deactivate_scenario(active: &mut Option<String>, id: &str, exists: bool, state: SimState) -> (r: Result<
    (),
    Problem,
>)
    ensures
        !exists ==> (r matches Err(p) && p@ == problem_new_view(ProblemCode::NotFound, 404, "Not found"@).with_detail(
            "no "@ + "scenario"@ + " with id `"@ + id@ + "`"@,
        )),
        exists && state != SimState::Stopped ==> (r matches Err(p) && p@ == problem_new_view(
            ProblemCode::SimRunning,
            409,
            "Simulation is running"@,
        ).with_detail("scenario deactivation requires a stopped simulation"@)),
        exists && state == SimState::Stopped && !is_active_scenario(*old(active), id@) ==> (r matches Err(p)
            && p@ == problem_new_view(ProblemCode::Conflict, 409, "Conflict"@).with_detail(
            "scenario is not active"@,
        )),
        r is Ok <==> (exists && state == SimState::Stopped && is_active_scenario(*old(active), id@)),
        r is Ok ==> *final(active) is None,
        r is Err ==> *final(active) == *old(active),
{
    if !exists {
        return Err(Problem::not_found("scenario", id));
    }
    if state != SimState::Stopped {
        return Err(Problem::sim_running(String::from_str("scenario deactivation requires a stopped simulation")));
    }
    let is_active = match active {
        Some(a) => crate::text::str_eq(a.as_str(), id),
        None => false,
    };
    if !is_active {
        return Err(Problem::conflict(String::from_str("scenario is not active")));
    }
    *active = None;
    Ok(())
}

/// A refused control command leaves the run state as it was, and an
/// accepted one always lands in the state the command names.
pub proof fn law_control_total(s: SimState, c: SimControl)
    ensures
        control_outcome(s, c) matches Ok(n) ==> n == match c {
            SimControl::Start => SimState::Running,
            SimControl::Pause => SimState::Paused,
            SimControl::Resume => SimState::Running,
            SimControl::Stop => SimState::Stopped,
        },
        (control_outcome(s, c) is Ok) <==> match c {
            SimControl::Start => s == SimState::Stopped,
            SimControl::Pause => s == SimState::Running,
            SimControl::Resume => s == SimState::Paused,
            SimControl::Stop => s != SimState::Stopped,
        },
{
}

/// Pausing a running simulation and resuming it returns it to running;
/// stopping is accepted from every started state and is then refused.
pub proof fn law_pause_resume_stop(s: SimState)
    ensures
        s == SimState::Running ==> (control_outcome(s, SimControl::Pause) matches Ok(p) && control_outcome(
            p,
            SimControl::Resume,
        ) == Ok::<SimState, Seq<char>>(SimState::Running)),
        s != SimState::Stopped ==> (control_outcome(s, SimControl::Stop) matches Ok(t) && control_outcome(
            t,
            SimControl::Stop,
        ) is Err),
{
}

} // verus!
