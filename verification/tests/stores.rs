use batsim::api::{CommandStatus, TargetStatus};
use batsim::audit::{AuditStore, CommandDoc, TargetExecution};
use batsim::idem::{IdemRecord, IdemReservation, IdemStore};
use batsim::audit::{cancel_admission, command_record};
use batsim::api::{ControlMode, ExecutionSpec, LatencySpec};
use batsim::dispatch::{admit_dispatch, commit_dispatch, existing_acceptance, DispatchAdmission, TargetFacts};
use batsim::idem::{outlives, reservation_refusal};
use batsim::problem::ProblemCode;

fn target(home: &str) -> TargetExecution {
    TargetExecution {
        home_id: home.to_owned(),
        status: None,
        requested_kw_bits: None,
        applied_kw_bits: None,
        executed_at_sim_time: None,
        latency_ms: 0,
    }
}

fn command(id: &str, homes: &[&str]) -> CommandDoc {
    CommandDoc {
        command_id: id.to_owned(),
        status: CommandStatus::Queued,
        created_at: "2025-01-01T00:00:00Z".to_owned(),
        principal: "local".to_owned(),
        idempotency_key: None,
        request_hash: "00".to_owned(),
        request_json: "{}".to_owned(),
        targets: homes.iter().map(|h| target(h)).collect(),
    }
}

fn insert(store: &mut AuditStore, doc: CommandDoc) {
    assert!(store.can_insert());
    store.insert(doc);
}

#[test]
fn audit_insert_then_get_and_retention() {
    let mut store = AuditStore::new(2);
    insert(&mut store, command("cmd_a", &["home_1"]));
    insert(&mut store, command("cmd_b", &["home_1"]));
    assert_eq!(store.get("cmd_a").map(|c| c.command_id.as_str()), Some("cmd_a"));
    assert!(store.contains("cmd_b"));
    insert(&mut store, command("cmd_c", &["home_1"]));
    assert!(!store.contains("cmd_a"), "oldest record is dropped at the cap");
    assert!(store.get("cmd_a").is_none());
    let ids: Vec<&str> = store.records().iter().map(|c| c.command_id.as_str()).collect();
    assert_eq!(ids, vec!["cmd_b", "cmd_c"]);
}

#[test]
fn audit_rollup_follows_target_outcomes() {
    let mut store = AuditStore::new(10);
    insert(&mut store, command("cmd_x", &["home_1", "home_2"]));
    assert_eq!(store.rollup("cmd_x"), Some((0, 0, false)));
    assert_eq!(store.get("cmd_x").unwrap().status, CommandStatus::Queued);

    store.record_target("cmd_x", 0, TargetStatus::Applied, Some(2.5f64.to_bits()), Some("t1".to_owned()));
    assert_eq!(store.rollup("cmd_x"), Some((1, 0, false)));
    assert_eq!(store.get("cmd_x").unwrap().status, CommandStatus::InFlight);
    assert_eq!(store.get("cmd_x").unwrap().targets[0].applied_kw_bits, Some(2.5f64.to_bits()));

    store.record_target("cmd_x", 1, TargetStatus::Rejected, None, None);
    assert_eq!(store.rollup("cmd_x"), Some((1, 1, true)));
    assert_eq!(store.get("cmd_x").unwrap().status, CommandStatus::CompletedWithErrors);

    assert_eq!(store.rollup("cmd_missing"), None);
}

#[test]
fn audit_cancel_marks_queued_targets() {
    let mut store = AuditStore::new(10);
    insert(&mut store, command("cmd_c", &["home_1", "home_2"]));
    store.mark_queued_cancelled("cmd_c");
    assert_eq!(store.rollup("cmd_c"), Some((0, 2, true)));
    assert_eq!(store.get("cmd_c").unwrap().status, CommandStatus::Cancelled);

    let mut store = AuditStore::new(10);
    insert(&mut store, command("cmd_d", &["home_1"]));
    store.record_target("cmd_d", 0, TargetStatus::Applied, None, None);
    store.rollup("cmd_d");
    assert_eq!(store.get("cmd_d").unwrap().status, CommandStatus::Completed);
}

fn record(hash: u64, body: &str) -> IdemRecord {
    IdemRecord { body_hash: hash, status: 202, body_json: body.to_owned(), created: std::time::Instant::now() }
}

#[test]
fn idempotency_reserve_complete_replay() {
    let mut store = IdemStore::new(24);
    assert!(matches!(store.reserve("key-1", 7), IdemReservation::Reserved));
    assert!(matches!(store.reserve("key-1", 7), IdemReservation::InFlight));
    store.complete("key-1", record(7, "{\"ok\":true}"));
    match store.reserve("key-1", 7) {
        IdemReservation::Replay(r) => {
            assert_eq!(r.status, 202);
            assert_eq!(r.body_json, "{\"ok\":true}");
        },
        other => panic!("expected replay, got {other:?}"),
    }
    assert!(matches!(store.reserve("key-1", 8), IdemReservation::ConflictReuse));
    assert_eq!(store.get("key-1").map(|r| r.body_hash), Some(7));
}

#[test]
fn idempotency_replays_leave_the_key_replayable() {
    let mut store = IdemStore::new(24);
    assert!(matches!(store.reserve("key-2", 9), IdemReservation::Reserved));
    store.complete("key-2", record(9, "{\"n\":1}"));
    for _ in 0..3 {
        match store.reserve("key-2", 9) {
            IdemReservation::Replay(r) => assert_eq!(r.body_json, "{\"n\":1}"),
            other => panic!("expected replay, got {other:?}"),
        }
    }
    assert!(matches!(store.reserve_with("key-2", 9, false), IdemReservation::Replay(_)));
    assert!(matches!(store.reserve("key-2", 10), IdemReservation::ConflictReuse));
    assert!(matches!(store.reserve("key-2", 9), IdemReservation::Replay(_)));
}

#[test]
fn idempotency_abort_frees_the_key() {
    let mut store = IdemStore::new(1);
    assert!(matches!(store.reserve("k", 1), IdemReservation::Reserved));
    store.abort("k");
    assert!(matches!(store.reserve("k", 2), IdemReservation::Reserved));
    assert!(store.get("k").is_none());
}

#[test]
fn idempotency_expired_records_are_dropped() {
    let mut store = IdemStore::new(24);
    store.put("k".to_owned(), record(3, "{}"));
    assert!(store.get_with("k", false).is_some());
    assert!(store.get_with("k", true).is_none());
    assert!(store.get("k").is_none());

    store.put("j".to_owned(), record(3, "{}"));
    assert!(matches!(store.reserve_with("j", 4, true), IdemReservation::Reserved));
    let fresh = record(5, "{}");
    assert!(!store.is_expired(&fresh));
}

#[test]
fn cancellation_requires_an_unfinished_command() {
    let mut store = AuditStore::new(10);
    insert(&mut store, command("cmd_open", &["home_1"]));
    let mut done = command("cmd_done", &["home_1"]);
    done.status = CommandStatus::CompletedWithErrors;
    insert(&mut store, done);
    assert!(cancel_admission(&store, "cmd_open").is_ok());
    let p = cancel_admission(&store, "cmd_done").unwrap_err();
    assert_eq!(p.code, ProblemCode::Conflict);
    assert_eq!(p.detail.as_deref(), Some("command cmd_done is already CompletedWithErrors"));
    let p = cancel_admission(&store, "cmd_missing").unwrap_err();
    assert_eq!(p.detail.as_deref(), Some("no command with id `cmd_missing`"));
}

#[test]
fn new_command_records_are_queued() {
    let r = command_record(
        "cmd_n".to_owned(),
        "local".to_owned(),
        Some("key-1".to_owned()),
        "00ff".to_owned(),
        "{}".to_owned(),
        vec![target("home_1")],
    );
    assert_eq!(r.status, CommandStatus::Queued);
    assert_eq!(r.command_id, "cmd_n");
    assert_eq!(r.idempotency_key.as_deref(), Some("key-1"));
    assert!(r.created_at.ends_with('Z'));
    assert_eq!(r.targets.len(), 1);
}

#[test]
fn reservation_outcomes_map_to_refusals() {
    let p = reservation_refusal(&IdemReservation::ConflictReuse).unwrap();
    assert_eq!(p.code, ProblemCode::IdempotencyKeyReuse);
    assert_eq!(p.status, 409);
    assert_eq!(p.title, "Idempotency key reuse");
    let p = reservation_refusal(&IdemReservation::InFlight).unwrap();
    assert_eq!(p.code, ProblemCode::Conflict);
    assert_eq!(
        p.detail.as_deref(),
        Some("a request with this idempotency key is still executing; retry once it completes")
    );
    assert!(reservation_refusal(&IdemReservation::Reserved).is_none());
    assert!(reservation_refusal(&IdemReservation::Replay(record(1, "{}"))).is_none());
}

#[test]
fn retried_commands_are_answered_from_the_log() {
    let mut store = AuditStore::new(10);
    assert!(existing_acceptance(&store, "cmd_r").is_none());
    insert(&mut store, command("cmd_r", &["home_1", "home_2"]));
    let d = existing_acceptance(&store, "cmd_r").unwrap();
    assert_eq!(d.targets, 2);
    assert_eq!(d.status, CommandStatus::Queued);
    assert_eq!(d.status_url, "/v1/dispatch/commands/cmd_r");
}

#[test]
fn a_record_expires_only_strictly_after_its_ttl() {
    assert!(!outlives(3600, 0, 3600));
    assert!(outlives(3600, 1, 3600));
    assert!(outlives(3601, 0, 3600));
    assert!(!outlives(3599, 999_999_999, 3600));
}

#[test]
fn a_log_keeps_its_newest_records_by_id() {
    let mut log = AuditStore::new(2);
    for id in ["cmd_1", "cmd_2", "cmd_3"] {
        log.insert(command(id, &["home_a"]));
    }
    let ids: Vec<&str> = log.records().iter().map(|r| r.command_id.as_str()).collect();
    assert_eq!(ids, vec!["cmd_2", "cmd_3"]);
    assert!(log.get("cmd_1").is_none());
    assert_eq!(log.get("cmd_3").unwrap().command_id, "cmd_3");
    assert!(log.contains("cmd_2"));
}

fn strings(v: &[&str]) -> Vec<String> {
    v.iter().map(|s| s.to_string()).collect()
}

fn all_in(n: usize) -> Vec<TargetFacts> {
    vec![TargetFacts { known: true, mode: ControlMode::SelfConsumption, above_floor: true, sampled: true }; n]
}

#[test]
fn dispatch_is_admitted_committed_and_then_replayed() {
    let mut store = AuditStore::new(10);
    let homes = strings(&["home_b", "home_a"]);
    let admitted = admit_dispatch(&store, "cmd_1", None, None, None, None, Some(&homes), &vec![true, true]).unwrap();
    let targets = match admitted {
        DispatchAdmission::Proceed(t) => t,
        DispatchAdmission::Replay(_) => panic!("new command replayed"),
    };
    assert_eq!(targets, strings(&["home_a", "home_b"]));
    let fixed = ExecutionSpec { latency_ms: Some(LatencySpec::Fixed(1000)), timeout_s: None, ramp: None };
    let (resp, plans) = commit_dispatch(
        &mut store,
        "cmd_1",
        &targets,
        &all_in(2),
        None,
        Some(&fixed),
        100,
        1,
        None,
        "local".to_string(),
        None,
        "abcd".to_string(),
        "{}".to_string(),
    )
    .unwrap();
    assert_eq!(resp.targets, 2);
    assert_eq!(resp.status, CommandStatus::Queued);
    assert_eq!(plans[0].home_id, "home_a");
    assert_eq!(plans[0].execute_at_tick, 101);
    assert_eq!(store.get("cmd_1").unwrap().targets.len(), 2);

    // A retry with the same command id is answered from the log, even with
    // another target, and nothing new is planned.
    let again = admit_dispatch(&store, "cmd_1", None, None, None, None, None, &vec![]).unwrap();
    match again {
        DispatchAdmission::Replay(d) => {
            assert_eq!(d.command_id, "cmd_1");
            assert_eq!(d.targets, 2);
            assert_eq!(d.status_url, "/v1/dispatch/commands/cmd_1");
        },
        DispatchAdmission::Proceed(_) => panic!("retry admitted twice"),
    }
}

#[test]
fn dispatch_admission_checks_run_in_order() {
    let store = AuditStore::new(10);
    let upside_down = ExecutionSpec { latency_ms: Some(LatencySpec::Range { uniform: [500, 100] }), timeout_s: None, ramp: None };
    let p = admit_dispatch(&store, "cmd_2", Some(&upside_down), None, None, None, None, &vec![]).unwrap_err();
    assert_eq!(p.detail.as_deref(), Some("latency range must be ordered"));
    let value = batsim::problem::Problem::validation("kw must be finite and > 0".to_string());
    let p = admit_dispatch(&store, "cmd_2", None, Some(value), None, None, None, &vec![]).unwrap_err();
    assert_eq!(p.detail.as_deref(), Some("kw must be finite and > 0"));
    let p = admit_dispatch(&store, "cmd_2", None, None, None, None, None, &vec![]).unwrap_err();
    assert_eq!(p.detail.as_deref(), Some("target must name a fleet_id and/or home_ids"));
    let p = admit_dispatch(&store, "cmd_2", None, None, Some("flt_x"), None, None, &vec![]).unwrap_err();
    assert_eq!(p.code, ProblemCode::NotFound);
}

#[test]
fn a_dispatch_whose_filters_keep_nothing_is_refused_and_not_logged() {
    let mut store = AuditStore::new(10);
    let targets = strings(&["home_a"]);
    let facts = vec![TargetFacts { known: true, mode: ControlMode::Idle, above_floor: false, sampled: true }];
    let p = commit_dispatch(
        &mut store, "cmd_3", &targets, &facts, None, None, 0, 1, None, "local".to_string(), None, "00".to_string(), "{}".to_string(),
    )
    .unwrap_err();
    assert_eq!(p.status, 422);
    assert!(store.get("cmd_3").is_none());
}
