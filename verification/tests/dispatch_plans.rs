use batsim::api::{ControlMode, OperatingMode};
use batsim::dispatch::{
    cancel_split, filter_targets, queued_targets, TargetPlan, pending_fate, plan_actions, sweep_pending, ActionRequest, PendingFate, PlannedStep, TargetFacts,
};

fn steps(action: ActionRequest, at: u64, dt_s: u32) -> Vec<(u64, PlannedStep)> {
    let v = plan_actions(action, at, dt_s, 42);
    assert!(v.iter().all(|s| s.2 == 42), "every step carries the command tag");
    v.into_iter().map(|(t, s, _)| (t, s)).collect()
}

#[test]
fn timed_charge_reverts_after_its_duration_in_whole_ticks() {
    let steps = steps(ActionRequest::ChargeTo { duration_s: Some(61) }, 100, 10);
    assert_eq!(
        steps,
        vec![
            (100, PlannedStep::Mode(ControlMode::Manual)),
            (100, PlannedStep::ChargeSetpoint),
            (107, PlannedStep::ZeroSetpoint),
            (107, PlannedStep::Mode(ControlMode::SelfConsumption)),
        ]
    );
}

#[test]
fn untimed_discharge_holds() {
    let steps = steps(ActionRequest::DischargeTo { duration_s: None }, 5, 1);
    assert_eq!(steps, vec![(5, PlannedStep::Mode(ControlMode::Manual)), (5, PlannedStep::DischargeSetpoint)]);
}

#[test]
fn revert_tick_saturates() {
    let steps = steps(ActionRequest::DischargeTo { duration_s: Some(3) }, u64::MAX - 1, 1);
    assert_eq!(steps[2], (u64::MAX, PlannedStep::ZeroSetpoint));
}

#[test]
fn other_actions_plan_at_the_execution_tick() {
    assert_eq!(steps(ActionRequest::SetReserveSoc, 7, 1), vec![(7, PlannedStep::Reserve)]);
    assert_eq!(
        steps(ActionRequest::SetMode { mode: OperatingMode::BackupOnly }, 7, 1),
        vec![(7, PlannedStep::Mode(ControlMode::BackupReserveHold))]
    );
    assert_eq!(steps(ActionRequest::CurtailPv, 7, 1), vec![(7, PlannedStep::Curtail)]);
    assert_eq!(
        steps(ActionRequest::ClearOverride, 7, 1),
        vec![
            (7, PlannedStep::NoCurtail),
            (7, PlannedStep::ZeroSetpoint),
            (7, PlannedStep::Mode(ControlMode::SelfConsumption)),
        ]
    );
}

fn facts(known: bool, mode: ControlMode, above_floor: bool, sampled: bool) -> TargetFacts {
    TargetFacts { known, mode, above_floor, sampled }
}

#[test]
fn target_filters_keep_order_and_refuse_an_empty_set() {
    let f = vec![
        facts(true, ControlMode::SelfConsumption, true, true),
        facts(false, ControlMode::SelfConsumption, true, true),
        facts(true, ControlMode::Manual, true, true),
        facts(true, ControlMode::SelfConsumption, false, true),
        facts(true, ControlMode::SelfConsumption, true, false),
        facts(true, ControlMode::Idle, true, true),
    ];
    assert_eq!(filter_targets(&f, None).unwrap(), vec![0, 2, 5]);
    let grid = vec![OperatingMode::GridServices];
    assert_eq!(filter_targets(&f, Some(&grid)).unwrap(), vec![2, 5]);
    let backup = vec![OperatingMode::BackupOnly];
    let p = filter_targets(&f, Some(&backup)).unwrap_err();
    assert_eq!(p.status, 422);
    assert_eq!(p.detail.as_deref(), Some("target resolution produced an empty set"));
}

#[test]
fn queued_executions_come_due_time_out_or_wait() {
    assert_eq!(pending_fate(10, 30, 10), PendingFate::Due);
    assert_eq!(pending_fate(10, 30, 9), PendingFate::Waiting);
    assert_eq!(pending_fate(10, 3, 14), PendingFate::Due);
    assert_eq!(pending_fate(u64::MAX, 5, u64::MAX - 1), PendingFate::Waiting);
}

#[test]
fn sweeping_the_queue_partitions_it_and_collects_settled_commands() {
    let commands: Vec<String> = ["cmd_a", "cmd_b", "cmd_a", "cmd_c", "cmd_b"].iter().map(|s| s.to_string()).collect();
    let execute_at = vec![5, 20, 7, 30, 9];
    let timeouts = vec![3, 3, 3, 3, 3];
    let sweep = sweep_pending(&commands, &execute_at, &timeouts, 8);
    assert_eq!(sweep.due, vec![0, 2]);
    assert_eq!(sweep.timed_out, Vec::<usize>::new());
    assert_eq!(sweep.waiting, vec![1, 3, 4]);
    assert_eq!(sweep.settled, vec!["cmd_a".to_string()]);
    let sweep = sweep_pending(&commands, &execute_at, &timeouts, 25);
    assert_eq!(sweep.due, vec![0, 1, 2, 4]);
    assert_eq!(sweep.waiting, vec![3]);
    assert_eq!(sweep.settled, vec!["cmd_a".to_string(), "cmd_b".to_string()]);
}

#[test]
fn cancelling_a_command_takes_only_its_queued_executions() {
    let (cancelled, kept) = cancel_split(&vec![7, 9, 7, 1], 7);
    assert_eq!(cancelled, vec![0, 2]);
    assert_eq!(kept, vec![1, 3]);
    let (cancelled, kept) = cancel_split(&vec![], 7);
    assert!(cancelled.is_empty() && kept.is_empty());
}

#[test]
fn planned_targets_become_queued_audit_entries() {
    let plans = vec![
        TargetPlan { home_id: "home_a".to_string(), latency_ms: 300, execute_at_tick: 10, timeout_ticks: 30 },
        TargetPlan { home_id: "home_b".to_string(), latency_ms: 1200, execute_at_tick: 12, timeout_ticks: 30 },
    ];
    let t = queued_targets(&plans, Some(5.0f64.to_bits()));
    assert_eq!(t.len(), 2);
    assert_eq!(t[1].home_id, "home_b");
    assert_eq!(t[1].latency_ms, 1200);
    assert!(t[0].status.is_none() && t[0].applied_kw_bits.is_none() && t[0].executed_at_sim_time.is_none());
    assert_eq!(t[0].requested_kw_bits, Some(5.0f64.to_bits()));
}
