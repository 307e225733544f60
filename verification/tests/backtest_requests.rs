use batsim::runs::{
    award_windows, chronological_order, empty_fleet_problem, four_cp_candidates, run_state_label,
    schedule_times, settlement_url, BacktestState,
};
use batsim::runs::{plan_backtest_end, plan_backtest_tick, RunEnd};

fn strings(v: &[&str]) -> Vec<String> {
    v.iter().map(|s| s.to_string()).collect()
}

const DAY_START: u64 = 1_719_810_000; // 2024-07-01T05:00:00Z
const DAY_END: u64 = DAY_START + 86_400;

#[test]
fn schedule_entries_parse_in_request_order() {
    let texts = strings(&["2024-07-01T22:00:00Z", "2024-07-01T06:00:00Z"]);
    let times = schedule_times(&texts, &vec![true, true], DAY_START, DAY_END).unwrap();
    assert_eq!(times, vec![DAY_START + 61_200, DAY_START + 3_600]);
    assert_eq!(chronological_order(&times), vec![1, 0]);
}

#[test]
fn schedule_entry_outside_the_day_is_refused() {
    let texts = strings(&["2024-07-01T04:59:59Z"]);
    let p = schedule_times(&texts, &vec![true], DAY_START, DAY_END).unwrap_err();
    assert_eq!(p.status, 400);
    assert_eq!(
        p.detail.as_deref(),
        Some("strategy entry `2024-07-01T04:59:59Z` is outside the operating day")
    );
    let texts = strings(&["2024-07-02T05:00:00Z"]);
    assert!(schedule_times(&texts, &vec![true], DAY_START, DAY_END).is_err());
}

#[test]
fn schedule_refusals_come_entry_by_entry() {
    let texts = strings(&["2024-07-01T06:00:00Z", "not a time"]);
    let p = schedule_times(&texts, &vec![false, true], DAY_START, DAY_END).unwrap_err();
    assert_eq!(p.detail.as_deref(), Some("strategy kw must be positive and finite"));
    let p = schedule_times(&texts, &vec![true, true], DAY_START, DAY_END).unwrap_err();
    assert!(p.detail.unwrap().starts_with("strategy start: invalid RFC 3339 time"));
}

#[test]
fn chronological_order_keeps_ties_in_request_order() {
    assert_eq!(chronological_order(&vec![30, 10, 30, 10, 20]), vec![1, 3, 4, 0, 2]);
    assert_eq!(chronological_order(&vec![]), Vec::<usize>::new());
}

#[test]
fn award_windows_are_checked_award_by_award() {
    let starts = strings(&["2024-07-01T20:00:00Z", "2024-07-01T21:00:00Z"]);
    let ends = strings(&["2024-07-01T21:00:00Z", "2024-07-01T21:00:00Z"]);
    let p = award_windows(&starts, &ends, &vec![true, true]).unwrap_err();
    assert_eq!(p.detail.as_deref(), Some("as award end must be after start"));
    let ends = strings(&["2024-07-01T21:00:00Z", "2024-07-01T22:00:00Z"]);
    let w = award_windows(&starts, &ends, &vec![true, true]).unwrap();
    assert_eq!(w, vec![(DAY_START + 54_000, DAY_START + 57_600), (DAY_START + 57_600, DAY_START + 61_200)]);
    let p = award_windows(&starts, &ends, &vec![true, false]).unwrap_err();
    assert_eq!(p.detail.as_deref(), Some("awarded_mw must be positive and finite"));
    let bad = strings(&["yesterday", "2024-07-01T21:00:00Z"]);
    let p = award_windows(&bad, &ends, &vec![true, true]).unwrap_err();
    assert!(p.detail.unwrap().starts_with("as award start: "));
}

#[test]
fn four_cp_rate_is_checked_before_candidates() {
    let c = strings(&["2024-07-01T21:00:00Z"]);
    let p = four_cp_candidates(false, &c).unwrap_err();
    assert_eq!(p.detail.as_deref(), Some("transmission_rate_usd_per_kw_mo must be non-negative and finite"));
    assert_eq!(four_cp_candidates(true, &c).unwrap(), vec![DAY_START + 57_600]);
    let p = four_cp_candidates(true, &strings(&["21:00"])).unwrap_err();
    assert!(p.detail.unwrap().starts_with("4cp candidate: "));
}

#[test]
fn run_documents_label_state_and_report_location() {
    assert_eq!(run_state_label(Some(&BacktestState::Running), false), "running");
    assert_eq!(run_state_label(Some(&BacktestState::Settled), false), "settled");
    assert_eq!(
        run_state_label(Some(&BacktestState::Failed("no prices".to_string())), true),
        "failed: no prices"
    );
    assert_eq!(run_state_label(None, true), "settled");
    assert_eq!(run_state_label(None, false), "unknown (engine rebound since this run)");
    assert_eq!(settlement_url("bt_1"), "/v1/backtests/bt_1/settlement");
    let p = empty_fleet_problem("flt_9");
    assert_eq!(p.status, 422);
    assert_eq!(p.detail.as_deref(), Some("fleet flt_9 has no homes; expand it first"));
}

#[test]
fn backtest_ticks_fire_due_entries_and_close_intervals() {
    let schedule = vec![100, 100, 250, 900];
    let d = plan_backtest_tick(&schedule, 0, 0, 900, 100);
    assert_eq!(d.fire_to, 2);
    assert!(!d.close_interval);
    let d = plan_backtest_tick(&schedule, 2, 0, 900, 900);
    assert_eq!(d.fire_to, 4);
    assert!(d.close_interval);
    let d = plan_backtest_tick(&schedule, 4, 900, 900, 900);
    assert_eq!(d.fire_to, 4);
    assert!(!d.close_interval);
    assert_eq!(plan_backtest_end(900, 1800, 1799), RunEnd::Continue);
    assert_eq!(plan_backtest_end(900, 1800, 1800), RunEnd::Finish { close_open_interval: true });
    assert_eq!(plan_backtest_end(1800, 1800, 1800), RunEnd::Finish { close_open_interval: false });
}
