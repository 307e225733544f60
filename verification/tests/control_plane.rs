use batsim::runs::{no_report_problem, settlement_refusal, BacktestState};
use batsim::api::{body_decode_problem, check_body_kind, JsonKind};
use batsim::api::{one, page_ids, principal_of, PageParams, Principal, Resolution, SimState};
use batsim::auth::{authenticate, credential_of, AuthOutcome};
use batsim::clock::{now_rfc3339, rfc3339_of, unix_of};
use batsim::codec::{body_hash, command_tag, decode_cursor, encode_cursor, new_id, HOME};
use batsim::digest::{fingerprint, hex_prefix, hex_sha256};
use batsim::fields::split_list;
use batsim::problem::{Problem, ProblemCode};
use batsim::sim::{
    admit_run_until, admit_step, apply_control, div_ceil, outcome_doc, run_until_ticks, transition_error,
    SimControl, StepOutcome, MAX_SYNC_TICKS,
};
use batsim::api::{api_mode_of, control_mode_of, ControlMode, OperatingMode};
use batsim::sim::{deactivate_scenario, require_not_running, require_stopped};

fn ids(v: &[&str]) -> Vec<String> {
    v.iter().map(|s| s.to_string()).collect()
}

#[test]
fn page_limit_defaults_and_bounds() {
    assert_eq!(PageParams { limit: None, cursor: None }.limit().unwrap(), 100);
    assert_eq!(PageParams { limit: Some(1), cursor: None }.limit().unwrap(), 1);
    assert_eq!(PageParams { limit: Some(1000), cursor: None }.limit().unwrap(), 1000);
    let p = PageParams { limit: Some(0), cursor: None }.limit().unwrap_err();
    assert_eq!(p.code, ProblemCode::ValidationError);
    assert_eq!(p.status, 400);
    assert_eq!(p.detail.as_deref(), Some("limit must be within 1..=1000, got 0"));
    let p = PageParams { limit: Some(1001), cursor: None }.limit().unwrap_err();
    assert_eq!(p.detail.as_deref(), Some("limit must be within 1..=1000, got 1001"));
}

#[test]
fn paging_over_sorted_ids() {
    let all = ids(&["home_a", "home_b", "home_c", "home_d"]);
    let (page, more) = page_ids(&all, None, 2);
    assert_eq!(page, ids(&["home_a", "home_b"]));
    assert!(more);
    let (page, more) = page_ids(&all, Some(&b"home_b"[..]), 2);
    assert_eq!(page, ids(&["home_c", "home_d"]));
    assert!(!more);
    let (page, more) = page_ids(&all, Some(&b"home_bb"[..]), 10);
    assert_eq!(page, ids(&["home_c", "home_d"]));
    assert!(!more);
    let (page, more) = page_ids(&all, Some(&b"zzz"[..]), 10);
    assert!(page.is_empty());
    assert!(!more);
}

#[test]
fn cursor_round_trip_through_base64url() {
    let c = encode_cursor("home_01");
    assert_eq!(c, "aG9tZV8wMQ");
    assert_eq!(decode_cursor(&c).unwrap(), b"home_01".to_vec());
    let p = decode_cursor("not base64!").unwrap_err();
    assert_eq!(p.code, ProblemCode::ValidationError);
    assert_eq!(p.detail.as_deref(), Some("malformed cursor"));
}

#[test]
fn cursors_outside_the_alphabet_or_with_a_lone_symbol_are_refused() {
    for bad in ["a", "abcde", "ab=c", "ab+c", "ab/c", "a.bc", "aG9tZV8wMQ=="] {
        let p = decode_cursor(bad).unwrap_err();
        assert_eq!(p.status, 400, "{bad}");
        assert_eq!(p.detail.as_deref(), Some("malformed cursor"));
    }
    assert_eq!(decode_cursor("").unwrap(), Vec::<u8>::new());
    assert_eq!(decode_cursor("YQ").unwrap(), b"a".to_vec());
    assert_eq!(decode_cursor("_-8").unwrap(), vec![0xff, 0xef]);
}

#[test]
fn principal_and_defaults() {
    assert_eq!(principal_of(None), "local");
    assert_eq!(principal_of(Some(&Principal("key:x".to_owned()))), "key:x");
    assert_eq!(one(), 1);
    assert_eq!(Resolution::S1.seconds(), 1);
    assert_eq!(Resolution::M1.seconds(), 60);
    assert_eq!(Resolution::M5.seconds(), 300);
    assert_eq!(Resolution::M15.seconds(), 900);
    assert_eq!(Resolution::H1.seconds(), 3600);
}

#[test]
fn problem_documents() {
    assert_eq!(ProblemCode::IdempotencyKeyReuse.type_slug(), "idempotency-key-reuse");
    assert_eq!(ProblemCode::SimNotRunning.type_slug(), "sim-not-running");
    let p = Problem::not_found("home", "home_missing");
    assert_eq!(p.status, 404);
    assert_eq!(p.code, ProblemCode::NotFound);
    assert_eq!(p.detail.as_deref(), Some("no home with id `home_missing`"));
    assert!(p.problem_type.ends_with("not-found"));
    let p = Problem::internal();
    assert_eq!(p.status, 500);
    assert!(p.detail.is_none());
    assert_eq!(Problem::conflict("x".to_owned()).status, 409);
    assert_eq!(Problem::unprocessable("x".to_owned()).status, 422);
}

#[test]
fn sim_lifecycle_transitions() {
    let mut s = SimState::Stopped;
    assert_eq!(apply_control(&mut s, SimControl::Pause), Err("simulation is not running".to_owned()));
    assert_eq!(s, SimState::Stopped);
    assert_eq!(apply_control(&mut s, SimControl::Start), Ok(true));
    assert_eq!(s, SimState::Running);
    assert_eq!(apply_control(&mut s, SimControl::Start), Err("simulation can only start from stopped".to_owned()));
    assert_eq!(apply_control(&mut s, SimControl::Pause), Ok(false));
    assert_eq!(s, SimState::Paused);
    assert_eq!(apply_control(&mut s, SimControl::Resume), Ok(true));
    assert_eq!(apply_control(&mut s, SimControl::Stop), Ok(false));
    assert_eq!(s, SimState::Stopped);
    assert_eq!(apply_control(&mut s, SimControl::Stop), Err("simulation is already stopped".to_owned()));

    let p = transition_error("no".to_owned(), SimState::Running);
    assert_eq!(p.code, ProblemCode::SimRunning);
    let p = transition_error("no".to_owned(), SimState::Stopped);
    assert_eq!(p.code, ProblemCode::SimNotRunning);
}

#[test]
fn step_admission() {
    assert!(admit_step(10, None, SimState::Paused).is_ok());
    assert_eq!(admit_step(0, None, SimState::Paused).unwrap_err().detail.as_deref(), Some("ticks must be >= 1"));
    let p = admit_step(90000, None, SimState::Paused).unwrap_err();
    assert_eq!(p.detail.as_deref(), Some("ticks is capped at 86400 (one sim-day) unless allow_large=true"));
    assert!(admit_step(90000, Some(true), SimState::Paused).is_ok());
    assert_eq!(admit_step(10, None, SimState::Running).unwrap_err().code, ProblemCode::SimRunning);
    assert_eq!(admit_step(10, None, SimState::Stopped).unwrap_err().code, ProblemCode::SimNotRunning);
    assert_eq!(MAX_SYNC_TICKS, 86400);
}

#[test]
fn run_until_admission_and_tick_count() {
    assert_eq!(admit_run_until(1735690200, 1735689600, 60, None, SimState::Paused).unwrap(), 10);
    assert_eq!(admit_run_until(1735689661, 1735689600, 60, None, SimState::Paused).unwrap(), 2);
    let p = admit_run_until(1577836800, 1735689600, 60, None, SimState::Paused).unwrap_err();
    assert_eq!(p.detail.as_deref(), Some("until must be in the future"));
    let p = admit_run_until(1735689600 + 86401, 1735689600, 1, None, SimState::Paused).unwrap_err();
    assert_eq!(
        p.detail.as_deref(),
        Some("advance would exceed 86400 ticks (one sim-day); pass allow_large=true")
    );
    assert_eq!(admit_run_until(10, 0, 1, None, SimState::Running).unwrap_err().code, ProblemCode::SimRunning);
    assert_eq!(run_until_ticks(SimState::Paused, 0, 121, 60), Ok(3));
    assert_eq!(run_until_ticks(SimState::Running, 0, 121, 60), Err("run-until requires a paused simulation".to_owned()));
    assert_eq!(run_until_ticks(SimState::Paused, 5, 5, 60), Err("target time must be in the future".to_owned()));
    assert_eq!(div_ceil(7, 2), 4);
    assert_eq!(div_ceil(8, 2), 4);
    assert_eq!(div_ceil(u64::MAX, 1), u64::MAX);
}

#[test]
fn rfc3339_rendering_and_parsing() {
    assert_eq!(rfc3339_of(0), "1970-01-01T00:00:00Z");
    assert_eq!(rfc3339_of(1735689600), "2025-01-01T00:00:00Z");
    assert_eq!(rfc3339_of(u64::MAX), "1970-01-01T00:00:00Z");
    assert_eq!(unix_of("2025-06-15T00:02:00Z"), Ok(1749945720));
    assert_eq!(unix_of("1969-12-31T23:59:59Z"), Err("time must not be before 1970".to_owned()));
    assert!(unix_of("not-a-date").unwrap_err().starts_with("invalid RFC 3339 time: "));
    assert!(now_rfc3339().ends_with('Z'));
    assert_eq!(rfc3339_of(1749945600), "2025-06-15T00:00:00Z");
    assert_eq!(rfc3339_of(253402300799), "9999-12-31T23:59:59Z");
    let doc = outcome_doc(&StepOutcome { ticks: 10, tick: 70, unix: 1735689600, wall_ms: 3 });
    assert_eq!(doc.sim_time, "2025-01-01T00:00:00Z");
    assert_eq!(doc.tick, 70);
    assert_eq!(doc.ticks_executed, 10);
    assert_eq!(doc.wall_ms, 3);
}

#[test]
fn rfc3339_text_parses_back_to_its_seconds() {
    for u in [0u64, 1, 59, 86399, 951782400, 1735689600, 1749945720, 4102444800, 253402300799] {
        assert_eq!(unix_of(&rfc3339_of(u)), Ok(u));
    }
}

#[test]
fn digests_and_fingerprints() {
    assert_eq!(
        hex_sha256(b"abc"),
        "ba7816bf8f01cfea414140de5dae2223b00361a396177a9cb410ff61f20015ad"
    );
    assert_eq!(hex_prefix(&[0, 1, 2, 0xab, 0xcd, 0xef, 0x10, 0xff, 9]), "000102abcdef10ff");
    assert_eq!(fingerprint("abc"), "sha256:ba7816bf8f01cfea");
    assert_eq!(fingerprint("a much longer secret value").len(), 23);
}

#[test]
fn ids_and_hashes() {
    let id = new_id(HOME);
    assert!(id.starts_with("home_"));
    assert_eq!(id.len(), 5 + 26);
    assert_ne!(new_id(HOME), id);
    assert_eq!(body_hash(b""), 0x2D06_8005_38D3_94C2);
    assert_eq!(command_tag("cmd_x"), body_hash(b"cmd_x"));
    assert_ne!(body_hash(b"{\"a\":1}"), body_hash(b"{\"a\":2}"));
}

#[test]
fn credentials_and_admission() {
    assert_eq!(credential_of(Some("Bearer k1"), None).as_deref(), Some("k1"));
    assert_eq!(credential_of(None, Some("k2")).as_deref(), Some("k2"));
    assert_eq!(credential_of(None, None), None);

    let none: Vec<String> = vec![];
    match authenticate(&none, &none, None, false) {
        AuthOutcome::Allow(p) => assert_eq!(p.0, "local"),
        AuthOutcome::Reject(p) => panic!("{p:?}"),
    }
    let keys = vec!["abc".to_owned()];
    let ro = vec!["ro-key".to_owned()];
    match authenticate(&keys, &ro, Some("abc"), false) {
        AuthOutcome::Allow(p) => assert_eq!(p.0, "key:sha256:ba7816bf8f01cfea"),
        AuthOutcome::Reject(p) => panic!("{p:?}"),
    }
    match authenticate(&keys, &ro, None, true) {
        AuthOutcome::Reject(p) => {
            assert_eq!(p.status, 401);
            assert_eq!(p.detail.as_deref(), Some("missing credentials"));
        },
        AuthOutcome::Allow(p) => panic!("{p:?}"),
    }
    match authenticate(&keys, &ro, Some("wrong"), true) {
        AuthOutcome::Reject(p) => assert_eq!(p.detail.as_deref(), Some("invalid credentials")),
        AuthOutcome::Allow(p) => panic!("{p:?}"),
    }
    match authenticate(&keys, &ro, Some("ro-key"), false) {
        AuthOutcome::Reject(p) => {
            assert_eq!(p.status, 403);
            assert_eq!(p.detail.as_deref(), Some("read-only key may only call GET/HEAD"));
        },
        AuthOutcome::Allow(p) => panic!("{p:?}"),
    }
    match authenticate(&keys, &ro, Some("ro-key"), true) {
        AuthOutcome::Allow(p) => assert!(p.0.starts_with("ro:sha256:")),
        AuthOutcome::Reject(p) => panic!("{p:?}"),
    }
}

#[test]
fn comma_lists_are_trimmed_and_nonempty() {
    assert_eq!(split_list(" soc, battery_power_kw ,,"), vec!["soc".to_owned(), "battery_power_kw".to_owned()]);
    assert!(split_list("").is_empty());
    assert_eq!(split_list("a"), vec!["a".to_owned()]);
}

#[test]
fn method_not_allowed_carries_allow_header() {
    let p = batsim::problem::method_not_allowed_problem("GET, POST");
    assert_eq!(p.status, 405);
    assert_eq!(p.title, "Method not allowed");
    assert_eq!(p.headers, vec![("allow".to_owned(), "GET, POST".to_owned())]);
    assert!(Problem::validation("x".to_owned()).headers.is_empty());
}

#[test]
fn operating_modes_round_trip() {
    assert_eq!(control_mode_of(OperatingMode::TimeOfUse), ControlMode::SelfConsumption);
    assert_eq!(control_mode_of(OperatingMode::BackupOnly), ControlMode::BackupReserveHold);
    assert_eq!(api_mode_of(ControlMode::Idle), OperatingMode::GridServices);
    for m in [OperatingMode::SelfConsumption, OperatingMode::BackupOnly, OperatingMode::GridServices] {
        assert_eq!(api_mode_of(control_mode_of(m)), m);
    }
}

#[test]
fn world_changes_are_gated_on_sim_state() {
    assert!(require_not_running(SimState::Paused, "x").is_ok());
    let p = require_not_running(SimState::Running, "pause or stop the simulation before deleting homes").unwrap_err();
    assert_eq!(p.code, ProblemCode::SimRunning);
    assert_eq!(p.detail.as_deref(), Some("pause or stop the simulation before deleting homes"));
    assert!(require_stopped(SimState::Stopped, "x").is_ok());
    assert_eq!(require_stopped(SimState::Paused, "x").unwrap_err().code, ProblemCode::SimRunning);

    let mut active = Some("scn_a".to_owned());
    assert_eq!(
        deactivate_scenario(&mut active, "scn_b", true, SimState::Stopped).unwrap_err().detail.as_deref(),
        Some("scenario is not active")
    );
    assert_eq!(
        deactivate_scenario(&mut active, "scn_a", true, SimState::Running).unwrap_err().code,
        ProblemCode::SimRunning
    );
    assert_eq!(
        deactivate_scenario(&mut active, "scn_x", false, SimState::Stopped).unwrap_err().code,
        ProblemCode::NotFound
    );
    assert_eq!(active.as_deref(), Some("scn_a"));
    assert!(deactivate_scenario(&mut active, "scn_a", true, SimState::Stopped).is_ok());
    assert!(active.is_none());
}

#[test]
fn consecutive_pages_neither_skip_nor_repeat() {
    let all = ids(&["a", "b", "c", "d", "e"]);
    let (p1, more) = page_ids(&all, None, 2);
    assert!(more);
    let c = decode_cursor(&encode_cursor(p1.last().unwrap())).unwrap();
    let (p2, _) = page_ids(&all, Some(c.as_slice()), 2);
    assert_eq!(p2, ids(&["c", "d"]));
}

#[test]
fn settlement_report_refusals_follow_the_run_state() {
    assert!(settlement_refusal(&BacktestState::Settled, 12).is_none());
    let p = settlement_refusal(&BacktestState::Running, 7).unwrap();
    assert_eq!(p.status, 409);
    assert_eq!(p.detail.as_deref(), Some("backtest is still running (7 intervals settled)"));
    let p = settlement_refusal(&BacktestState::Failed("price coverage gap at 2024-07-01T05:00:00Z".to_string()), 0)
        .unwrap();
    assert_eq!(p.detail.as_deref(), Some("backtest failed: price coverage gap at 2024-07-01T05:00:00Z"));
    let p = no_report_problem();
    assert_eq!(p.status, 409);
    assert_eq!(p.detail.as_deref(), Some("backtest has not settled and is no longer the active run"));
}

#[test]
fn request_bodies_must_be_objects() {
    assert!(check_body_kind(JsonKind::Object).is_ok());
    assert!(check_body_kind(JsonKind::Null).is_ok());
    for k in [JsonKind::Array, JsonKind::String, JsonKind::Number, JsonKind::Bool] {
        let p = check_body_kind(k).unwrap_err();
        assert_eq!(p.status, 400);
        assert_eq!(p.detail.as_deref(), Some("request body must be a JSON object"));
    }
    let p = body_decode_problem("missing field `count`");
    assert_eq!(p.detail.as_deref(), Some("Failed to deserialize the JSON body: missing field `count`"));
}
