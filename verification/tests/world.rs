use batsim::api::{CommandStatus, ExecutionSpec, LatencySpec, Resolution, SeriesParams, StreamParams};
use batsim::audit::{AuditStore, CommandDoc, TargetExecution};
use batsim::dispatch::{
    check_latency_order, hash_hex16, latency_ms, plan_targets, queued_acceptance, replayed_acceptance,
    resolve_target_ids, sample_bucket, status_url,
};
use batsim::listing::{
    climate_zone, command_matches, expansion_hash, expansion_seed, is_known_load_zone, matching_command_ids,
    page_info, validate_scenario_time, ClimateZone,
};
use batsim::problem::ProblemCode;
use batsim::telemetry::{check_series_budget, parse_fields, parse_range, StreamFilter};
use batsim::listing::{compatible_inverter, expansion_seeds, esiid_for, matching_home_ids, HomeIndexEntry};
use batsim::catalog::{InverterModel, Registry};
use batsim::kinds::InverterTopology;
use batsim::text::padded_decimal_string;

fn strings(v: &[&str]) -> Vec<String> {
    v.iter().map(|s| s.to_string()).collect()
}

fn doc(id: &str, status: CommandStatus, created: &str, homes: &[&str]) -> CommandDoc {
    CommandDoc {
        command_id: id.to_owned(),
        status,
        created_at: created.to_owned(),
        principal: "local".to_owned(),
        idempotency_key: None,
        request_hash: "00".to_owned(),
        request_json: "{}".to_owned(),
        targets: homes
            .iter()
            .map(|h| TargetExecution {
                home_id: h.to_string(),
                status: None,
                requested_kw_bits: None,
                applied_kw_bits: None,
                executed_at_sim_time: None,
                latency_ms: 0,
            })
            .collect(),
    }
}

#[test]
fn telemetry_field_selection() {
    assert_eq!(parse_fields(None).unwrap().len(), 6);
    assert_eq!(parse_fields(Some("soc,battery_power_kw")).unwrap(), strings(&["soc", "battery_power_kw"]));
    let p = parse_fields(Some("soc,bogus")).unwrap_err();
    assert_eq!(p.code, ProblemCode::ValidationError);
    assert_eq!(
        p.detail.as_deref(),
        Some("unknown field `bogus` (allowed: soc, battery_power_kw, pv_power_kw, load_power_kw, grid_power_kw, price_rtm)")
    );
    assert_eq!(parse_fields(Some(" , ")).unwrap_err().detail.as_deref(), Some("fields must not be empty"));
}

#[test]
fn series_range_defaults_and_errors() {
    let q = |from: Option<&str>, to: Option<&str>| SeriesParams {
        fields: None,
        from: from.map(str::to_owned),
        to: to.map(str::to_owned),
        resolution: None,
        agg: None,
    };
    assert_eq!(parse_range(&q(None, None), 100).unwrap(), (0, 101));
    assert_eq!(parse_range(&q(Some("2025-01-01T00:00:00Z"), Some("2025-01-01T00:10:00Z")), 0).unwrap(), (1735689600, 1735690200));
    let p = parse_range(&q(Some("2025-01-01T00:10:00Z"), Some("2025-01-01T00:00:00Z")), 0).unwrap_err();
    assert_eq!(p.detail.as_deref(), Some("`to` must be after `from`"));
    let p = parse_range(&q(Some("garbage"), None), 0).unwrap_err();
    assert!(p.detail.unwrap().starts_with("from: invalid RFC 3339 time"));
    let p = parse_range(&q(None, Some("1960-01-01T00:00:00Z")), 0).unwrap_err();
    assert_eq!(p.detail.as_deref(), Some("to: time must not be before 1970"));
}

#[test]
fn fleet_series_cell_budget() {
    assert_eq!(check_series_budget(10, 0, 3600, Resolution::M1, 3600, 1440).unwrap(), 61);
    assert_eq!(check_series_budget(1, 0, 86400, Resolution::S1, 3600, 1440).unwrap(), 3600);
    assert_eq!(check_series_budget(1, 0, 864000, Resolution::M15, 3600, 1440).unwrap(), 98);
    let p = check_series_budget(20000, 0, 86400, Resolution::M1, 3600, 1440).unwrap_err();
    assert_eq!(
        p.detail.as_deref(),
        Some("fleet series too broad: 20000 homes x up to 1441 buckets exceeds the 1000000 cell budget; narrow the range or use a coarser resolution")
    );
}

#[test]
fn stream_filters() {
    let q = |fleet: Option<&str>, homes: Option<&str>, fields: Option<&str>, ds: Option<u64>| StreamParams {
        fleet_id: fleet.map(str::to_owned),
        home_ids: homes.map(str::to_owned),
        fields: fields.map(str::to_owned),
        downsample: ds,
    };
    let f = StreamFilter::parse(&q(None, None, None, None), &vec![], None, 5, 500).unwrap();
    assert!(!f.raw);
    assert_eq!(f.downsample, 1);
    assert!(f.wants_fleet("flt_any"));
    assert!(f.wants_home("home_any"));
    assert!(f.emits_tick(7));

    let p = StreamFilter::parse(&q(None, None, Some("bogus"), None), &vec![], None, 5, 500).unwrap_err();
    assert_eq!(p.code, ProblemCode::ValidationError);
    let p = StreamFilter::parse(&q(Some("flt_nope"), None, None, None), &vec![], None, 5, 500).unwrap_err();
    assert_eq!(p.code, ProblemCode::NotFound);
    let p = StreamFilter::parse(&q(None, Some("h1"), None, None), &vec![true], None, 5, 500).unwrap_err();
    assert_eq!(p.code, ProblemCode::ValidationError);
    let p = StreamFilter::parse(&q(None, Some("home_nope"), Some("raw"), None), &vec![false], None, 5, 500)
        .unwrap_err();
    assert_eq!(p.code, ProblemCode::NotFound);
    let p = StreamFilter::parse(&q(None, None, Some("raw"), None), &vec![], None, 501, 500).unwrap_err();
    assert_eq!(p.code, ProblemCode::Unprocessable);
    let p = StreamFilter::parse(&q(None, None, None, Some(0)), &vec![], None, 5, 500).unwrap_err();
    assert_eq!(p.detail.as_deref(), Some("downsample must be >= 1"));

    // fleet_id and home_ids together are refused before the fleet is
    // looked up.
    let p = StreamFilter::parse(&q(Some("flt_x"), Some("h1"), Some("raw"), None), &vec![true], None, 5, 500)
        .unwrap_err();
    assert_eq!(p.status, 400);
    assert_eq!(p.code, ProblemCode::ValidationError);
    assert_eq!(p.detail.as_deref(), Some("fleet_id and home_ids are mutually exclusive"));

    let fleet = strings(&["home_b", "home_c"]);
    let f = StreamFilter::parse(&q(Some("flt_x"), None, Some("raw"), Some(10)), &vec![], Some(&fleet), 5, 500)
        .unwrap();
    assert!(f.raw);
    assert!(f.wants_fleet("flt_x"));
    assert!(!f.wants_fleet("flt_y"));
    assert!(f.wants_home("home_c"));
    assert!(!f.wants_home("home_a"));
    let f = StreamFilter::parse(&q(None, Some("home_a,home_b,home_a"), Some("raw"), Some(10)), &vec![true; 3], None, 5, 500)
        .unwrap();
    assert!(f.wants_home("home_a"));
    assert!(f.wants_home("home_b"));
    assert!(!f.wants_home("home_z"));
    assert_eq!(f.home_ids.as_ref().unwrap().len(), 2);
    assert!(f.emits_tick(20));
    assert!(!f.emits_tick(21));
}

#[test]
fn dispatch_targets_resolve_sorted_and_deduplicated() {
    let fleet = strings(&["home_c", "home_a"]);
    let homes = strings(&["home_b", "home_a"]);
    let ids = resolve_target_ids(Some("flt_x"), Some(&fleet), Some(&homes), &vec![true, true]).unwrap();
    assert_eq!(ids, strings(&["home_a", "home_b", "home_c"]));
    let p = resolve_target_ids(Some("flt_nope"), None, None, &vec![]).unwrap_err();
    assert_eq!(p.detail.as_deref(), Some("no fleet with id `flt_nope`"));
    let p = resolve_target_ids(None, None, Some(&homes), &vec![true, false]).unwrap_err();
    assert_eq!(p.detail.as_deref(), Some("no home with id `home_a`"));
    let p = resolve_target_ids(None, None, None, &vec![]).unwrap_err();
    assert_eq!(p.detail.as_deref(), Some("target must name a fleet_id and/or home_ids"));
}

#[test]
fn dispatch_latency_and_planning() {
    let fixed = ExecutionSpec { latency_ms: Some(LatencySpec::Fixed(1500)), timeout_s: Some(10), ramp: None };
    assert_eq!(latency_ms(Some(&fixed), "cmd_a", "home_1"), 1500);
    let plans = plan_targets(Some(&fixed), "cmd_a", &strings(&["home_1", "home_2"]), 100, 1);
    assert_eq!(plans.len(), 2);
    assert_eq!(plans[1].home_id, "home_2");
    assert_eq!(plans[0].execute_at_tick, 102);
    assert_eq!(plans[0].timeout_ticks, 10);
    let plans = plan_targets(Some(&fixed), "cmd_a", &strings(&["home_1"]), 100, 60);
    assert_eq!(plans[0].execute_at_tick, 101);
    assert_eq!(plans[0].timeout_ticks, 1);
    let plans = plan_targets(Some(&fixed), "cmd_a", &strings(&["home_1"]), u64::MAX - 2, 1);
    assert_eq!(plans[0].execute_at_tick, u64::MAX);
    let plans = plan_targets(None, "cmd_a", &strings(&["home_1"]), u64::MAX - 2, 1);
    assert!(plans[0].execute_at_tick >= u64::MAX - 1);

    let default_draw = latency_ms(None, "cmd_a", "home_1");
    assert!((250..=2000).contains(&default_draw));
    assert_eq!(latency_ms(None, "cmd_a", "home_1"), default_draw, "draws are deterministic");
    let range = ExecutionSpec {
        latency_ms: Some(LatencySpec::Range { uniform: [100, 200] }),
        timeout_s: None,
        ramp: None,
    };
    let d = latency_ms(Some(&range), "cmd_b", "home_9");
    assert!((100..=200).contains(&d));
    let top = ExecutionSpec {
        latency_ms: Some(LatencySpec::Range { uniform: [u64::MAX - 2, u64::MAX] }),
        timeout_s: None,
        ramp: None,
    };
    let d = latency_ms(Some(&top), "cmd_b", "home_9");
    assert!(d >= u64::MAX - 2 && d < u64::MAX);
    let degenerate = ExecutionSpec {
        latency_ms: Some(LatencySpec::Range { uniform: [300, 300] }),
        timeout_s: None,
        ramp: None,
    };
    assert_eq!(latency_ms(Some(&degenerate), "cmd_b", "home_9"), 300);

    let inverted = ExecutionSpec {
        latency_ms: Some(LatencySpec::Range { uniform: [500, 100] }),
        timeout_s: None,
        ramp: None,
    };
    assert_eq!(
        check_latency_order(Some(&inverted)).unwrap_err().detail.as_deref(),
        Some("latency range must be ordered")
    );
    assert!(check_latency_order(Some(&range)).is_ok());
    assert!(check_latency_order(None).is_ok());
    assert!(sample_bucket("cmd_a", "home_1") < 100);
}

#[test]
fn dispatch_acceptance_documents() {
    assert_eq!(status_url("cmd_1"), "/v1/dispatch/commands/cmd_1");
    assert_eq!(hash_hex16(0xab), "00000000000000ab");
    assert_eq!(hash_hex16(u64::MAX), "ffffffffffffffff");
    let q = queued_acceptance("cmd_1", 3);
    assert!(q.accepted);
    assert_eq!(q.targets, 3);
    assert_eq!(q.status, CommandStatus::Queued);
    let existing = doc("cmd_2", CommandStatus::Completed, "2025-01-01T00:00:00Z", &["home_1", "home_2"]);
    let r = replayed_acceptance(&existing);
    assert_eq!(r.command_id, "cmd_2");
    assert_eq!(r.targets, 2);
    assert_eq!(r.status, CommandStatus::Completed);
    assert_eq!(r.status_url, "/v1/dispatch/commands/cmd_2");
}

#[test]
fn audit_listing_filters_and_pages() {
    let mut store = AuditStore::new(10);
    for d in [
        doc("cmd_b", CommandStatus::Completed, "2025-01-01T00:10:00Z", &["home_1"]),
        doc("cmd_a", CommandStatus::Queued, "2025-01-01T00:00:00Z", &["home_2"]),
        doc("cmd_c", CommandStatus::Completed, "2025-01-01T00:20:00Z", &["home_2"]),
    ] {
        assert!(store.can_insert());
        store.insert(d);
    }
    assert_eq!(matching_command_ids(&store, None, None, None), strings(&["cmd_a", "cmd_b", "cmd_c"]));
    assert_eq!(
        matching_command_ids(&store, Some(CommandStatus::Completed), None, None),
        strings(&["cmd_b", "cmd_c"])
    );
    assert_eq!(matching_command_ids(&store, None, Some("home_2"), None), strings(&["cmd_a", "cmd_c"]));
    assert_eq!(matching_command_ids(&store, None, None, Some(1735690200)), strings(&["cmd_b", "cmd_c"]));
    let d = doc("cmd_x", CommandStatus::Queued, "not a time", &[]);
    assert!(command_matches(&d, None, None, Some(5)));
    assert!(!command_matches(&d, None, Some("home_1"), None));

    let info = page_info(&strings(&["cmd_a", "cmd_b"]), true);
    assert!(info.has_more);
    assert_eq!(info.next_cursor.as_deref(), Some("Y21kX2I"));
    let info = page_info(&strings(&["cmd_a"]), false);
    assert!(info.next_cursor.is_none());
}

#[test]
fn scenario_time_binding() {
    assert_eq!(
        validate_scenario_time("2025-06-15T00:00:00Z", "2025-06-16T00:00:00Z", None).unwrap(),
        (1749945600, 1750032000, 1)
    );
    let p = validate_scenario_time("2025-06-15T00:02:00Z", "2025-06-16T00:00:00Z", None).unwrap_err();
    assert_eq!(p.code, ProblemCode::ValidationError);
    assert_eq!(p.detail.as_deref(), Some("time.start must be aligned to a 5-minute boundary"));
    let p = validate_scenario_time("2025-06-15T00:00:00Z", "2025-06-14T00:00:00Z", None).unwrap_err();
    assert_eq!(p.detail.as_deref(), Some("time.end must be after time.start"));
    let p = validate_scenario_time("2025-06-15T00:00:00Z", "2025-06-16T00:00:00Z", Some(61)).unwrap_err();
    assert_eq!(p.detail.as_deref(), Some("time.tick_seconds must be within 1..=60"));
    let p = validate_scenario_time("junk", "2025-06-16T00:00:00Z", None).unwrap_err();
    assert!(p.detail.unwrap().starts_with("time.start: invalid RFC 3339 time: "));
}

#[test]
fn zones_and_expansion_hashes() {
    assert_eq!(climate_zone(None).unwrap(), ClimateZone::Central);
    assert_eq!(climate_zone(Some("2A")).unwrap(), ClimateZone::GulfCoast);
    assert_eq!(climate_zone(Some("North")).unwrap(), ClimateZone::North);
    assert_eq!(
        climate_zone(Some("Mars")).unwrap_err().detail.as_deref(),
        Some("unknown climate zone `mars` (expected 2A, 3A, 3B, 4A, or a Texas zone name)")
    );
    assert!(is_known_load_zone("LZ_HOUSTON"));
    assert!(!is_known_load_zone("LZ_MOON"));
    assert_eq!(
        expansion_hash(b"abc"),
        "sha256:ba7816bf8f01cfea414140de5dae2223b00361a396177a9cb410ff61f20015ad"
    );
    assert_eq!(expansion_seed(42, 0), expansion_seed(42, 0));
    assert_ne!(expansion_seed(42, 0), expansion_seed(42, 1));
}

#[test]
fn home_list_filters() {
    let h = |id: &str, fleet: Option<&str>, zone: &str, model: &str| HomeIndexEntry {
        id: id.to_owned(),
        fleet_id: fleet.map(str::to_owned),
        load_zone: zone.to_owned(),
        battery_model: model.to_owned(),
    };
    let homes = vec![
        h("home_c", Some("flt_1"), "LZ_NORTH", "tesla.powerwall_3"),
        h("home_a", None, "LZ_HOUSTON", "tesla.powerwall_3"),
        h("home_b", Some("flt_1"), "LZ_HOUSTON", "sonnen.ecolinx"),
    ];
    assert_eq!(matching_home_ids(&homes, None, None, None), strings(&["home_a", "home_b", "home_c"]));
    assert_eq!(matching_home_ids(&homes, Some("flt_1"), None, None), strings(&["home_b", "home_c"]));
    assert_eq!(matching_home_ids(&homes, None, Some("LZ_HOUSTON"), None), strings(&["home_a", "home_b"]));
    assert_eq!(
        matching_home_ids(&homes, Some("flt_1"), None, Some("tesla.powerwall_3")),
        strings(&["home_c"])
    );
}

#[test]
fn composed_home_helpers() {
    let id = esiid_for("home_01");
    assert!(id.starts_with("1008900"));
    assert_eq!(id.len(), 20);
    assert!(id.chars().all(|c| c.is_ascii_digit()));
    assert_eq!(esiid_for("home_01"), id);

    let inv = |id: &str, compat: &[&str]| InverterModel {
        schema_version: "1.0.0".to_owned(),
        entry_version: "1.0.0".to_owned(),
        model_id: id.to_owned(),
        vendor: "SolarEdge".to_owned(),
        display_name: id.to_owned(),
        topology: InverterTopology::HybridDCCoupled,
        grid_following_on_grid: true,
        grid_forming_in_backup: true,
        compatible_battery_ids: strings(compat),
        max_batteries: None,
    };
    let reg = Registry::from_parts(
        vec![],
        vec![inv("solaredge.z_hub", &["solaredge.battery"]), inv("solaredge.a_hub", &["solaredge.battery"])],
        vec![],
    );
    assert_eq!(compatible_inverter(&reg, "solaredge.battery").as_deref(), Some("solaredge.a_hub"));
    assert_eq!(compatible_inverter(&reg, "tesla.powerwall_3"), None);
}

#[test]
fn zero_padded_decimals() {
    assert_eq!(padded_decimal_string(42, 5), "00042");
    assert_eq!(padded_decimal_string(123456, 3), "456");
    assert_eq!(padded_decimal_string(7, 0), "");
}

#[test]
fn split_expansions_draw_the_same_seeds_as_one() {
    let whole = expansion_seeds(42, 0, 5);
    let mut split = expansion_seeds(42, 0, 2);
    split.extend(expansion_seeds(42, 2, 3));
    assert_eq!(whole, split);
    for (i, s) in whole.iter().enumerate() {
        assert_eq!(*s, expansion_seed(42, i as u64));
    }
    assert!(expansion_seeds(42, 7, 0).is_empty());
}
