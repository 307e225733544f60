use batsim::listing::manifest_problem;

fn detail(count: u32, weights: &[bool], zones: Option<Vec<(&str, bool)>>) -> Option<String> {
    let w = weights.to_vec();
    let z: Option<Vec<(String, bool)>> =
        zones.map(|v| v.into_iter().map(|(n, ok)| (n.to_string(), ok)).collect());
    manifest_problem(count, &w, z.as_ref()).map(|p| {
        assert_eq!(p.status, 400);
        p.detail.unwrap_or_default()
    })
}

#[test]
fn zero_count_is_refused_first() {
    assert_eq!(detail(0, &[], None).as_deref(), Some("count must be >= 1"));
}

#[test]
fn count_above_the_request_cap_is_refused() {
    assert_eq!(detail(10_001, &[true], None).as_deref(), Some("count must be <= 10000 per request"));
    assert_eq!(detail(100_001, &[true], None).as_deref(), Some("count must be <= 10000 per request"));
    assert_eq!(detail(10_000, &[true], None), None);
}

#[test]
fn archetypes_must_be_present_with_positive_weights() {
    assert_eq!(detail(5, &[], None).as_deref(), Some("archetypes must not be empty"));
    assert_eq!(detail(5, &[true, false], None).as_deref(), Some("archetype weights must be positive"));
}

#[test]
fn load_zone_distribution_is_checked_zone_by_zone() {
    assert_eq!(
        detail(5, &[true], Some(vec![])).as_deref(),
        Some("ercot_load_zones must not be empty")
    );
    assert_eq!(
        detail(5, &[true], Some(vec![("LZ_HOUSTON", true), ("LZ_MARS", true)])).as_deref(),
        Some("unknown ERCOT load zone `LZ_MARS`")
    );
    assert_eq!(
        detail(5, &[true], Some(vec![("LZ_HOUSTON", false), ("LZ_MARS", true)])).as_deref(),
        Some("load-zone weights must be positive")
    );
    assert_eq!(detail(5, &[true], Some(vec![("LZ_HOUSTON", true), ("LZ_NORTH", true)])), None);
}
