use batsim::catalog::{
    sort_by_key, BatteryModel, ControllerModel, Expansion, InverterModel, PvPreset, Registry, Table,
};
use batsim::entry_checks::{
    check_battery_expansion, check_battery_microinverter_decl, check_identifier, check_inverter_compat,
    check_pv_preset_wiring, check_schema_version, identifier_shape,
};
use batsim::kinds::{entry_path, Chemistry, Coupling, EntryKind, InverterTopology};
use batsim::listing::{chemistry_name, contains_text, list_battery_positions, list_inverter_positions};
use batsim::violation::{violation, Violation};
use batsim::xref::check_cross_references;

fn battery(model_id: &str, vendor: &str, coupling: Coupling) -> BatteryModel {
    BatteryModel {
        schema_version: "1.0.0".to_owned(),
        entry_version: "1.0.0".to_owned(),
        supersedes: None,
        model_id: model_id.to_owned(),
        vendor: vendor.to_owned(),
        display_name: model_id.to_owned(),
        chemistry: Chemistry::NMC,
        coupling,
        grid_forming_in_backup: true,
        requires_controller_id: None,
        integrated_inverter: None,
        microinverter_count: None,
        has_power_per_microinverter: false,
        expansion: None,
        cooling: None,
    }
}

fn controller(model_id: &str) -> ControllerModel {
    ControllerModel {
        schema_version: "1.0.0".to_owned(),
        entry_version: "1.0.0".to_owned(),
        model_id: model_id.to_owned(),
        vendor: "Tesla".to_owned(),
        display_name: model_id.to_owned(),
        provides_grid_forming: true,
        supports_generator_input: true,
        pv_blackstart: None,
    }
}

fn inverter(model_id: &str, topology: InverterTopology, compatible: Vec<&str>) -> InverterModel {
    InverterModel {
        schema_version: "1.0.0".to_owned(),
        entry_version: "1.0.0".to_owned(),
        model_id: model_id.to_owned(),
        vendor: "SolarEdge".to_owned(),
        display_name: model_id.to_owned(),
        topology,
        grid_following_on_grid: true,
        grid_forming_in_backup: true,
        compatible_battery_ids: compatible.into_iter().map(str::to_owned).collect(),
        max_batteries: Some(3),
    }
}

fn fields(violations: &[Violation]) -> Vec<&str> {
    violations.iter().map(|v| v.field.as_str()).collect()
}

#[test]
fn cross_reference_failures_are_enumerated_per_rule() {
    let mut pw2 = battery("tesla.powerwall_2", "Tesla", Coupling::ACCoupled);
    pw2.requires_controller_id = Some("tesla.gateway_2".to_owned());
    pw2.integrated_inverter = Some(true);
    let registry = Registry::from_parts(vec![pw2], vec![], vec![]);
    let violations = check_cross_references(&registry);
    assert!(fields(&violations).contains(&"requires_controller_id"), "{violations:?}");
    assert!(violations.iter().all(|v| v.path == "batteries/tesla_powerwall_2.json"), "{violations:?}");
    assert_eq!(violations[0].message, "unknown controller model `tesla.gateway_2`");

    let hub = inverter(
        "solaredge.home_hub_hd_wave",
        InverterTopology::HybridDCCoupled,
        vec!["solaredge.home_battery_400v"],
    );
    let registry = Registry::from_parts(vec![], vec![hub], vec![]);
    let violations = check_cross_references(&registry);
    assert!(fields(&violations).contains(&"compatible_battery_ids[0]"), "{violations:?}");
    assert_eq!(violations[0].path, "inverters/solaredge_home_hub_hd_wave.json");

    let se = battery("solaredge.home_battery_400v", "SolarEdge", Coupling::DCCoupledHybrid);
    let registry = Registry::from_parts(vec![se], vec![], vec![controller("solaredge.backup_interface")]);
    let violations = check_cross_references(&registry);
    assert!(fields(&violations).contains(&"coupling"), "{violations:?}");

    let mut pw3 = battery("tesla.powerwall_3", "Tesla", Coupling::DCCoupledHybrid);
    pw3.integrated_inverter = Some(true);
    pw3.requires_controller_id = Some("tesla.gateway_2".to_owned());
    pw3.expansion = Some(Expansion {
        max_units_per_inverter: Some(4),
        expansion_pack_model_id: Some("tesla.powerwall_3".to_owned()),
        packs_add_power: Some(false),
    });
    let pack = battery("tesla.pw3_expansion_pack", "Tesla", Coupling::DCCoupledHybrid);
    let registry = Registry::from_parts(vec![pw3, pack], vec![], vec![controller("tesla.gateway_2")]);
    let violations = check_cross_references(&registry);
    assert!(fields(&violations).contains(&"expansion.expansion_pack_model_id"), "{violations:?}");
}

#[test]
fn consistent_registry_has_no_cross_reference_violations() {
    let se = battery("solaredge.home_battery_400v", "SolarEdge", Coupling::DCCoupledHybrid);
    let hub = inverter(
        "solaredge.home_hub_7600h",
        InverterTopology::HybridDCCoupled,
        vec!["solaredge.home_battery_400v"],
    );
    let registry = Registry::from_parts(vec![se], vec![hub], vec![]);
    assert!(check_cross_references(&registry).is_empty());
}

#[test]
fn bad_model_ids_are_enumerated() {
    for bad in ["Tesla.Powerwall_2", "tesla-powerwall-2", "tesla.powerwall.2", ".pw2", "pw2."] {
        let mut out = Vec::new();
        check_identifier("batteries/x.json", "model_id", bad, Some("Tesla"), &mut out);
        assert_eq!(fields(&out), vec!["model_id"], "{bad}: {out:?}");
        assert!(identifier_shape(bad).is_none());
    }
    let mut out = Vec::new();
    check_identifier("batteries/x.json", "model_id", "tesla.powerwall_2", Some("Acme"), &mut out);
    assert_eq!(fields(&out), vec!["model_id"]);
    assert_eq!(out[0].message, "model_id prefix `tesla` does not match vendor `Acme`");

    let mut out = Vec::new();
    check_identifier("batteries/x.json", "model_id", "tesla.powerwall_2", Some("Tesla"), &mut out);
    assert!(out.is_empty());
    assert_eq!(identifier_shape("tesla.powerwall_2"), Some(5));
}

#[test]
fn schema_version_must_match() {
    let mut out = Vec::new();
    check_schema_version("batteries/x.json", "1.0.0", &mut out);
    assert!(out.is_empty());
    check_schema_version("batteries/x.json", "2.0.0", &mut out);
    assert_eq!(out.len(), 1);
    assert_eq!(out[0].field, "schema_version");
    assert_eq!(out[0].message, "unsupported schema_version `2.0.0`; expected `1.0.0`");
}

#[test]
fn structural_entry_rules() {
    let mut out = Vec::new();
    check_battery_microinverter_decl("batteries/x.json", Coupling::MicroinverterBased, None, &mut out);
    assert_eq!(fields(&out), vec!["microinverter_count"]);
    let mut out = Vec::new();
    check_battery_microinverter_decl("batteries/x.json", Coupling::ACCoupled, Some(4), &mut out);
    assert_eq!(fields(&out), vec!["microinverter_count"]);
    let mut out = Vec::new();
    check_battery_microinverter_decl("batteries/x.json", Coupling::MicroinverterBased, Some(6), &mut out);
    assert!(out.is_empty());

    let mut out = Vec::new();
    let exp = Some(Expansion {
        max_units_per_inverter: Some(0),
        expansion_pack_model_id: Some("Bad Id".to_owned()),
        packs_add_power: None,
    });
    check_battery_expansion("batteries/x.json", &exp, &mut out);
    assert_eq!(
        fields(&out),
        vec!["expansion.max_units_per_inverter", "expansion.expansion_pack_model_id"]
    );

    let mut out = Vec::new();
    check_inverter_compat("inverters/x.json", InverterTopology::HybridDCCoupled, &vec![], Some(0), &mut out);
    assert_eq!(fields(&out), vec!["compatible_battery_ids", "max_batteries"]);
    let mut out = Vec::new();
    let ids = vec!["a.b".to_owned(), "a.b".to_owned()];
    check_inverter_compat("inverters/x.json", InverterTopology::HybridDCCoupled, &ids, None, &mut out);
    assert_eq!(fields(&out), vec!["compatible_battery_ids[1]"]);
    assert_eq!(out[0].message, "duplicate compatible battery `a.b`");

    let mut out = Vec::new();
    check_pv_preset_wiring("pv_presets/x.json", &Some("NOPE".to_owned()), Some(0), &mut out);
    assert_eq!(fields(&out), vec!["pv_inverter_model_id", "microinverter_count"]);
}

#[test]
fn entry_paths_and_kinds() {
    assert_eq!(entry_path(EntryKind::Battery, "tesla.powerwall_2"), "batteries/tesla_powerwall_2.json");
    assert_eq!(entry_path(EntryKind::PvPreset, "residential.south_8kw"), "pv_presets/residential_south_8kw.json");
    assert_eq!(EntryKind::Controller.dir(), "controllers");
    assert_eq!(EntryKind::PvPreset.name(), "PvPreset");
    assert_eq!(EntryKind::from_dir("inverters"), Some(EntryKind::Inverter));
    assert_eq!(EntryKind::from_dir("batteries"), Some(EntryKind::Battery));
    assert_eq!(EntryKind::from_dir("misc"), None);
}

#[test]
fn violation_rendering() {
    let v = violation("generator", "needs a controller".to_owned());
    assert_eq!(v.path, "<home_system>");
    assert_eq!(v.to_text(), "<home_system>: generator: needs a controller");
    let w = Violation::new("a.json", "f", "m".to_owned());
    assert_eq!(w.duplicate().to_text(), "a.json: f: m");
}

#[test]
fn tables_keep_last_entry_per_key_in_key_order() {
    let mut t: Table<String> = Table::new();
    assert!(!t.insert("b.x".to_owned()));
    assert!(!t.insert("a.x".to_owned()));
    assert!(t.insert("b.x".to_owned()));
    assert_eq!(t.len(), 2);
    assert_eq!(t.entries(), &["a.x".to_owned(), "b.x".to_owned()]);
    assert_eq!(t.position("b.x"), Some(1));
    assert_eq!(t.get("c.x"), None);

    let sorted = sort_by_key(vec!["c".to_owned(), "a".to_owned(), "b".to_owned()]);
    assert_eq!(sorted, vec!["a".to_owned(), "b".to_owned(), "c".to_owned()]);
}

#[test]
fn registry_lookups_and_replacement() {
    let first = battery("tesla.powerwall_2", "Tesla", Coupling::ACCoupled);
    let mut second = battery("tesla.powerwall_2", "Tesla", Coupling::ACCoupled);
    second.display_name = "replacement".to_owned();
    let other = battery("enphase.iq_battery_5p", "Enphase", Coupling::MicroinverterBased);
    let mut registry = Registry::from_parts(vec![first, other, second], vec![], vec![]);
    assert_eq!(registry.batteries().len(), 2);
    assert_eq!(registry.batteries()[0].model_id, "enphase.iq_battery_5p");
    assert_eq!(registry.battery("tesla.powerwall_2").map(|b| b.display_name.as_str()), Some("replacement"));
    assert!(registry.inverter("tesla.powerwall_2").is_none());
    assert_eq!(registry.manifest().registry_version, "0.0.0-test");

    let preset = PvPreset {
        schema_version: "1.0.0".to_owned(),
        entry_version: "1.0.0".to_owned(),
        preset_id: "residential.south_8kw".to_owned(),
        display_name: "South 8 kW".to_owned(),
        pv_inverter_model_id: None,
        microinverter_count: None,
    };
    assert!(!registry.put_pv_preset(preset));
    assert_eq!(registry.pv_presets().len(), 1);
    assert!(registry.pv_preset("residential.south_8kw").is_some());
    assert!(registry.put_battery(battery("enphase.iq_battery_5p", "Enphase", Coupling::ACCoupled)));
    assert_eq!(registry.batteries().len(), 2);
}

#[test]
fn vendor_filters_match_substrings() {
    assert!(contains_text("SolarEdge", "Edge"));
    assert!(contains_text("SolarEdge", ""));
    assert!(contains_text("Tesla", "Tesla"));
    assert!(!contains_text("Tesla", "tesla"));
    assert!(!contains_text("Tes", "Tesla"));
    assert!(contains_text("aab", "ab"));
}

#[test]
fn catalog_listing_filters_in_model_id_order() {
    let mut lfp = battery("enphase.iq_5p", "Enphase", Coupling::MicroinverterBased);
    lfp.chemistry = Chemistry::LFP;
    let reg = Registry::from_parts(
        vec![
            battery("tesla.powerwall_2", "Tesla", Coupling::ACCoupled),
            lfp,
            battery("tesla.powerwall_3", "Tesla", Coupling::ACCoupled),
        ],
        vec![
            inverter("solaredge.hub", InverterTopology::HybridDCCoupled, vec![]),
            inverter("enphase.iq8", InverterTopology::HybridDCCoupled, vec![]),
        ],
        vec![],
    );
    // Catalog order: enphase.iq_5p, tesla.powerwall_2, tesla.powerwall_3.
    let all = vec![true; 3];
    assert_eq!(list_battery_positions(&reg, None, None, &all), vec![0, 1, 2]);
    assert_eq!(list_battery_positions(&reg, Some("Tes"), None, &all), vec![1, 2]);
    assert_eq!(list_battery_positions(&reg, None, Some("lfp"), &all), vec![0]);
    assert_eq!(list_battery_positions(&reg, None, Some("nmc"), &vec![true, false, true]), vec![2]);
    assert_eq!(list_battery_positions(&reg, Some("Tesla"), Some("LFP"), &all), Vec::<usize>::new());
    assert_eq!(chemistry_name(Chemistry::NCA), "NCA");
    assert_eq!(list_inverter_positions(&reg, Some("Edge"), &vec![true, true]), vec![0, 1]);
    assert_eq!(list_inverter_positions(&reg, Some("Enphase"), &vec![true, true]), Vec::<usize>::new());
    assert_eq!(list_inverter_positions(&reg, None, &vec![false, true]), vec![1]);
}
