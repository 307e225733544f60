use batsim::catalog::{BatteryModel, ControllerModel, Expansion, InverterModel, Registry};
use batsim::kinds::{Chemistry, Coupling, InverterTopology};
use batsim::system::{
    BatteryRef, ControllerRef, GeneratorConfig, GridMeter, HomeSystem, InverterRef, NamedOrientation,
    Orientation, PvConfig,
};
use batsim::composition::NumericFindings;
use batsim::violation::{violation, Violation};

const PW3: &str = "tesla.powerwall_3";
const PW3_PACK: &str = "tesla.powerwall_3_expansion";
const GATEWAY: &str = "tesla.gateway_2";
const SE_BATTERY: &str = "solaredge.home_battery_400v";
const SE_HUB: &str = "solaredge.home_hub_7600h";
const SE_BACKUP_IFACE: &str = "solaredge.backup_interface";
const ENP_5P: &str = "enphase.iq_battery_5p";
const ENP_CTRL: &str = "enphase.iq_system_controller_3";
const ECOLINX: &str = "sonnen.ecolinx";

fn battery(model_id: &str, coupling: Coupling) -> BatteryModel {
    BatteryModel {
        schema_version: "1.0.0".to_owned(),
        entry_version: "1.0.0".to_owned(),
        supersedes: None,
        model_id: model_id.to_owned(),
        vendor: "Test".to_owned(),
        display_name: model_id.to_owned(),
        chemistry: Chemistry::LFP,
        coupling,
        grid_forming_in_backup: true,
        requires_controller_id: None,
        integrated_inverter: None,
        microinverter_count: None,
        has_power_per_microinverter: false,
        expansion: None,
        cooling: None,
    }
}

fn pw3() -> BatteryModel {
    let mut m = battery(PW3, Coupling::DCCoupledHybrid);
    m.integrated_inverter = Some(true);
    m.requires_controller_id = Some(GATEWAY.to_owned());
    m.expansion = Some(Expansion {
        max_units_per_inverter: Some(4),
        expansion_pack_model_id: Some(PW3_PACK.to_owned()),
        packs_add_power: Some(false),
    });
    m
}

fn pw3_pack() -> BatteryModel {
    battery(PW3_PACK, Coupling::DCCoupledHybrid)
}

fn se_battery() -> BatteryModel {
    battery(SE_BATTERY, Coupling::DCCoupledHybrid)
}

fn ecolinx() -> BatteryModel {
    let mut m = battery(ECOLINX, Coupling::ACCoupled);
    m.integrated_inverter = Some(true);
    m
}

fn enphase_5p() -> BatteryModel {
    let mut m = battery(ENP_5P, Coupling::MicroinverterBased);
    m.microinverter_count = Some(6);
    m.has_power_per_microinverter = true;
    m.requires_controller_id = Some(ENP_CTRL.to_owned());
    m.integrated_inverter = Some(true);
    m
}

fn controller(model_id: &str, grid_forming: bool, generator: bool) -> ControllerModel {
    ControllerModel {
        schema_version: "1.0.0".to_owned(),
        entry_version: "1.0.0".to_owned(),
        model_id: model_id.to_owned(),
        vendor: "Test".to_owned(),
        display_name: model_id.to_owned(),
        provides_grid_forming: grid_forming,
        supports_generator_input: generator,
        pv_blackstart: None,
    }
}

fn gateway() -> ControllerModel {
    controller(GATEWAY, true, true)
}

fn enphase_controller() -> ControllerModel {
    controller(ENP_CTRL, true, true)
}

fn se_hub() -> InverterModel {
    InverterModel {
        schema_version: "1.0.0".to_owned(),
        entry_version: "1.0.0".to_owned(),
        model_id: SE_HUB.to_owned(),
        vendor: "SolarEdge".to_owned(),
        display_name: SE_HUB.to_owned(),
        topology: InverterTopology::HybridDCCoupled,
        grid_following_on_grid: true,
        grid_forming_in_backup: true,
        compatible_battery_ids: vec![SE_BATTERY.to_owned()],
        max_batteries: Some(3),
    }
}

fn battery_ref(model_id: &str, quantity: u32) -> BatteryRef {
    BatteryRef { model_id: model_id.to_owned(), quantity, expansion_packs_per_unit: 0 }
}

fn battery_ref_packs(model_id: &str, quantity: u32, packs: u32) -> BatteryRef {
    BatteryRef { model_id: model_id.to_owned(), quantity, expansion_packs_per_unit: packs }
}

fn inverter_ref(model_id: &str, quantity: u32) -> InverterRef {
    InverterRef { model_id: model_id.to_owned(), quantity }
}

fn controller_ref(model_id: &str, quantity: u32) -> ControllerRef {
    ControllerRef { model_id: model_id.to_owned(), quantity }
}

fn base_system() -> HomeSystem {
    HomeSystem {
        schema_version: "1.0.0".to_owned(),
        system_id: "00000000-0000-0000-0000-000000000001".to_owned(),
        label: None,
        batteries: vec![],
        inverters: vec![],
        controllers: vec![],
        pv: None,
        backup_capable: false,
        generator: None,
        grid_meter: GridMeter { esiid: "1008901000000000000001".to_owned(), tdsp: None },
    }
}

fn violations_of(sys: &HomeSystem, registry: &Registry) -> Vec<Violation> {
    assert!(sys.capacity_sums_within_range(registry));
    sys.composition_violations(registry)
}

fn assert_field(violations: &[Violation], field: &str) {
    assert!(
        violations.iter().any(|v| v.field == field),
        "expected a violation at `{field}`, got: {violations:?}"
    );
}

#[test]
fn composition_of_valid_pw3_system_with_packs_and_gateway() {
    let registry = Registry::from_parts(vec![pw3(), pw3_pack()], vec![], vec![gateway()]);
    let mut sys = base_system();
    sys.batteries = vec![battery_ref_packs(PW3, 1, 3)];
    sys.controllers = vec![controller_ref(GATEWAY, 1)];
    sys.backup_capable = true;
    sys.pv = Some(PvConfig {
        orientation: Orientation::Named(NamedOrientation::S),
        pv_inverter_model_id: None,
    });
    let v = violations_of(&sys, &registry);
    assert!(v.is_empty(), "{v:?}");
    assert_eq!(sys.resolved_controller_model_id(&registry).as_deref(), Some(GATEWAY));
    assert!(sys.has_dc_coupled_storage(&registry));
}

#[test]
fn unknown_model_ids_are_all_enumerated() {
    let registry = Registry::from_parts(vec![], vec![], vec![]);
    let mut sys = base_system();
    sys.batteries = vec![battery_ref("no.such_battery", 1)];
    sys.inverters = vec![inverter_ref("no.such_inverter", 1)];
    sys.controllers = vec![controller_ref("no.such_controller", 1)];

    let v = violations_of(&sys, &registry);
    assert_eq!(v.len(), 3, "every unknown id enumerated: {v:?}");
    assert_field(&v, "batteries[0].model_id");
    assert_field(&v, "inverters[0].model_id");
    assert_field(&v, "controllers[0].model_id");
    assert!(v.iter().all(|x| x.message.contains("no.such_")));
}

#[test]
fn schema_version_mismatch_is_a_violation() {
    let registry = Registry::from_parts(vec![], vec![], vec![]);
    let mut sys = base_system();
    sys.schema_version = "0.9.0".to_owned();
    let v = violations_of(&sys, &registry);
    assert_field(&v, "schema_version");
}

#[test]
fn backup_capable_requires_one_grid_forming_controller() {
    let registry = Registry::from_parts(vec![pw3()], vec![], vec![gateway()]);

    let mut sys = base_system();
    sys.batteries = vec![battery_ref(PW3, 1)];
    sys.backup_capable = true;
    let v = violations_of(&sys, &registry);
    assert!(v.iter().all(|x| x.field != "controllers"), "{v:?}");
    assert_field(&v, "batteries[0].model_id");

    sys.controllers = vec![controller_ref(GATEWAY, 1), controller_ref(GATEWAY, 1)];
    let v = violations_of(&sys, &registry);
    assert_eq!(v.len(), 1);
    assert_field(&v, "controllers");
    assert!(v[0].message.contains('2'));

    let registry =
        Registry::from_parts(vec![se_battery()], vec![], vec![controller(GATEWAY, false, false)]);
    sys.batteries = vec![battery_ref(SE_BATTERY, 1)];
    sys.controllers = vec![controller_ref(GATEWAY, 1)];
    let v = violations_of(&sys, &registry);
    assert_field(&v, "controllers");
}

#[test]
fn dc_coupled_battery_requires_compatible_hybrid_inverter() {
    let registry = Registry::from_parts(vec![se_battery()], vec![se_hub()], vec![]);

    let mut sys = base_system();
    sys.batteries = vec![battery_ref(SE_BATTERY, 1)];
    let v = violations_of(&sys, &registry);
    assert_field(&v, "batteries[0].model_id");
    assert!(v[0].message.contains("DC-coupled"));

    sys.inverters = vec![inverter_ref(SE_HUB, 1)];
    let v = violations_of(&sys, &registry);
    assert!(v.is_empty(), "compatible hybrid present: {v:?}");
}

#[test]
fn solaredge_battery_count_bounded_by_hub_capacity() {
    let registry = Registry::from_parts(vec![se_battery()], vec![se_hub()], vec![]);

    let mut sys = base_system();
    sys.batteries = vec![battery_ref(SE_BATTERY, 4)];
    sys.inverters = vec![inverter_ref(SE_HUB, 1)];
    let v = violations_of(&sys, &registry);
    assert_field(&v, "batteries[0].model_id");
    assert!(v[0].message.contains("capacity 3"));

    sys.batteries = vec![battery_ref(SE_BATTERY, 3)];
    assert!(violations_of(&sys, &registry).is_empty(), "3 on one hub is allowed");

    sys.inverters = vec![inverter_ref(SE_HUB, 2)];
    assert!(violations_of(&sys, &registry).is_empty(), "3 on two hubs is allowed");
    sys.batteries = vec![battery_ref(SE_BATTERY, 7)];
    let v = violations_of(&sys, &registry);
    assert!(v[0].message.contains("capacity 6"));
}

#[test]
fn pw3_expansion_pack_rules() {
    let registry = Registry::from_parts(vec![pw3(), pw3_pack()], vec![], vec![gateway()]);
    let mut sys = base_system();
    sys.batteries = vec![battery_ref_packs(PW3, 1, 4)];
    sys.controllers = vec![controller_ref(GATEWAY, 1)];
    sys.backup_capable = true;
    let v = violations_of(&sys, &registry);
    assert_field(&v, "batteries[0].expansion_packs_per_unit");
    assert!(v.iter().any(|x| x.message.contains("exceed 3")));

    let registry = Registry::from_parts(vec![enphase_5p()], vec![], vec![enphase_controller()]);
    let mut sys = base_system();
    sys.batteries = vec![battery_ref_packs(ENP_5P, 1, 1)];
    sys.controllers = vec![controller_ref(ENP_CTRL, 1)];
    sys.backup_capable = true;
    let v = violations_of(&sys, &registry);
    assert_field(&v, "batteries[0].expansion_packs_per_unit");
    assert!(v.iter().any(|x| x.message.contains("not supported")));

    let mut dirty = pw3();
    if let Some(e) = dirty.expansion.as_mut() {
        e.packs_add_power = Some(true);
    }
    let registry = Registry::from_parts(vec![dirty, pw3_pack()], vec![], vec![gateway()]);
    let mut sys = base_system();
    sys.batteries = vec![battery_ref_packs(PW3, 1, 1)];
    sys.controllers = vec![controller_ref(GATEWAY, 1)];
    sys.backup_capable = true;
    let v = violations_of(&sys, &registry);
    assert!(v.iter().any(|x| x.message.contains("packs_add_power")));

    let registry = Registry::from_parts(vec![pw3()], vec![], vec![gateway()]);
    let v = violations_of(&sys, &registry);
    assert!(v.iter().any(|x| x.message.contains(PW3_PACK)));
}

#[test]
fn composition_of_enphase_fleet_under_its_controller() {
    let registry = Registry::from_parts(vec![enphase_5p()], vec![], vec![enphase_controller()]);
    let mut sys = base_system();
    sys.batteries = vec![battery_ref(ENP_5P, 2)];
    sys.controllers = vec![controller_ref(ENP_CTRL, 1)];
    sys.backup_capable = true;
    let v = violations_of(&sys, &registry);
    assert!(v.is_empty(), "{v:?}");
    assert!(!sys.has_dc_coupled_storage(&registry));
    assert_eq!(sys.resolved_controller_model_id(&registry).as_deref(), Some(ENP_CTRL));
}

#[test]
fn generator_requires_a_supporting_controller() {
    let registry =
        Registry::from_parts(vec![enphase_5p()], vec![], vec![controller(ENP_CTRL, true, false)]);
    let mut sys = base_system();
    sys.batteries = vec![battery_ref(ENP_5P, 1)];
    sys.controllers = vec![controller_ref(ENP_CTRL, 1)];
    sys.generator = Some(GeneratorConfig { auto_start: true });
    let v = violations_of(&sys, &registry);
    assert_field(&v, "generator");

    let registry = Registry::from_parts(vec![enphase_5p()], vec![], vec![enphase_controller()]);
    let v = violations_of(&sys, &registry);
    assert!(v.is_empty(), "generator-capable controller present: {v:?}");
}

#[test]
fn pv_inverter_rules() {
    let registry = Registry::from_parts(
        vec![se_battery(), enphase_5p()],
        vec![se_hub()],
        vec![enphase_controller()],
    );
    let pv = |id: Option<&str>| PvConfig {
        orientation: Orientation::Azimuth(180),
        pv_inverter_model_id: id.map(str::to_owned),
    };

    let mut sys = base_system();
    sys.pv = Some(pv(Some("no.such_pv_inverter")));
    let v = violations_of(&sys, &registry);
    assert_field(&v, "pv.pv_inverter_model_id");

    sys.pv = Some(pv(Some(SE_HUB)));
    let v = violations_of(&sys, &registry);
    assert!(v.is_empty(), "resolvable PV inverter id: {v:?}");

    sys.batteries = vec![battery_ref(ENP_5P, 1)];
    sys.controllers = vec![controller_ref(ENP_CTRL, 1)];
    sys.pv = Some(pv(None));
    let v = violations_of(&sys, &registry);
    assert_field(&v, "pv.pv_inverter_model_id");
    assert!(v[0].message.contains("hybrid"));

    sys.batteries = vec![battery_ref(SE_BATTERY, 1)];
    sys.inverters = vec![inverter_ref(SE_HUB, 1)];
    sys.controllers = vec![];
    let v = violations_of(&sys, &registry);
    assert!(v.is_empty(), "hybrid MPPT landing pad present: {v:?}");
}

#[test]
fn zero_quantity_line_item_is_enumerated() {
    let registry = Registry::from_parts(vec![pw3(), pw3_pack()], vec![], vec![gateway()]);
    let mut sys = base_system();
    sys.batteries = vec![battery_ref(PW3, 0)];
    sys.controllers = vec![controller_ref(GATEWAY, 1)];
    sys.backup_capable = true;
    let v = violations_of(&sys, &registry);
    assert_field(&v, "batteries[0].quantity");
    assert!(v.iter().any(|x| x.message == "quantity must be >= 1"));
}

#[test]
fn controller_resolution_follows_backup_intent() {
    let se_iface = controller(SE_BACKUP_IFACE, true, false);
    let registry = Registry::from_parts(vec![se_battery()], vec![se_hub()], vec![se_iface]);
    let mut sys = base_system();
    sys.batteries = vec![battery_ref(SE_BATTERY, 2)];
    sys.inverters = vec![inverter_ref(SE_HUB, 1)];
    sys.controllers = vec![controller_ref(SE_BACKUP_IFACE, 1)];
    sys.backup_capable = true;
    assert!(violations_of(&sys, &registry).is_empty());
    assert_eq!(sys.resolved_controller_model_id(&registry).as_deref(), Some(SE_BACKUP_IFACE));

    sys.backup_capable = false;
    assert!(violations_of(&sys, &registry).is_empty());
    assert!(sys.resolved_controller_model_id(&registry).is_none());
}

#[test]
fn integrated_grid_forming_fleet_needs_no_controller() {
    let registry = Registry::from_parts(vec![ecolinx()], vec![], vec![]);
    let mut sys = base_system();
    sys.batteries = vec![battery_ref(ECOLINX, 2)];
    sys.backup_capable = true;
    let v = violations_of(&sys, &registry);
    assert!(v.is_empty(), "self-forming battery fleet must pass: {v:?}");
    assert!(sys.resolved_controller_model_id(&registry).is_none());
}

#[test]
fn backup_without_controller_rejects_non_integrated_battery() {
    let registry = Registry::from_parts(vec![se_battery()], vec![se_hub()], vec![]);
    let mut sys = base_system();
    sys.batteries = vec![battery_ref(SE_BATTERY, 1)];
    sys.inverters = vec![inverter_ref(SE_HUB, 1)];
    sys.backup_capable = true;

    let violations = violations_of(&sys, &registry);
    assert_field(&violations, "controllers");
}

#[test]
fn backup_without_controller_rejects_mixed_battery_fleet() {
    let registry = Registry::from_parts(vec![ecolinx(), se_battery()], vec![se_hub()], vec![]);
    let mut sys = base_system();
    sys.batteries = vec![battery_ref(ECOLINX, 1), battery_ref(SE_BATTERY, 1)];
    sys.inverters = vec![inverter_ref(SE_HUB, 1)];
    sys.backup_capable = true;

    let violations = violations_of(&sys, &registry);
    assert_field(&violations, "controllers");
}

#[test]
fn named_orientations_resolve_to_azimuths() {
    assert_eq!(Orientation::Named(NamedOrientation::S).azimuth_deg(), 180);
    assert_eq!(Orientation::Named(NamedOrientation::FLAT).azimuth_deg(), 180);
    assert_eq!(Orientation::Named(NamedOrientation::SSW).azimuth_deg(), 202);
    assert_eq!(Orientation::Named(NamedOrientation::N).azimuth_deg(), 0);
    assert_eq!(Orientation::Azimuth(33).azimuth_deg(), 33);
}

#[test]
fn out_of_range_azimuth_is_enumerated() {
    let registry = Registry::from_parts(vec![], vec![], vec![]);
    let mut sys = base_system();
    sys.pv = Some(PvConfig { orientation: Orientation::Azimuth(360), pv_inverter_model_id: None });
    let v = violations_of(&sys, &registry);
    assert_field(&v, "pv.orientation");
}

#[test]
fn numeric_findings_are_reported_in_rule_order() {
    let registry = Registry::from_parts(vec![], vec![], vec![]);
    let mut sys = base_system();
    sys.batteries = vec![battery_ref("no.such_battery", 0)];
    sys.inverters = vec![];
    sys.controllers = vec![];
    let findings = NumericFindings {
        battery_lines: vec![vec![violation("batteries[0].reserve_frac", "reserve fraction must lie in [0, 1]".to_owned())]],
        microinverters: vec![],
        generator: vec![],
        pv: vec![],
        free_parameters: vec![violation("main_panel.service_rating_a", "service rating must be finite and > 0".to_owned())],
    };
    let v = sys.system_violations(&registry, &findings);
    let fields: Vec<&str> = v.iter().map(|x| x.field.as_str()).collect();
    assert_eq!(
        fields,
        vec!["batteries[0].quantity", "batteries[0].reserve_frac", "batteries[0].model_id", "main_panel.service_rating_a"]
    );
}
