use batsim::catalog::{BatteryModel, CatalogEntry, CatalogManifest, Registry, RegistrySource};
use batsim::digest::hex_sha256;
use batsim::error::{join_strings, RegistryError};
use batsim::integrity::{
    catalog_sha256, check_duplicates, first_duplicate, hex_to_digest, verify_catalog_hash, verify_file_hashes,
    verify_manifest_identity, EntryFile,
};
use batsim::kinds::{Chemistry, Coupling, EntryKind, EntryKindSerde};
use batsim::load::{assemble_tree, build_manifest, entry_record, finalize, kind_of_path, layer, ParsedEntry, ParsedFile};
use batsim::violation::Violation;

fn battery(model_id: &str, display: &str) -> BatteryModel {
    BatteryModel {
        schema_version: "1.0.0".to_owned(),
        entry_version: "1.0.0".to_owned(),
        supersedes: None,
        model_id: model_id.to_owned(),
        vendor: "Tesla".to_owned(),
        display_name: display.to_owned(),
        chemistry: Chemistry::NMC,
        coupling: Coupling::ACCoupled,
        grid_forming_in_backup: true,
        requires_controller_id: None,
        integrated_inverter: Some(true),
        microinverter_count: None,
        has_power_per_microinverter: false,
        expansion: None,
        cooling: None,
    }
}

fn record(path: &str, model_id: &str, bytes: &[u8]) -> CatalogEntry {
    CatalogEntry {
        path: path.to_owned(),
        kind: EntryKindSerde::Battery,
        model_id: model_id.to_owned(),
        entry_version: "1.0.0".to_owned(),
        sha256: hex_sha256(bytes),
    }
}

fn parsed(path: &str, model_id: &str, display: &str) -> ParsedFile {
    let bytes = format!("{{\"model_id\":\"{model_id}\",\"display_name\":\"{display}\"}}");
    let entry = ParsedEntry::Battery(battery(model_id, display));
    let rec = entry_record(path, EntryKind::Battery, &entry, bytes.as_bytes());
    ParsedFile { record: rec, parsed: entry }
}

fn manifest(entries: Vec<CatalogEntry>, hash: String) -> CatalogManifest {
    CatalogManifest {
        registry_version: "1.0.0".to_owned(),
        schema_version: "1.0.0".to_owned(),
        entries,
        catalog_sha256: hash,
    }
}

#[test]
fn tampered_entry_fails_integrity_and_names_file() {
    let pw2 = b"{\"value\": 14.0}".to_vec();
    let pw3 = b"{\"value\": 13.5}".to_vec();
    let m = manifest(
        vec![
            record("batteries/tesla_powerwall_2.json", "tesla.powerwall_2", &pw2),
            record("batteries/tesla_powerwall_3.json", "tesla.powerwall_3", &pw3),
        ],
        String::new(),
    );
    let files = vec![
        EntryFile { path: "batteries/tesla_powerwall_2.json".to_owned(), bytes: pw2.clone() },
        EntryFile { path: "batteries/tesla_powerwall_3.json".to_owned(), bytes: pw3.clone() },
    ];
    assert!(verify_file_hashes(&m, &files).is_ok());

    let tampered = vec![
        EntryFile { path: "batteries/tesla_powerwall_2.json".to_owned(), bytes: b"{\"value\": 99.0}".to_vec() },
        EntryFile { path: "batteries/tesla_powerwall_3.json".to_owned(), bytes: pw3 },
    ];
    match verify_file_hashes(&m, &tampered) {
        Err(RegistryError::Integrity(msg)) => {
            assert!(msg.starts_with("batteries/tesla_powerwall_2.json: content hash mismatch"), "{msg}");
            assert!(!msg.contains("tesla_powerwall_3"), "{msg}");
        },
        other => panic!("expected integrity error, got {other:?}"),
    }
}

#[test]
fn missing_and_undeclared_files_are_all_enumerated() {
    let a = b"a".to_vec();
    let m = manifest(vec![record("batteries/a_b.json", "a.b", &a)], String::new());
    let files = vec![EntryFile { path: "batteries/c_d.json".to_owned(), bytes: a }];
    match verify_file_hashes(&m, &files) {
        Err(RegistryError::Integrity(msg)) => assert_eq!(
            msg,
            "batteries/a_b.json: declared in catalog.json but file missing; batteries/c_d.json: entry file not declared in catalog.json"
        ),
        other => panic!("expected integrity error, got {other:?}"),
    }
}

#[test]
fn tampered_catalog_hash_fails_integrity() {
    let recs = vec![record("batteries/a_b.json", "a.b", b"a"), record("batteries/c_d.json", "c.d", b"c")];
    let good = catalog_sha256(&recs);
    assert_eq!(good.len(), 64);
    assert!(verify_catalog_hash(&recs, &good).is_ok());
    let bad = "0".repeat(64);
    match verify_catalog_hash(&recs, &bad) {
        Err(RegistryError::Integrity(msg)) => {
            assert_eq!(msg, format!("catalog_sha256 mismatch: catalog.json {bad}, computed {good}"));
        },
        other => panic!("expected integrity error, got {other:?}"),
    }
    let swapped = vec![record("batteries/c_d.json", "c.d", b"c"), record("batteries/a_b.json", "a.b", b"a")];
    assert_ne!(catalog_sha256(&swapped), good, "the hash depends on record order");
}

#[test]
fn hex_digests_decode_to_raw_bytes() {
    let d = hex_to_digest("ba7816bf8f01cfea414140de5dae2223b00361a396177a9cb410ff61f20015ad");
    assert_eq!(d.len(), 32);
    assert_eq!(&d[..4], &[0xba, 0x78, 0x16, 0xbf]);
    let short = hex_to_digest("FF");
    assert_eq!(short[0], 0xff);
    assert!(short[1..].iter().all(|b| *b == 0));
}

#[test]
fn manifest_identity_and_duplicates() {
    let m = manifest(vec![record("batteries/a_b.json", "a.b", b"a")], String::new());
    let same = vec![record("batteries/a_b.json", "a.b", b"a")];
    assert!(verify_manifest_identity(&m, &same).is_ok());
    let other = vec![record("batteries/a_b.json", "a.c", b"a")];
    match verify_manifest_identity(&m, &other) {
        Err(RegistryError::Integrity(msg)) => assert_eq!(
            msg,
            "batteries/a_b.json: catalog.json identity (Battery `a.b` v1.0.0) does not match file content (Battery `a.c` v1.0.0)"
        ),
        other => panic!("expected integrity error, got {other:?}"),
    }

    let recs = vec![
        record("batteries/a_b.json", "a.b", b"a"),
        record("batteries/c_d.json", "c.d", b"c"),
        record("batteries/a_b2.json", "a.b", b"x"),
    ];
    assert_eq!(first_duplicate(&recs), Some(2));
    match check_duplicates(&recs) {
        Err(e @ RegistryError::Duplicate { .. }) => {
            assert_eq!(e.to_text(), "duplicate registry entry Battery `a.b`");
        },
        other => panic!("expected duplicate error, got {other:?}"),
    }
    assert!(check_duplicates(&recs[..2]).is_ok());
}

#[test]
fn entry_paths_select_their_kind() {
    assert_eq!(kind_of_path("batteries/a_b.json").unwrap(), EntryKind::Battery);
    assert_eq!(kind_of_path("pv_presets/x.json").unwrap(), EntryKind::PvPreset);
    match kind_of_path("misc/x.json") {
        Err(RegistryError::Integrity(m)) => assert_eq!(m, "misc/x.json: entry not under a known kind directory"),
        other => panic!("{other:?}"),
    }
}

#[test]
fn error_messages() {
    let e = RegistryError::Validation {
        violations: vec![
            Violation::new("a.json", "f", "m1".to_owned()),
            Violation::new("b.json", "g", "m2".to_owned()),
        ],
    };
    assert_eq!(e.to_text(), "registry validation failed with 2 violation(s):\na.json: f: m1\nb.json: g: m2");
    let e = RegistryError::UnknownModel { kind: EntryKind::Inverter, model_id: "x.y".to_owned() };
    assert_eq!(e.to_text(), "unknown Inverter model `x.y`");
    let e = RegistryError::Io { path: "p".to_owned(), message: "gone".to_owned() };
    assert_eq!(e.to_text(), "failed to read registry file p: gone");
    assert_eq!(join_strings(&vec!["a".to_owned(), "b".to_owned()], "; "), "a; b");
    assert_eq!(join_strings(&vec![], "; "), "");
}

#[test]
fn from_dir_without_manifest_synthesizes_one() {
    let files = vec![parsed("batteries/sonnen_ecolinx.json", "sonnen.ecolinx", "ecoLinx")];
    let (m, verify) = build_manifest(None, &files);
    assert!(!verify);
    assert_eq!(m.registry_version, "0.0.0-external");
    assert_eq!(m.entries.len(), 1);
    assert_eq!(m.catalog_sha256, catalog_sha256(&m.entries));

    let tree = assemble_tree(None, files).unwrap();
    assert!(!tree.verify_catalog_hash);
    let reg = finalize(tree, vec![], RegistrySource::Embedded).unwrap();
    assert_eq!(reg.batteries().len(), 1);
    assert!(reg.battery("sonnen.ecolinx").is_some());
}

#[test]
fn duplicate_identifiers_in_one_tree_are_refused() {
    let files = vec![
        parsed("batteries/a_b.json", "a.b", "one"),
        parsed("batteries/a_b_copy.json", "a.b", "two"),
    ];
    match assemble_tree(None, files) {
        Err(RegistryError::Duplicate { kind, model_id }) => {
            assert_eq!(kind, EntryKind::Battery);
            assert_eq!(model_id, "a.b");
        },
        other => panic!("{other:?}"),
    }
}

#[test]
fn finalize_reports_validation_and_catalog_hash() {
    let files = vec![parsed("batteries/a_b.json", "a.b", "one")];
    let (m, _) = build_manifest(None, &files);
    let declared = manifest(m.entries, "0".repeat(64));
    let tree = assemble_tree(Some(declared), files).unwrap();
    assert!(tree.verify_catalog_hash);
    match finalize(tree, vec![], RegistrySource::Embedded) {
        Err(RegistryError::Integrity(msg)) => assert!(msg.starts_with("catalog_sha256 mismatch")),
        other => panic!("{other:?}"),
    }

    let files = vec![parsed("batteries/a_b.json", "a.b", "one")];
    let tree = assemble_tree(None, files).unwrap();
    let v = vec![Violation::new("batteries/a_b.json", "f", "bad".to_owned())];
    match finalize(tree, v, RegistrySource::Embedded) {
        Err(RegistryError::Validation { violations }) => assert_eq!(violations.len(), 1),
        other => panic!("{other:?}"),
    }
}

#[test]
fn shadow_dir_overrides_one_entry_and_keeps_others() {
    let base_files = vec![
        parsed("batteries/tesla_powerwall_2.json", "tesla.powerwall_2", "14 kWh"),
        parsed("batteries/tesla_powerwall_3.json", "tesla.powerwall_3", "13.5 kWh"),
    ];
    let base_tree = assemble_tree(None, base_files).unwrap();
    let base = finalize(base_tree, vec![], RegistrySource::Embedded).unwrap();

    let ext_files = vec![parsed("batteries/tesla_powerwall_2.json", "tesla.powerwall_2", "99 kWh")];
    let ext = assemble_tree(None, ext_files).unwrap();
    let reg = layer(base, ext, vec![], "shadow".to_owned()).expect("shadow load must succeed");
    assert_eq!(
        reg.battery("tesla.powerwall_2").map(|b| b.display_name.as_str()),
        Some("99 kWh"),
        "shadow entry must win"
    );
    assert_eq!(
        reg.battery("tesla.powerwall_3").map(|b| b.display_name.as_str()),
        Some("13.5 kWh"),
        "untouched entries survive shadowing"
    );
    match reg.source() {
        RegistrySource::External { dir, shadowed } => {
            assert_eq!(dir, "shadow");
            assert_eq!(shadowed, &vec!["Battery:tesla.powerwall_2".to_owned()]);
        },
        other => panic!("expected External source, got {other:?}"),
    }
    assert_eq!(reg.manifest().entries.len(), 2);
    assert_eq!(reg.manifest().catalog_sha256, catalog_sha256(&reg.manifest().entries));
}

#[test]
fn layering_refuses_invalid_external_trees() {
    let base = Registry::from_parts(vec![], vec![], vec![]);
    let ext = assemble_tree(None, vec![parsed("batteries/a_b.json", "a.b", "x")]).unwrap();
    let v = vec![Violation::new("batteries/a_b.json", "model_id", "bad".to_owned())];
    match layer(base, ext, v, "d".to_owned()) {
        Err(RegistryError::Validation { violations }) => assert_eq!(violations[0].field, "model_id"),
        other => panic!("{other:?}"),
    }

    let base = Registry::from_parts(vec![], vec![], vec![]);
    let mut b = battery("a.b", "x");
    b.requires_controller_id = Some("no.controller".to_owned());
    let entry = ParsedEntry::Battery(b);
    let rec = entry_record("batteries/a_b.json", EntryKind::Battery, &entry, b"{}");
    let ext = assemble_tree(None, vec![ParsedFile { record: rec, parsed: entry }]).unwrap();
    match layer(base, ext, vec![], "d".to_owned()) {
        Err(RegistryError::Validation { violations }) => {
            assert_eq!(violations[0].field, "requires_controller_id")
        },
        other => panic!("{other:?}"),
    }
}
