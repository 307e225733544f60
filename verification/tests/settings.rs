use batsim::config::{redact_keys, AuditConfig, AuthConfig, LoggingConfig, TelemetryConfig};
use batsim::system::default_true;

#[test]
fn configuration_defaults() {
    let t = TelemetryConfig::default();
    assert_eq!((t.raw_ticks, t.rollup_minutes), (3600, 1440));
    let a = AuditConfig::default();
    assert_eq!((a.idempotency_ttl_hours, a.max_commands), (24, 10000));
    let l = LoggingConfig::default();
    assert_eq!(l.filter, "info,tower_http=info");
    assert!(!l.json);
    let auth = AuthConfig::default();
    assert!(auth.api_keys.is_empty() && auth.read_only_keys.is_empty());
    assert!(default_true());
}

#[test]
fn secrets_are_redacted_to_fingerprints() {
    let auth = AuthConfig { api_keys: vec!["abc".to_owned()], read_only_keys: vec!["abc".to_owned(), "x".to_owned()] };
    let r = auth.redacted();
    assert_eq!(r.api_keys, vec!["sha256:ba7816bf8f01cfea".to_owned()]);
    assert_eq!(r.read_only_keys.len(), 2);
    assert_eq!(r.read_only_keys[0], "sha256:ba7816bf8f01cfea");
    assert!(!r.read_only_keys[1].contains('x'));
    assert_eq!(redact_keys(&vec![]), Vec::<String>::new());
}
