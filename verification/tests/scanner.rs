use meshy::bluetooth::scanner::{is_meshcore_name, normalize_uuids};
use meshy::bluetooth::scanner::{fingerprint, name_or_unknown, AddressKind, DiscoveryLog};

#[test]
fn meshcore_name_prefix_matches() {
    assert!(is_meshcore_name("MeshCore-🐲Froogal"));
    assert!(is_meshcore_name("MeshCoreTest"));
}

#[test]
fn non_meshcore_name_rejects() {
    assert!(!is_meshcore_name("NotMeshCore"));
    assert!(!is_meshcore_name("meshcore"));
    assert!(!is_meshcore_name(""));
}

#[test]
fn normalize_uuids_sorts_and_dedups() {
    let uuids = Some(vec!["b".into(), "a".into(), "b".into()]);
    let normalized = normalize_uuids(uuids);
    assert_eq!(normalized, Some(vec!["a".into(), "b".into()]));
}

#[test]
fn normalize_uuids_none_returns_none() {
    assert_eq!(normalize_uuids(None), None);
}

#[test]
fn normalize_uuids_orders_by_code_point() {
    let uuids = Some(vec![
        "6e400003-b5a3".to_string(),
        "6E400001-B5A3".to_string(),
        "6e400001-b5a3".to_string(),
        "ab".to_string(),
        "a".to_string(),
        "6E400001-B5A3".to_string(),
    ]);
    let normalized = normalize_uuids(uuids).unwrap();
    assert_eq!(
        normalized,
        vec!["6E400001-B5A3", "6e400001-b5a3", "6e400003-b5a3", "a", "ab"]
    );
}

#[test]
fn normalize_uuids_is_idempotent() {
    let once = normalize_uuids(Some(vec!["c".into(), "a".into(), "b".into(), "a".into()]));
    let twice = normalize_uuids(once.clone());
    assert_eq!(once, twice);
    assert_eq!(normalize_uuids(Some(Vec::new())), Some(Vec::new()));
}

#[test]
fn unnamed_device_is_unknown() {
    assert_eq!(name_or_unknown(None), "Unknown");
    assert_eq!(name_or_unknown(Some("MeshCore-x".into())), "MeshCore-x");
}

#[test]
fn discovery_log_reports_each_fingerprint_once() {
    let mut log = DiscoveryLog::new();
    let fp = || fingerprint(AddressKind::LeRandom, "MeshCore-1".into(), Some(vec!["b".into(), "a".into()]));
    assert!(log.record(fp()));
    assert!(!log.record(fp()));
    // same UUIDs in another order are the same fingerprint
    assert!(!log.record(fingerprint(AddressKind::LeRandom, "MeshCore-1".into(), Some(vec!["a".into(), "b".into()]))));
    // another address kind is another device
    assert!(log.record(fingerprint(AddressKind::LePublic, "MeshCore-1".into(), Some(vec!["a".into(), "b".into()]))));
    assert!(log.record(fingerprint(AddressKind::LeRandom, "MeshCore-1".into(), None)));
}

#[test]
fn scanned_devices_need_a_meshcore_name() {
    let mut log = DiscoveryLog::new();
    assert!(!log.admit_scanned(fingerprint(AddressKind::LePublic, "Headphones".into(), None)));
    assert!(log.admit_scanned(fingerprint(AddressKind::LePublic, "MeshCore-7".into(), None)));
    assert!(!log.admit_scanned(fingerprint(AddressKind::LePublic, "MeshCore-7".into(), None)));
}
