use vyuta::params::{decode_id, encode_id, ParamStore};
use vyuta::preflight::normalize_param_type;

fn bits(x: f32) -> u32 {
    x.to_bits()
}

fn differs(a: u32, b: u32) -> bool {
    (f32::from_bits(a) - f32::from_bits(b)).abs() > f32::EPSILON
}

#[test]
fn id_roundtrip() {
    let raw = encode_id("MC_ROLLRATE_P");
    assert_eq!(decode_id(&raw), "MC_ROLLRATE_P");
    let exact = encode_id("ABCDEFGHIJKLMNOP");
    assert_eq!(decode_id(&exact), "ABCDEFGHIJKLMNOP");
}

#[test]
fn long_ids_are_cut_at_sixteen_bytes() {
    let raw = encode_id("ABCDEFGHIJKLMNOPQRS");
    assert_eq!(&raw, b"ABCDEFGHIJKLMNOP");
    let short = encode_id("AB");
    assert_eq!(short[2..], [0u8; 14]);
}

#[test]
fn upsert_bumps_version_and_tracks_changes() {
    let mut s = ParamStore::new();
    s.upsert("A".into(), bits(1.0), 9, 0, 2);
    s.upsert("B".into(), bits(2.0), 9, 1, 2);
    let v = s.current_version();
    assert_eq!(s.received(), 2);
    assert_eq!(s.total(), 2);
    s.upsert("A".into(), bits(1.5), 9, 0, 2);
    let changed = s.changed_since(v);
    assert_eq!(changed.len(), 1);
    assert_eq!(changed[0].id, "A");
    assert_eq!(f32::from_bits(changed[0].value_bits), 1.5);
}

#[test]
fn set_local_returns_type_and_updates() {
    let mut s = ParamStore::new();
    s.upsert("MPC_XY_P".into(), bits(0.95), 9, 0, 1);
    assert_eq!(s.set_local("MPC_XY_P", bits(1.2)), Some(9));
    assert!(s.set_local("UNKNOWN", bits(1.0)).is_none());
}

#[test]
fn snapshot_diff_detects_change_add_remove() {
    let mut s = ParamStore::new();
    s.upsert("A".into(), bits(1.0), 9, 0, 3);
    s.upsert("B".into(), bits(2.0), 9, 1, 3);
    s.save_snapshot("base".into());
    s.set_local("A", bits(1.5));
    s.upsert("C".into(), bits(9.0), 9, 2, 4);
    let diff = s.diff("base", differs).unwrap();
    let kinds: Vec<_> = diff.iter().map(|d| (d.id.as_str(), d.kind)).collect();
    assert!(kinds.contains(&("A", "changed")));
    assert!(kinds.contains(&("C", "added")));
    assert!(!kinds.iter().any(|(_, k)| *k == "removed"));
    assert!(s.diff("missing", differs).is_none());
}

#[test]
fn diff_ignores_tiny_changes_and_orders_entries() {
    let mut s = ParamStore::new();
    s.upsert("ZETA".into(), bits(1.0), 9, 0, 0);
    s.upsert("ALPHA".into(), bits(2.0), 9, 1, 0);
    assert_eq!(s.save_snapshot("snap".into()), 2);
    let mut t = ParamStore::new();
    t.upsert("MID".into(), bits(3.0), 9, 0, 0);
    assert!(t.diff("snap", differs).is_none());
    s.upsert("BETA".into(), bits(2.0), 9, 2, 0);
    s.upsert("AAA".into(), bits(0.5), 9, 3, 0);
    s.upsert("ALPHA".into(), bits(2.0 + f32::EPSILON / 4.0), 9, 1, 0);
    s.upsert("ZETA".into(), bits(4.0), 9, 0, 0);
    let d = s.diff("snap", differs).unwrap();
    let got: Vec<(&str, &str)> = d.iter().map(|e| (e.id.as_str(), e.kind)).collect();
    assert_eq!(got, vec![("AAA", "added"), ("BETA", "added"), ("ZETA", "changed")]);
    assert_eq!(d[2].from, Some(bits(1.0)));
    assert_eq!(d[2].to, Some(bits(4.0)));
    assert!(s.delete_snapshot("snap"));
    assert!(!s.delete_snapshot("snap"));
    assert!(s.snapshot_names().is_empty());
}

#[test]
fn snapshots_are_listed_by_name() {
    let mut s = ParamStore::new();
    s.save_snapshot("b".into());
    s.save_snapshot("a".into());
    s.save_snapshot("b".into());
    assert_eq!(s.snapshot_names(), vec!["a".to_string(), "b".to_string()]);
}

#[test]
fn synthetic_seed_populates_store() {
    let mut s = ParamStore::new();
    s.seed_synthetic();
    assert!(s.received() >= 40);
    assert_eq!(s.total(), s.received() as u16);
    let p = s.changed_since(0);
    let roll = p.iter().find(|p| p.id == "MC_ROLL_P").unwrap();
    assert_eq!(f32::from_bits(roll.value_bits), 6.5);
    assert_eq!(roll.ptype, 9);
    // Parameters come back in id order.
    assert!(p.windows(2).all(|w| w[0].id < w[1].id));
}

#[test]
fn target_ignores_system_zero() {
    let mut s = ParamStore::new();
    assert_eq!(s.target(), (1, 1));
    s.set_target(0, 7);
    assert_eq!(s.target(), (1, 1));
    s.set_target(3, 7);
    assert_eq!(s.target(), (3, 7));
}

#[test]
fn param_type_mapping() {
    assert_eq!(normalize_param_type(6), 6);
    assert_eq!(normalize_param_type(9), 9);
    assert_eq!(normalize_param_type(99), 9);
}

#[test]
fn diff_right_after_saving_is_empty() {
    let mut s = ParamStore::new();
    s.seed_synthetic();
    s.save_snapshot("now".into());
    assert!(s.diff("now", differs).unwrap().is_empty());
    assert!(s.diff("now", |a: u32, b: u32| a != b).unwrap().is_empty());
}

#[test]
fn only_the_written_parameter_is_newer_than_the_old_version() {
    let mut s = ParamStore::new();
    s.seed_synthetic();
    let v = s.current_version();
    s.upsert("MPC_XY_P".into(), bits(1.1), 9, 10, 40);
    let changed = s.changed_since(v);
    assert_eq!(changed.len(), 1);
    assert_eq!(changed[0].id, "MPC_XY_P");
    assert_eq!(changed[0].version, v + 1);
    assert_eq!(s.received(), 40);
    s.upsert("NEW_PARAM".into(), bits(2.0), 9, 40, 41);
    assert_eq!(s.received(), 41);
    assert_eq!(s.total(), 41);
    let v = s.current_version();
    assert_eq!(s.set_local("MC_ROLL_P", bits(7.0)), Some(9));
    let changed = s.changed_since(v);
    assert_eq!(changed.len(), 1);
    assert_eq!(changed[0].id, "MC_ROLL_P");
    let v = s.current_version();
    assert!(s.set_local("NOPE", bits(1.0)).is_none());
    assert!(s.changed_since(v).is_empty());
}
