use btm::{BtmCfg, Error, SnapAlgo, SnapMode, SnapStore};

fn cfg(mode: SnapMode) -> BtmCfg {
    let mut c = BtmCfg::new();
    c.mode = mode;
    c
}

#[test]
fn snapshot_then_list_round_trip() {
    let c = cfg(SnapMode::Zfs);
    let mut store = SnapStore::new();
    assert!(c.snapshot(&mut store, 7).is_ok());
    let list = c.get_sorted_snapshots(&store).unwrap();
    assert_eq!(list[0], 7);
    assert!(c.snapshot(&mut store, 12).is_ok());
    let list = c.get_sorted_snapshots(&store).unwrap();
    assert_eq!(list[0], 12);
    assert_eq!(list, vec![12, 7]);
}

#[test]
fn snapshot_overwrites_same_height() {
    let c = cfg(SnapMode::Btrfs);
    let mut store = SnapStore::new();
    assert!(c.snapshot(&mut store, 5).is_ok());
    assert!(c.snapshot(&mut store, 5).is_ok());
    let list = c.get_sorted_snapshots(&store).unwrap();
    assert_eq!(list, vec![5]);
}

#[test]
fn strict_rollback_is_rejected_when_newer_snapshots_exist() {
    let c = cfg(SnapMode::Zfs);
    let mut store = SnapStore::from_heights(vec![30, 20, 10]);
    let r = c.rollback(&mut store, Some(20), true);
    assert_eq!(r, Err(Error::StrictRollbackRejected));
    // the set is untouched by the refusal
    assert_eq!(c.get_sorted_snapshots(&store).unwrap(), vec![30, 20, 10]);
}

#[test]
fn non_strict_rollback_discards_newer_snapshots() {
    let c = cfg(SnapMode::Zfs);
    let mut store = SnapStore::from_heights(vec![30, 20, 10]);
    let r = c.rollback(&mut store, Some(20), false);
    assert!(r.is_ok());
    let list = c.get_sorted_snapshots(&store).unwrap();
    assert_eq!(list, vec![20, 10]);
    assert!(!list.contains(&30));
}

#[test]
fn strict_rollback_to_newest_succeeds() {
    let c = cfg(SnapMode::Zfs);
    let mut store = SnapStore::from_heights(vec![30, 20, 10]);
    assert!(c.rollback(&mut store, Some(30), true).is_ok());
    assert_eq!(c.get_sorted_snapshots(&store).unwrap(), vec![30, 20, 10]);
}

#[test]
fn rollback_without_target_uses_most_recent() {
    let c = cfg(SnapMode::Btrfs);
    let mut store = SnapStore::from_heights(vec![30, 20, 10]);
    assert!(c.rollback(&mut store, None, true).is_ok());
    assert_eq!(c.get_sorted_snapshots(&store).unwrap(), vec![30, 20, 10]);
}

#[test]
fn rollback_to_missing_target_fails() {
    let c = cfg(SnapMode::Zfs);
    let mut store = SnapStore::from_heights(vec![30, 20, 10]);
    assert_eq!(c.rollback(&mut store, Some(25), false), Err(Error::TargetNotFound));
    let mut empty = SnapStore::new();
    assert_eq!(c.rollback(&mut empty, None, false), Err(Error::TargetNotFound));
}

#[test]
fn external_mode_rejects_list_and_rollback_but_snapshots() {
    let c = cfg(SnapMode::External);
    let mut store = SnapStore::new();
    assert_eq!(c.get_sorted_snapshots(&store), Err(Error::UnsupportedOperation));
    assert_eq!(c.rollback(&mut store, Some(1), false), Err(Error::UnsupportedOperation));
    assert!(c.snapshot(&mut store, 42).is_ok());
    assert_eq!(store.newest(), Some(42));
}

#[test]
fn disabled_configuration_makes_lifecycle_calls_no_ops() {
    let mut c = cfg(SnapMode::Zfs);
    c.enable = false;
    let mut store = SnapStore::from_heights(vec![30, 20, 10]);
    assert!(c.snapshot(&mut store, 40).is_ok());
    assert!(c.prune(&mut store).is_ok());
    assert!(c.clean_snapshots(&mut store).is_ok());
    assert_eq!(store.len(), 3);
    assert_eq!(store.newest(), Some(30));
}

#[test]
fn prune_applies_the_fair_policy() {
    let mut c = cfg(SnapMode::Zfs);
    c.cap = 3;
    c.algo = SnapAlgo::Fair;
    let mut store = SnapStore::from_heights(vec![50, 40, 30, 20, 10]);
    assert!(c.prune(&mut store).is_ok());
    assert_eq!(c.get_sorted_snapshots(&store).unwrap(), vec![50, 40, 30]);
}

#[test]
fn prune_applies_the_fade_policy() {
    let mut c = cfg(SnapMode::Zfs);
    c.cap = 5;
    c.itv = 10;
    c.algo = SnapAlgo::Fade;
    let mut store = SnapStore::from_heights(vec![100, 90, 80, 70, 60, 50, 40, 30, 20, 10]);
    assert!(c.prune(&mut store).is_ok());
    assert_eq!(c.get_sorted_snapshots(&store).unwrap(), vec![100, 90]);
}

#[test]
fn prune_under_external_mode_fails() {
    let c = cfg(SnapMode::External);
    let mut store = SnapStore::from_heights(vec![30, 20, 10]);
    assert_eq!(c.prune(&mut store), Err(Error::UnsupportedOperation));
    assert_eq!(store.len(), 3);
}

#[test]
fn clean_keeps_the_configured_number_of_survivors() {
    let mut c = cfg(SnapMode::Zfs);
    c.cap_clean_kept = 2;
    let mut store = SnapStore::from_heights(vec![50, 40, 30, 20, 10]);
    assert!(c.clean_snapshots(&mut store).is_ok());
    assert_eq!(c.get_sorted_snapshots(&store).unwrap(), vec![50, 40]);
}

#[test]
fn clean_with_zero_kept_empties_the_set() {
    let c = cfg(SnapMode::Btrfs);
    let mut store = SnapStore::from_heights(vec![3, 2, 1]);
    assert!(c.clean_snapshots(&mut store).is_ok());
    assert_eq!(store.len(), 0);
    let list = c.get_sorted_snapshots(&store).unwrap();
    assert!(list.is_empty());
}

#[test]
fn guess_mode_probes_in_priority_order() {
    assert!(matches!(BtmCfg::guess_mode(true, false), Ok(SnapMode::Zfs)));
    assert!(matches!(BtmCfg::guess_mode(true, true), Ok(SnapMode::Zfs)));
    assert!(matches!(BtmCfg::guess_mode(false, true), Ok(SnapMode::Btrfs)));
    assert_eq!(BtmCfg::guess_mode(false, false), Err(Error::NoBackendDetected));
}

#[test]
fn store_contains_and_newest() {
    let store = SnapStore::from_heights(vec![9, 4, 1]);
    assert!(store.contains(4));
    assert!(!store.contains(5));
    assert_eq!(store.newest(), Some(9));
    assert_eq!(store.len(), 3);
    let empty = SnapStore::new();
    assert_eq!(empty.newest(), None);
}
