use btm::{BtmCfg, Error, SnapAlgo, SnapMode, CAP_MAX, STEP_CNT};

#[test]
fn mode_from_string_accepts_known_names() {
    assert!(matches!(SnapMode::from_string("zfs"), Ok(SnapMode::Zfs)));
    assert!(matches!(SnapMode::from_string("Zfs"), Ok(SnapMode::Zfs)));
    assert!(matches!(SnapMode::from_string("ZFS"), Ok(SnapMode::Zfs)));
    assert!(matches!(SnapMode::from_string("btrfs"), Ok(SnapMode::Btrfs)));
    assert!(matches!(SnapMode::from_string("BtrFs"), Ok(SnapMode::Btrfs)));
    assert!(matches!(SnapMode::from_string("external"), Ok(SnapMode::External)));
    assert!(matches!(SnapMode::from_string("External"), Ok(SnapMode::External)));
}

#[test]
fn mode_from_string_rejects_unknown_names() {
    assert!(matches!(SnapMode::from_string("ext4"), Err(Error::ConfigurationInvalid)));
    assert!(matches!(SnapMode::from_string(""), Err(Error::ConfigurationInvalid)));
    assert!(matches!(SnapMode::from_string("zf"), Err(Error::ConfigurationInvalid)));
    assert!(matches!(SnapMode::from_string("zfss"), Err(Error::ConfigurationInvalid)));
}

#[test]
fn algo_from_string_accepts_known_names() {
    assert!(matches!(SnapAlgo::from_string("fair"), Ok(SnapAlgo::Fair)));
    assert!(matches!(SnapAlgo::from_string("Fair"), Ok(SnapAlgo::Fair)));
    assert!(matches!(SnapAlgo::from_string("FADE"), Ok(SnapAlgo::Fade)));
    assert!(matches!(SnapAlgo::from_string("fade"), Ok(SnapAlgo::Fade)));
}

#[test]
fn algo_from_string_rejects_unknown_names() {
    assert!(matches!(SnapAlgo::from_string("fairest"), Err(Error::ConfigurationInvalid)));
    assert!(matches!(SnapAlgo::from_string("none"), Err(Error::ConfigurationInvalid)));
}

#[test]
fn mode_and_algo_names() {
    assert_eq!(SnapMode::Zfs.name(), "Zfs");
    assert_eq!(SnapMode::Btrfs.name(), "Btrfs");
    assert_eq!(SnapMode::External.name(), "External");
    assert_eq!(SnapAlgo::Fair.name(), "Fair");
    assert_eq!(SnapAlgo::Fade.name(), "Fade");
}

#[test]
fn default_configuration() {
    let cfg = BtmCfg::default();
    assert!(!cfg.enable);
    assert_eq!(cfg.itv, 10);
    assert_eq!(cfg.cap, 100);
    assert_eq!(cfg.cap_clean_kept, 0);
    assert!(matches!(cfg.mode, SnapMode::Zfs));
    assert!(matches!(cfg.algo, SnapAlgo::Fair));
    assert_eq!(cfg.volume, "zfs/data");
}

#[test]
fn new_is_enabled() {
    let cfg = BtmCfg::new();
    assert!(cfg.enable);
    assert_eq!(cfg.itv, 10);
    let hdr = BtmCfg::new_client_hdr();
    assert!(hdr.enable);
}

#[test]
fn capacity_is_clamped_to_the_ceiling() {
    let mut cfg = BtmCfg::new();
    cfg.cap = 10_000;
    assert_eq!(cfg.get_cap(), 4096);
    assert_eq!(CAP_MAX, 4096);
    cfg.cap = 4096;
    assert_eq!(cfg.get_cap(), 4096);
    cfg.cap = 100;
    assert_eq!(cfg.get_cap(), 100);
    cfg.cap = 0;
    assert_eq!(cfg.get_cap(), 0);
}

#[test]
fn step_count_is_ten() {
    assert_eq!(STEP_CNT, 10);
}

#[test]
fn from_str_trait_parses_and_reports() {
    let m: Result<SnapMode, String> = "zfs".parse();
    assert!(matches!(m, Ok(SnapMode::Zfs)));
    let m: Result<SnapMode, String> = "nope".parse();
    assert!(m.is_err());
    let a: Result<SnapAlgo, String> = "Fade".parse();
    assert!(matches!(a, Ok(SnapAlgo::Fade)));
    let a: Result<SnapAlgo, String> = "nope".parse();
    assert!(a.is_err());
}
