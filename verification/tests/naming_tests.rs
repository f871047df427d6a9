use btm::{parse_height, snapshot_name, u64_to_decimal};

#[test]
fn decimal_formatting_is_plain() {
    assert_eq!(u64_to_decimal(0), "0");
    assert_eq!(u64_to_decimal(7), "7");
    assert_eq!(u64_to_decimal(10), "10");
    assert_eq!(u64_to_decimal(123456), "123456");
    assert_eq!(u64_to_decimal(u64::MAX), "18446744073709551615");
}

#[test]
fn snapshot_names_follow_the_convention() {
    assert_eq!(snapshot_name("zfs/data", 123456), "zfs/data@123456");
    assert_eq!(snapshot_name("/btrfs/data", 0), "/btrfs/data@0");
    assert_eq!(snapshot_name("pool/vol", 42), "pool/vol@42");
}

#[test]
fn heights_parse_back_from_their_decimal_form() {
    assert_eq!(parse_height("0"), Some(0));
    assert_eq!(parse_height("123456"), Some(123456));
    assert_eq!(parse_height("007"), Some(7));
    assert_eq!(parse_height("18446744073709551615"), Some(u64::MAX));
}

#[test]
fn malformed_heights_are_rejected() {
    assert_eq!(parse_height(""), None);
    assert_eq!(parse_height("12a"), None);
    assert_eq!(parse_height("-5"), None);
    assert_eq!(parse_height(" 5"), None);
    // one above the largest height
    assert_eq!(parse_height("18446744073709551616"), None);
}

#[test]
fn round_trip_through_the_naming_convention() {
    for h in [0u64, 1, 9, 10, 4096, 123456, u64::MAX] {
        let name = snapshot_name("pool/vol", h);
        let suffix = name.strip_prefix("pool/vol@").unwrap();
        assert_eq!(parse_height(suffix), Some(h));
    }
}
