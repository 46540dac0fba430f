use spectraguard::text::{parse_u64, truncate_message, u64_to_decimal};

#[test]
fn long_messages_are_cut_with_an_ellipsis() {
    assert_eq!(truncate_message("short", 96), "short");
    assert_eq!(truncate_message("abcdef", 3), "abc…");
    assert_eq!(truncate_message("héllo", 2), "hé…");
    assert_eq!(truncate_message("abc", 3), "abc");
}

#[test]
fn decimals_round_trip() {
    assert_eq!(u64_to_decimal(0), "0");
    assert_eq!(u64_to_decimal(u64::MAX), "18446744073709551615");
    assert_eq!(parse_u64("18446744073709551615"), Some(u64::MAX));
    assert_eq!(parse_u64("18446744073709551616"), None);
    assert_eq!(parse_u64("+5"), Some(5));
    assert_eq!(parse_u64(""), None);
    assert_eq!(parse_u64("12a"), None);
}
