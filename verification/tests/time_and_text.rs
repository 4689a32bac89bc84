use polymarket_arb_bot::text::{chars_of, text_contains, text_starts_with};
use polymarket_arb_bot::time::Timestamp;

fn t(secs: i64, nanos: u32) -> Timestamp {
    Timestamp { secs, nanos }
}

#[test]
fn whole_seconds_rounds_toward_zero() {
    assert_eq!(t(100, 0).whole_seconds_since(&t(0, 0)), 100);
    assert_eq!(t(100, 0).whole_seconds_since(&t(0, 500_000_000)), 99);
    assert_eq!(t(0, 0).whole_seconds_since(&t(100, 500_000_000)), -100);
    assert_eq!(t(0, 0).whole_seconds_since(&t(0, 999_999_999)), 0);
    assert_eq!(t(5, 999_999_999).whole_seconds_since(&t(5, 0)), 0);
    assert_eq!(t(-1, 0).whole_seconds_since(&t(1, 0)), -2);
}

#[test]
fn whole_seconds_extreme_instants() {
    assert_eq!(t(i64::MAX, 0).whole_seconds_since(&t(i64::MIN, 0)), u64::MAX as i128);
}

#[test]
fn leap_second_counts_when_other_instant_is_earlier_in_its_day() {
    // 23:59:60.5 on day 1 against 00:00:10 on day 1.
    let leap = t(86_400 + 86_399, 1_500_000_000);
    let earlier = t(86_400 + 10, 0);
    assert_eq!(leap.whole_seconds_since(&earlier), 86_390);
    // A leap second at 00:00:59 of day 1 against 00:01:40 of day 0, an instant later in
    // its day: the leap second adds nothing.
    let leap_early = t(86_400 + 59, 1_200_000_000);
    assert_eq!(leap_early.whole_seconds_since(&t(100, 0)), 86_359);
}

#[test]
fn before_is_lexicographic() {
    assert!(t(1, 5).is_before(&t(2, 0)));
    assert!(t(1, 5).is_before(&t(1, 6)));
    assert!(!t(1, 6).is_before(&t(1, 6)));
    assert!(!t(2, 0).is_before(&t(1, 999)));
}

#[test]
fn contains_and_prefix() {
    assert!(text_contains("btc-updown-15m-1700", "btc-updown-15m"));
    assert!(!text_contains("btc-upDown-15m", "btc-updown-15m"));
    assert!(text_contains("abc", ""));
    assert!(!text_contains("ab", "abc"));
    assert!(text_contains("ééup", "up"));
    assert!(text_starts_with("0xabc", "0x"));
    assert!(!text_starts_with("abc0x", "0x"));
    assert!(!text_starts_with("0", "0x"));
}

#[test]
fn chars_are_unicode_scalars() {
    assert_eq!(chars_of("aé😀"), vec!['a', 'é', '😀']);
}
