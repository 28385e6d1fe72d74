use batty::civil::ymd_from_unix;
use batty::panels::{date_in_range, format_system_time};

#[test]
fn epoch_is_first_of_january_1970() {
    assert_eq!(ymd_from_unix(0), (1970, 1, 1));
    assert_eq!(ymd_from_unix(86_399), (1970, 1, 1));
    assert_eq!(ymd_from_unix(86_400), (1970, 1, 2));
}

#[test]
fn seconds_before_the_epoch_fall_on_earlier_days() {
    assert_eq!(ymd_from_unix(-1), (1969, 12, 31));
    assert_eq!(ymd_from_unix(-86_400), (1969, 12, 31));
    assert_eq!(ymd_from_unix(-86_401), (1969, 12, 30));
    assert_eq!(ymd_from_unix(-2_208_988_800), (1900, 1, 1));
}

#[test]
fn leap_days_and_century_rules() {
    assert_eq!(ymd_from_unix(951_782_400), (2000, 2, 29));
    assert_eq!(ymd_from_unix(1_709_164_800), (2024, 2, 29));
    assert_eq!(ymd_from_unix(1_709_164_800 + 86_400), (2024, 3, 1));
    // 2100 is not a leap year: the day after February 28 is March 1.
    assert_eq!(ymd_from_unix(4_107_542_400), (2100, 3, 1));
    assert_eq!(ymd_from_unix(4_107_542_400 - 86_400), (2100, 2, 28));
}

#[test]
fn cf_epoch_and_a_recent_date() {
    assert_eq!(ymd_from_unix(978_307_200), (2001, 1, 1));
    assert_eq!(ymd_from_unix(1_700_000_000), (2023, 11, 14));
    assert_eq!(ymd_from_unix(2_147_472_000), (2038, 1, 19));
}

#[test]
fn first_use_dates_are_zero_padded() {
    assert_eq!(format_system_time(978_307_200), "2001-01-01");
    assert_eq!(format_system_time(1_700_000_000), "2023-11-14");
    assert_eq!(format_system_time(0), "1970-01-01");
}

#[test]
fn days_follow_each_other() {
    let mut t: i64 = 951_696_000; // 2000-02-28
    let expected = [(2000, 2, 28), (2000, 2, 29), (2000, 3, 1), (2000, 3, 2)];
    for e in expected {
        assert_eq!(ymd_from_unix(t), e);
        assert_eq!(ymd_from_unix(t + 86_399), e);
        t += 86_400;
    }
    assert_eq!(ymd_from_unix(1_703_980_800), (2023, 12, 31));
    assert_eq!(ymd_from_unix(1_703_980_800 + 86_400), (2024, 1, 1));
}

#[test]
fn dates_in_range() {
    assert!(date_in_range(0));
    assert!(date_in_range(67_767_976_233_532_799));
    assert!(!date_in_range(67_767_976_233_532_800));
    assert!(!date_in_range(u64::MAX));
    // The last day whose year fits an i32.
    assert_eq!(format_system_time(67_767_976_233_532_799), "2147483647-12-31");
    // The first years of the last era, which the conversion also handles.
    assert_eq!(format_system_time(67_767_974_723_952_000), "2147483600-03-01");
}
