use rdir::format::civil_from_days;
use rdir::format::format_time;
use rdir::format::is_leap_year;

#[test]
fn epoch_is_the_start_of_1970() {
    assert_eq!(format_time(0), "1970-01-01 00:00");
}

#[test]
fn leap_day_of_2024() {
    // day 59 of 2024 (counting from 0) is 29 February
    let days_to_2024: u64 = 19723;
    assert_eq!(civil_from_days(days_to_2024), (2024, 1, 1));
    assert_eq!(civil_from_days(days_to_2024 + 59), (2024, 2, 29));
    assert_eq!(civil_from_days(days_to_2024 + 60), (2024, 3, 1));
    assert_eq!(format_time((days_to_2024 + 59) * 86_400), "2024-02-29 00:00");
}

#[test]
fn no_leap_day_in_2023() {
    let days_to_2023: u64 = 19358;
    assert_eq!(civil_from_days(days_to_2023 + 58), (2023, 2, 28));
    assert_eq!(civil_from_days(days_to_2023 + 59), (2023, 3, 1));
}

#[test]
fn hours_and_minutes() {
    assert_eq!(format_time(59), "1970-01-01 00:00");
    assert_eq!(format_time(60), "1970-01-01 00:01");
    assert_eq!(format_time(3_600), "1970-01-01 01:00");
    assert_eq!(format_time(86_399), "1970-01-01 23:59");
    assert_eq!(format_time(86_400), "1970-01-02 00:00");
    assert_eq!(format_time(1_700_000_000), "2023-11-14 22:13");
    assert_eq!(format_time(951_782_400), "2000-02-29 00:00");
    assert_eq!(format_time(4_107_542_400), "2100-03-01 00:00");
}

#[test]
fn last_day_of_a_year() {
    assert_eq!(format_time(365 * 86_400 - 1), "1970-12-31 23:59");
    assert_eq!(format_time(365 * 86_400), "1971-01-01 00:00");
}

#[test]
fn far_future_has_more_than_four_year_digits() {
    assert_eq!(format_time(253_402_300_800), "10000-01-01 00:00");
    assert_eq!(format_time(u64::MAX), "584554051223-11-09 07:00");
}

#[test]
fn leap_year_rule() {
    assert!(is_leap_year(2024));
    assert!(is_leap_year(2000));
    assert!(is_leap_year(1600));
    assert!(!is_leap_year(1900));
    assert!(!is_leap_year(2100));
    assert!(!is_leap_year(2023));
    assert!(is_leap_year(0));
    assert!(is_leap_year(-4));
    assert!(!is_leap_year(-100));
    assert!(is_leap_year(-400));
    assert!(!is_leap_year(i32::MAX));
    assert!(is_leap_year(i32::MIN));
}

#[test]
fn dates_follow_one_another() {
    let mut days: u64 = 0;
    let mut expect = (1970u64, 1u8, 1u8);
    while days < 400 * 366 {
        assert_eq!(civil_from_days(days), expect);
        let (y, m, d) = expect;
        let leap = (y % 4 == 0 && y % 100 != 0) || y % 400 == 0;
        let len = match m {
            2 => if leap { 29 } else { 28 },
            4 | 6 | 9 | 11 => 30,
            _ => 31,
        };
        expect = if d < len {
            (y, m, d + 1)
        } else if m < 12 {
            (y, m + 1, 1)
        } else {
            (y + 1, 1, 1)
        };
        days += 1;
    }
}
