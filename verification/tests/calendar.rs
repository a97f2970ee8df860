use repolyzer::calendar::{
    calendar_slot, follows_within_one_day, in_trailing_year, timestamp_text, weekday_of, Weekday,
    CALENDAR_SLOTS, LAST_DATED_TIMESTAMP, SECONDS_PER_DAY, SECONDS_PER_YEAR,
};
use repolyzer::stats::{longest_nonzero_run, max_count, total_count, RepositoryStats};

#[test]
fn constants_of_the_calendar() {
    assert_eq!(SECONDS_PER_DAY, 86_400);
    assert_eq!(SECONDS_PER_YEAR, 365 * 86_400);
    assert_eq!(CALENDAR_SLOTS, 365);
}

#[test]
fn calendar_slot_is_the_day_number_modulo_365() {
    assert_eq!(calendar_slot(0), 0);
    assert_eq!(calendar_slot(86_399), 0);
    assert_eq!(calendar_slot(86_400), 1);
    assert_eq!(calendar_slot(364 * 86_400), 364);
    assert_eq!(calendar_slot(365 * 86_400), 0);
    assert_eq!(calendar_slot(19_000 * 86_400 + 12), 20);
    assert_eq!(calendar_slot(u64::MAX), ((u64::MAX / 86_400) % 365) as usize);
}

#[test]
fn trailing_year_is_open_at_its_start() {
    let now = 1_700_000_000u64;
    assert!(in_trailing_year(now, now));
    assert!(in_trailing_year(now + 10, now));
    assert!(in_trailing_year(now - 31_536_000 + 1, now));
    assert!(!in_trailing_year(now - 31_536_000, now));
    assert!(!in_trailing_year(0, now));
    assert!(in_trailing_year(0, 31_535_999));
    assert!(!in_trailing_year(0, 31_536_000));
    assert!(in_trailing_year(1, 31_536_000));
}

#[test]
fn within_one_day_is_strict() {
    assert!(follows_within_one_day(200_000, 200_000));
    assert!(follows_within_one_day(200_000, 200_000 - 86_399));
    assert!(!follows_within_one_day(200_000, 200_000 - 86_400));
    assert!(follows_within_one_day(200_000, 900_000));
    assert!(follows_within_one_day(100, 0));
    assert!(follows_within_one_day(86_399, 0));
    assert!(!follows_within_one_day(86_400, 0));
}

#[test]
fn weekday_of_known_dates() {
    // 1 January 1970
    assert_eq!(weekday_of(0), Some(Weekday::Thu));
    assert_eq!(weekday_of(86_399), Some(Weekday::Thu));
    assert_eq!(weekday_of(86_400), Some(Weekday::Fri));
    // 15 May 2015
    assert_eq!(weekday_of(1_431_648_000), Some(Weekday::Fri));
    // 29 February 2024
    assert_eq!(weekday_of(1_709_164_800), Some(Weekday::Thu));
    // 1 January 2000
    assert_eq!(weekday_of(946_684_800), Some(Weekday::Sat));
    // 8 January 2022
    assert_eq!(weekday_of(19_000 * 86_400), Some(Weekday::Sat));
}

#[test]
fn weekday_of_every_day_of_a_week() {
    let monday = 1_704_067_200u64; // 1 January 2024
    let days = [
        Weekday::Mon, Weekday::Tue, Weekday::Wed, Weekday::Thu, Weekday::Fri, Weekday::Sat,
        Weekday::Sun,
    ];
    for (i, day) in days.iter().enumerate() {
        assert_eq!(weekday_of(monday + i as u64 * 86_400), Some(*day));
        assert_eq!(day.num_days_from_monday(), i);
    }
    assert_eq!(weekday_of(monday + 7 * 86_400), Some(Weekday::Mon));
}

#[test]
fn weekday_of_ends_with_the_last_date() {
    assert_eq!(LAST_DATED_TIMESTAMP, 8_210_266_876_799);
    // 31 December 262142
    assert_eq!(weekday_of(LAST_DATED_TIMESTAMP), Some(Weekday::Mon));
    assert_eq!(weekday_of(LAST_DATED_TIMESTAMP - 86_400), Some(Weekday::Sun));
    assert_eq!(weekday_of(LAST_DATED_TIMESTAMP + 1), None);
    assert_eq!(weekday_of(i64::MAX as u64), None);
    assert_eq!(weekday_of(i64::MAX as u64 + 1), None);
    assert_eq!(weekday_of(u64::MAX), None);
}

#[test]
fn weekday_from_days_from_monday_wraps() {
    assert_eq!(Weekday::from_days_from_monday(0), Weekday::Mon);
    assert_eq!(Weekday::from_days_from_monday(6), Weekday::Sun);
    assert_eq!(Weekday::from_days_from_monday(7), Weekday::Mon);
    assert_eq!(Weekday::from_days_from_monday(10), Weekday::Thu);
    assert_eq!(Weekday::from_days_from_monday(u32::MAX), Weekday::Thu);
}

#[test]
fn timestamp_text_is_day_first() {
    assert_eq!(timestamp_text(0), Some("01-01-1970 00:00:00".to_string()));
    assert_eq!(timestamp_text(1_431_648_000), Some("15-05-2015 00:00:00".to_string()));
    assert_eq!(timestamp_text(1_709_251_199), Some("29-02-2024 23:59:59".to_string()));
}

#[test]
fn timestamp_text_ends_with_the_last_date() {
    assert!(timestamp_text(LAST_DATED_TIMESTAMP).is_some());
    assert_eq!(timestamp_text(LAST_DATED_TIMESTAMP + 1), None);
    assert_eq!(timestamp_text(u64::MAX), None);
}

#[test]
fn last_commit_text_of_statistics() {
    let mut stats = RepositoryStats::new();
    assert_eq!(stats.last_commit_text(), Some("01-01-1970 00:00:00".to_string()));
    stats.last_commit_timestamp = 946_684_800 + 3_661;
    assert_eq!(stats.last_commit_text(), Some("01-01-2000 01:01:01".to_string()));
    stats.last_commit_timestamp = u64::MAX;
    assert_eq!(stats.last_commit_text(), None);
}

#[test]
fn max_count_of_counts() {
    assert_eq!(max_count(&[]), 0);
    assert_eq!(max_count(&[0, 0, 0]), 0);
    assert_eq!(max_count(&[3, 9, 2, 9, 1]), 9);
    assert_eq!(max_count(&[usize::MAX, 1]), usize::MAX);
}

#[test]
fn total_count_of_counts() {
    assert_eq!(total_count(&[]), 0);
    assert_eq!(total_count(&[3, 9, 2, 9, 1]), 24);
    assert_eq!(total_count(&[usize::MAX, 0]), usize::MAX);
}

#[test]
fn longest_nonzero_run_of_counts() {
    assert_eq!(longest_nonzero_run(&[]), 0);
    assert_eq!(longest_nonzero_run(&[0, 0]), 0);
    assert_eq!(longest_nonzero_run(&[1]), 1);
    assert_eq!(longest_nonzero_run(&[1, 2, 0, 3, 4, 5, 0, 6]), 3);
    assert_eq!(longest_nonzero_run(&[0, 1, 1, 1, 1]), 4);
    assert_eq!(longest_nonzero_run(&[1, 1, 0, 1]), 2);
}
