use taskstore::model::RecurrenceRule;
use taskstore::recurrence::{next_fits_check, next_occurrence};

fn rule(freq: &str, interval: u32) -> RecurrenceRule {
    RecurrenceRule {
        freq: freq.to_string(),
        interval,
        week_days: None,
        month_days: None,
    }
}

const DAY: u64 = 86_400_000;

// 2024-01-31T00:00:00Z
const JAN_31_2024: u64 = 1_706_659_200_000;
// 2024-02-29T00:00:00Z
const FEB_29_2024: u64 = 1_709_164_800_000;
// 2023-01-31T00:00:00Z
const JAN_31_2023: u64 = 1_675_123_200_000;
// 2023-02-28T00:00:00Z
const FEB_28_2023: u64 = 1_677_542_400_000;
// 2024-03-15T00:00:00Z
const MAR_15_2024: u64 = 1_710_460_800_000;
// 2025-05-15T00:00:00Z
const MAY_15_2025: u64 = 1_747_267_200_000;

#[test]
fn monthly_clamps_to_leap_february() {
    // Jan 31 plus one month lands on the last day of February: 29 in 2024.
    let r = rule("monthly", 1);
    assert_eq!(next_occurrence(&r, JAN_31_2024), Some(FEB_29_2024));
}

#[test]
fn monthly_clamps_to_common_february() {
    // In a non-leap year the same anchor lands on Feb 28.
    let r = rule("monthly", 1);
    assert_eq!(next_occurrence(&r, JAN_31_2023), Some(FEB_28_2023));
}

#[test]
fn monthly_interval_beyond_a_year_rolls_over() {
    // March 2024 plus 14 months is May 2025.
    let r = rule("monthly", 14);
    assert_eq!(next_occurrence(&r, MAR_15_2024), Some(MAY_15_2025));
}

#[test]
fn monthly_keeps_time_of_day() {
    let tod = 12 * 3_600_000 + 34 * 60_000 + 56_789;
    let r = rule("monthly", 1);
    assert_eq!(
        next_occurrence(&r, JAN_31_2024 + tod),
        Some(FEB_29_2024 + tod)
    );
}

#[test]
fn monthly_plain_step_keeps_day() {
    // March 15 plus one month is April 15: no clamping needed.
    let r = rule("monthly", 1);
    assert_eq!(next_occurrence(&r, MAR_15_2024), Some(MAR_15_2024 + 31 * DAY));
}

#[test]
fn monthly_rolls_december_into_january() {
    // 2023-12-31T00:00:00Z plus one month is Jan 31 2024.
    let dec_31_2023: u64 = 1_703_980_800_000;
    let r = rule("monthly", 1);
    assert_eq!(next_occurrence(&r, dec_31_2023), Some(JAN_31_2024));
}

#[test]
fn monthly_clamps_leap_day_in_a_common_year() {
    // Feb 29 2024 plus twelve months is Feb 28 2025.
    let feb_28_2025: u64 = FEB_29_2024 + 365 * DAY;
    let r = rule("monthly", 12);
    assert_eq!(next_occurrence(&r, FEB_29_2024), Some(feb_28_2025));
}

#[test]
fn daily_advances_by_days() {
    let r = rule("daily", 3);
    assert_eq!(next_occurrence(&r, JAN_31_2024), Some(JAN_31_2024 + 3 * DAY));
}

#[test]
fn weekly_advances_by_weeks() {
    let r = rule("weekly", 2);
    assert_eq!(next_occurrence(&r, JAN_31_2024), Some(JAN_31_2024 + 14 * DAY));
}

#[test]
fn unknown_frequency_yields_nothing() {
    let r = rule("yearly", 1);
    assert_eq!(next_occurrence(&r, JAN_31_2024), None);
}

#[test]
fn fits_check_accepts_ordinary_inputs() {
    assert!(next_fits_check(&rule("monthly", 14), JAN_31_2024));
    assert!(next_fits_check(&rule("daily", 30), JAN_31_2024));
    assert!(next_fits_check(&rule("weekly", 52), JAN_31_2024));
    assert!(next_fits_check(&rule("someday", 1), u64::MAX));
}

#[test]
fn fits_check_rejects_out_of_range_inputs() {
    // 253402300800000 is the millisecond timestamp of year 10000.
    assert!(!next_fits_check(&rule("monthly", 1), 253_402_300_800_000));
    assert!(!next_fits_check(&rule("monthly", u32::MAX), JAN_31_2024));
    assert!(!next_fits_check(&rule("daily", u32::MAX), u64::MAX - 1));
}
