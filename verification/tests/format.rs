use clipforge::format::{civil_date, date_time_utc, dimensions, duration};
use clipforge::time::Ticks;

#[test]
fn durations() {
    assert_eq!(duration(Ticks::zero()), "0:00");
    assert_eq!(duration(Ticks::from_millis(59_600)), "1:00");
    assert_eq!(duration(Ticks::from_seconds(754)), "12:34");
    assert_eq!(duration(Ticks::from_seconds(3_725)), "1:02:05");
}

#[test]
fn dates() {
    assert_eq!(date_time_utc(0), "1970-01-01 00:00");
    assert_eq!(date_time_utc(1_714_557_600_000), "2024-05-01 10:00");
    assert_eq!(date_time_utc(1_709_209_815_500), "2024-02-29 12:30");
    assert_eq!(date_time_utc(-1_000), "1969-12-31 23:59");
    assert_eq!(dimensions(4032, 3024), "4032 × 3024");
}

#[test]
fn caption_from_date_formats_per_language() {
    assert_eq!(civil_date(1_790_337_600_000), (25, 9, 2026));
    assert_eq!(civil_date(0), (1, 1, 1970));
    assert_eq!(civil_date(-1), (31, 12, 1969));
}

#[test]
fn negative_durations_show_as_zero_and_halves_round_up() {
    assert_eq!(duration(Ticks::from_seconds(-5)), "0:00");
    assert_eq!(duration(Ticks::from_millis(1_500)), "0:02");
    assert_eq!(duration(Ticks::from_millis(1_499)), "0:01");
    assert_eq!(duration(Ticks::from_seconds(36_000)), "10:00:00");
}

#[test]
fn leap_days_and_year_ends() {
    assert_eq!(civil_date(951_782_400_000), (29, 2, 2000));
    assert_eq!(date_time_utc(946_684_799_000), "1999-12-31 23:59");
}
