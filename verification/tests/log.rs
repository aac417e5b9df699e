use std::time::{Duration, UNIX_EPOCH};

use unslop::rule::{Issue, Severity};
use unslop::log::{civil_from_days, format_iso8601_millis, format_timestamp, tally, Mode, RunStats};

#[test]
fn format_iso8601_millis_epoch() {
    assert_eq!(format_iso8601_millis(UNIX_EPOCH), "1970-01-01T00:00:00.000Z");
}

#[test]
fn format_iso8601_millis_known_points() {
    let one_day = UNIX_EPOCH + Duration::from_secs(86_400);
    assert_eq!(format_iso8601_millis(one_day), "1970-01-02T00:00:00.000Z");

    let known = UNIX_EPOCH + Duration::from_secs(1_700_000_000);
    assert_eq!(format_iso8601_millis(known), "2023-11-14T22:13:20.000Z");

    let new_year_2026 = UNIX_EPOCH + Duration::from_secs(1_767_225_600);
    assert_eq!(format_iso8601_millis(new_year_2026), "2026-01-01T00:00:00.000Z");
}

#[test]
fn format_iso8601_millis_subsec() {
    let t = UNIX_EPOCH + Duration::from_millis(1_700_000_000_123);
    assert_eq!(format_iso8601_millis(t), "2023-11-14T22:13:20.123Z");
}

#[test]
fn mode_strings() {
    assert_eq!(Mode::Lint.as_str(), "lint");
    assert_eq!(Mode::Fix.as_str(), "fix");
    assert_eq!(Mode::FixDryRun.as_str(), "fix-dry-run");
}

#[test]
fn time_before_epoch_reads_as_epoch() {
    let t = UNIX_EPOCH - Duration::from_secs(10);
    assert_eq!(format_iso8601_millis(t), "1970-01-01T00:00:00.000Z");
}

#[test]
fn civil_from_days_known_dates() {
    assert_eq!(civil_from_days(0), (1970, 1, 1));
    assert_eq!(civil_from_days(-1), (1969, 12, 31));
    assert_eq!(civil_from_days(11016), (2000, 2, 29));
    assert_eq!(civil_from_days(19675), (2023, 11, 14));
    assert_eq!(civil_from_days(-719468), (0, 3, 1));
}

#[test]
fn format_timestamp_leap_day() {
    assert_eq!(format_timestamp(951_782_400, 7), "2000-02-29T00:00:00.007Z");
    assert_eq!(format_timestamp(86_399, 999), "1970-01-01T23:59:59.999Z");
}

#[test]
fn tally_keeps_counts_ordered_by_key() {
    let mut counts: Vec<(String, u64)> = Vec::new();
    tally(&mut counts, "b");
    tally(&mut counts, "a");
    tally(&mut counts, "b");
    tally(&mut counts, "ab");
    assert_eq!(counts, vec![("a".to_string(), 1), ("ab".to_string(), 1), ("b".to_string(), 2)]);
}

#[test]
fn default_run_stats_is_empty_lint() {
    let s = RunStats::default();
    assert_eq!(s.mode, Mode::Lint);
    assert_eq!(s.fixes_applied, 0);
    assert_eq!(s.remaining_issues, 0);
    assert!(s.files.is_empty());
    assert!(s.fixes_per_rule.is_empty());
    assert!(s.remaining_per_rule.is_empty());
}

#[test]
fn add_remaining_counts_per_rule() {
    let mut s = RunStats::default();
    let issues = vec![
        Issue::new("prh", "m", 1, 1, Severity::Error),
        Issue::new("no-nfd", "m", 1, 1, Severity::Error),
        Issue::new("prh", "m", 2, 1, Severity::Error),
    ];
    s.add_remaining(&issues);
    assert_eq!(s.remaining_issues, 3);
    assert_eq!(s.remaining_per_rule, vec![("no-nfd".to_string(), 1), ("prh".to_string(), 2)]);
}

#[test]
fn civil_from_days_steps_one_day() {
    assert_eq!(civil_from_days(11015), (2000, 2, 28));
    assert_eq!(civil_from_days(11016), (2000, 2, 29));
    assert_eq!(civil_from_days(11017), (2000, 3, 1));
    assert_eq!(civil_from_days(58), (1970, 2, 28));
    assert_eq!(civil_from_days(59), (1970, 3, 1));
    assert_eq!(civil_from_days(-307), (1969, 2, 28));
    assert_eq!(civil_from_days(-306), (1969, 3, 1));
    assert_eq!(civil_from_days(10956), (1999, 12, 31));
    assert_eq!(civil_from_days(10957), (2000, 1, 1));
    assert_eq!(civil_from_days(-25509), (1900, 2, 28));
    assert_eq!(civil_from_days(-25508), (1900, 3, 1));
}

#[test]
fn civil_from_days_extremes_do_not_panic() {
    let (_, m, d) = civil_from_days(i64::MIN);
    assert!((1..=12).contains(&m) && (1..=31).contains(&d));
    let (_, m, d) = civil_from_days(i64::MAX - 719_468);
    assert!((1..=12).contains(&m) && (1..=31).contains(&d));
}
