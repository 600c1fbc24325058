use aquagas_reports::error::ReportError;
use aquagas_reports::instant::{Instant, MAX_DAY, MAX_SECS, MIN_DAY, MIN_SECS};
use aquagas_reports::window::{resolve_previous_window, Bound, ReportWindow};

const YEAR_ZERO: i64 = -62_167_219_200;
const END_OF_9999: i64 = 253_402_300_799;

fn at(secs: i64) -> Instant {
    Instant::from_parts(secs, 0).unwrap()
}

fn bound(secs: i64, nanos: u32) -> Bound {
    Bound::at(&Instant::from_parts(secs, nanos).unwrap())
}

#[test]
fn from_parts_keeps_seconds_and_nanos() {
    let t = Instant::from_parts(1_709_251_200, 999_000_000).unwrap();
    assert_eq!(t.secs(), 1_709_251_200);
    assert_eq!(t.subsec_nanos(), 999_000_000);
    assert_eq!(t.to_nanos(), 1_709_251_200_999_000_000);
}

#[test]
fn from_parts_carries_whole_seconds() {
    let t = Instant::from_parts(10, 2_500_000_000).unwrap();
    assert_eq!(t.secs(), 12);
    assert_eq!(t.subsec_nanos(), 500_000_000);
    let u = Instant::from_parts(MIN_SECS - 1, 1_000_000_000).unwrap();
    assert_eq!(u.secs(), MIN_SECS);
    assert_eq!(u.subsec_nanos(), 0);
}

#[test]
fn from_parts_rejects_what_no_timestamp_denotes() {
    assert_eq!(MIN_SECS, YEAR_ZERO - 86_400);
    assert_eq!(MAX_SECS, END_OF_9999 + 86_400);
    assert!(Instant::from_parts(MIN_SECS, 0).is_some());
    assert!(Instant::from_parts(MAX_SECS, 999_999_999).is_some());
    assert!(Instant::from_parts(MIN_SECS - 1, 999_999_999).is_none());
    assert!(Instant::from_parts(MAX_SECS + 1, 0).is_none());
    assert!(Instant::from_parts(MAX_SECS, 1_000_000_000).is_none());
    assert!(Instant::from_parts(i64::MIN, 0).is_none());
    assert!(Instant::from_parts(i64::MAX, u32::MAX).is_none());
}

#[test]
fn from_nanos_round_trips() {
    let t = Instant::from_nanos(-1).unwrap();
    assert_eq!(t.secs(), -1);
    assert_eq!(t.subsec_nanos(), 999_999_999);
    assert_eq!(t.to_nanos(), -1);
    let u = Instant::from_nanos(1_709_251_200_000_000_001).unwrap();
    assert_eq!(u.secs(), 1_709_251_200);
    assert_eq!(u.subsec_nanos(), 1);
    assert!(Instant::from_nanos(i128::MIN).is_none());
    assert!(Instant::from_nanos(i128::MAX).is_none());
}

#[test]
fn parse_reads_utc_timestamp() {
    let t = Instant::parse("2024-03-01T00:00:00Z").unwrap();
    assert_eq!(t.secs(), 1_709_251_200);
    assert_eq!(t.subsec_nanos(), 0);
}

#[test]
fn parse_reads_fraction_and_offset() {
    let t = Instant::parse("2024-03-01T07:30:00.250-03:00").unwrap();
    assert_eq!(t.secs(), 1_709_289_000);
    assert_eq!(t.subsec_nanos(), 250_000_000);
}

#[test]
fn parse_folds_leap_second_into_next_second() {
    let t = Instant::parse("2016-12-31T23:59:60Z").unwrap();
    assert_eq!(t.secs(), 1_483_228_800);
    assert_eq!(t.subsec_nanos(), 0);
}

#[test]
fn parse_rejects_malformed_text() {
    assert!(Instant::parse("yesterday").is_err());
    assert!(Instant::parse("").is_err());
    assert!(Instant::parse("2024-13-01T00:00:00Z").is_err());
    assert!(Instant::parse("2024-03-01").is_err());
    assert!(Instant::parse("2024-03-01T00:00:00+24:00").is_err());
    assert!(Instant::parse("10000-01-01T00:00:00Z").is_err());
}

#[test]
fn parse_reads_every_offset_of_the_first_and_last_year() {
    assert_eq!(Instant::parse("0000-01-01T00:00:00Z"), Ok(at(YEAR_ZERO)));
    assert_eq!(Instant::parse("0000-01-01T00:00:00+01:00"), Ok(at(YEAR_ZERO - 3_600)));
    assert_eq!(Instant::parse("0000-01-01T00:00:00+23:59"), Ok(at(YEAR_ZERO - 86_340)));
    assert_eq!(Instant::parse("9999-12-31T23:59:59-01:00"), Ok(at(END_OF_9999 + 3_600)));
    assert_eq!(
        Instant::parse("9999-12-31T23:59:59.999999999Z"),
        Ok(Instant::from_parts(END_OF_9999, 999_999_999).unwrap())
    );
    assert_eq!(
        Instant::parse("9999-12-31T23:59:60.999999999-23:59"),
        Ok(Instant::from_parts(END_OF_9999 + 86_341, 999_999_999).unwrap())
    );
}

#[test]
fn date_label_is_utc_calendar_date() {
    assert_eq!(at(1_709_251_200).date_label(), "2024-03-01");
    assert_eq!(at(1_709_251_199).date_label(), "2024-02-29");
    assert_eq!(at(0).date_label(), "1970-01-01");
    assert_eq!(at(-1).date_label(), "1969-12-31");
    assert_eq!(at(YEAR_ZERO).date_label(), "0000-01-01");
    assert_eq!(at(END_OF_9999).date_label(), "9999-12-31");
    assert_eq!(at(MIN_SECS).date_label(), "-0001-12-31");
    assert_eq!(at(MAX_SECS).date_label(), "+10000-01-01");
}

#[test]
fn day_counts_whole_days_from_the_epoch() {
    assert_eq!(at(0).day(), 0);
    assert_eq!(at(86_399).day(), 0);
    assert_eq!(at(86_400).day(), 1);
    assert_eq!(at(-1).day(), -1);
    assert_eq!(at(-86_400).day(), -1);
    assert_eq!(at(-86_401).day(), -2);
    assert_eq!(at(1_709_251_200).day(), 19_783);
    assert_eq!(at(MIN_SECS).day(), MIN_DAY);
    assert_eq!(at(MAX_SECS).day(), MAX_DAY);
}

#[test]
fn start_of_day_truncates_to_midnight() {
    let t = Instant::from_parts(1_709_289_000, 5).unwrap();
    assert_eq!(t.start_of_day(), at(1_709_251_200));
    assert_eq!(at(1_709_251_200).start_of_day(), at(1_709_251_200));
    assert_eq!(at(-43_200).start_of_day(), at(-86_400));
    assert_eq!(at(-1).start_of_day(), at(-86_400));
    assert_eq!(at(MIN_SECS).start_of_day(), at(MIN_SECS));
    assert_eq!(at(MAX_SECS).start_of_day(), at(MAX_SECS - 86_399));
}

#[test]
fn instants_compare_by_time() {
    let a = Instant::from_parts(5, 1).unwrap();
    let b = Instant::from_parts(5, 2).unwrap();
    assert!(a.precedes(&b));
    assert!(!b.precedes(&a));
    assert!(!a.precedes(&a));
    assert!(a.not_after(&a));
    assert!(a.not_after(&b));
    assert!(!b.not_after(&a));
    assert!(at(-1).precedes(&at(0)));
}

#[test]
fn window_rejects_end_before_start() {
    assert_eq!(ReportWindow::new(at(10), at(9)), Err(ReportError::InvalidRange));
    let w = ReportWindow::new(at(10), at(10)).unwrap();
    assert_eq!(w.start(), bound(10, 0));
    assert_eq!(w.end(), bound(10, 0));
    assert!(ReportWindow::new(at(MIN_SECS), at(MAX_SECS)).is_ok());
}

#[test]
fn window_contains_both_bounds() {
    let w = ReportWindow::new(at(10), at(20)).unwrap();
    assert!(w.contains(&at(10)));
    assert!(w.contains(&at(20)));
    assert!(w.contains(&at(15)));
    assert!(!w.contains(&at(9)));
    assert!(!w.contains(&Instant::from_parts(20, 1).unwrap()));
}

#[test]
fn bound_splits_into_seconds_and_nanoseconds() {
    let b = bound(-1, 250_000_000);
    assert_eq!(b.to_nanos(), -750_000_000);
    assert_eq!(b.secs(), -1);
    assert_eq!(b.subsec_nanos(), 250_000_000);
    let c = bound(1_709_251_200, 0);
    assert_eq!(c.secs(), 1_709_251_200);
    assert_eq!(c.subsec_nanos(), 0);
}

#[test]
fn previous_window_has_same_length_and_ends_a_second_before() {
    let start = at(1_709_251_200);
    let end = at(1_711_929_599);
    let w = resolve_previous_window(start, end).unwrap();
    assert_eq!(w.end(), bound(1_709_251_199, 0));
    assert_eq!(w.start(), bound(1_706_572_800, 0));
    assert_eq!(w.end().to_nanos() - w.start().to_nanos(), end.to_nanos() - start.to_nanos());
    assert!(w.end().to_nanos() < start.to_nanos());
}

#[test]
fn previous_window_keeps_fractions_of_a_second() {
    let start = Instant::from_parts(1_000, 250_000_000).unwrap();
    let end = Instant::from_parts(1_010, 100_000_000).unwrap();
    let w = resolve_previous_window(start, end).unwrap();
    assert_eq!(w.end(), bound(999, 250_000_000));
    assert_eq!(w.start(), bound(989, 400_000_000));
}

#[test]
fn previous_window_of_single_instant_is_single_instant() {
    let w = resolve_previous_window(at(500), at(500)).unwrap();
    assert_eq!(w.start(), bound(499, 0));
    assert_eq!(w.end(), bound(499, 0));
}

#[test]
fn previous_window_rejects_reversed_range() {
    assert_eq!(resolve_previous_window(at(500), at(499)), Err(ReportError::InvalidRange));
}

#[test]
fn previous_window_exists_for_every_ordered_range() {
    let first = resolve_previous_window(at(YEAR_ZERO), at(YEAR_ZERO)).unwrap();
    assert_eq!(first.start().secs(), YEAR_ZERO - 1);
    assert_eq!(first.end().secs(), YEAR_ZERO - 1);
    let widest = resolve_previous_window(
        at(MIN_SECS),
        Instant::from_parts(MAX_SECS, 999_999_999).unwrap(),
    )
    .unwrap();
    assert_eq!(widest.end().secs(), MIN_SECS - 1);
    assert_eq!(widest.end().subsec_nanos(), 0);
    assert_eq!(widest.start().secs(), 2 * MIN_SECS - MAX_SECS - 2);
    assert_eq!(widest.start().subsec_nanos(), 1);
    assert_eq!(widest.start().to_nanos(), -377_736_998_400_999_999_999);
    let long = resolve_previous_window(at(YEAR_ZERO + 31_622_400), at(1_704_067_200)).unwrap();
    assert_eq!(long.end().secs(), YEAR_ZERO + 31_622_399);
    assert_eq!(
        long.end().to_nanos() - long.start().to_nanos(),
        (1_704_067_200 - (YEAR_ZERO + 31_622_400)) as i128 * 1_000_000_000
    );
}
