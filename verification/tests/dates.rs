use featherai::dates::{days_of, epoch_days, fmt_date, iso_of_day, parse_ymd, weekday_short};

#[test]
fn parse_ymd_reads_three_numbers() {
    assert_eq!(parse_ymd("2026-08-30"), Some((2026, 8, 30)));
    assert_eq!(parse_ymd("2026-8-3-extra"), Some((2026, 8, 3)));
    assert_eq!(parse_ymd("+2026-08-30"), Some((2026, 8, 30)));
    assert_eq!(parse_ymd("2026-08"), None);
    assert_eq!(parse_ymd("2026-x-01"), None);
    assert_eq!(parse_ymd(""), None);
    assert_eq!(parse_ymd("-5-01-01"), None, "a leading minus is an empty first piece");
}

#[test]
fn epoch_days_counts_from_1970() {
    assert_eq!(epoch_days("1970-01-01"), Some(0));
    assert_eq!(epoch_days("2026-01-01"), Some(20454));
    assert_eq!(epoch_days("2026-08-30"), Some(20695));
    assert_eq!(epoch_days("2000-02-29"), Some(11016));
    assert_eq!(epoch_days("1969-12-31"), Some(-1));
    assert_eq!(epoch_days("nope"), None);
    assert_eq!(days_of(1600, 3, 1), -135080);
}

#[test]
fn fmt_date_prints_day_month_year() {
    assert_eq!(fmt_date("2026-08-30"), "30 ago 2026");
    assert_eq!(fmt_date("2026-1-5"), "5 ene 2026");
    assert_eq!(fmt_date("2025-12-01"), "1 dic 2025");
    assert_eq!(fmt_date(""), "-");
    assert_eq!(fmt_date("sin fecha"), "-");
}

#[test]
fn weekdays_in_spanish() {
    assert_eq!(weekday_short("1970-01-01"), "jue");
    assert_eq!(weekday_short("2026-08-30"), "dom");
    assert_eq!(weekday_short("2000-02-29"), "mar");
    assert_eq!(weekday_short("2026-01-03"), "sáb");
    assert_eq!(weekday_short("garbage"), "jue", "unreadable dates count as day 0");
}

#[test]
fn iso_of_day_inverts_epoch_days() {
    assert_eq!(iso_of_day(0), "1970-01-01");
    assert_eq!(iso_of_day(20695), "2026-08-30");
    assert_eq!(iso_of_day(11016), "2000-02-29");
    assert_eq!(iso_of_day(-1), "1969-12-31");
    for day in [-719_528i64, -1, 0, 59, 60, 11016, 20454, 2_932_896] {
        assert_eq!(epoch_days(&iso_of_day(day)), Some(day));
    }
}

#[test]
fn negative_years_print_with_their_sign() {
    assert_eq!(iso_of_day(-719_529), "-001-12-31");
    assert_eq!(iso_of_day(-719_528), "0000-01-01");
}
