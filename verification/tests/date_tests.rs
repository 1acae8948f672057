use yawmak::date::{parse_date, format_date, Date};

#[test]
fn parse_valid_date() {
    let d = parse_date("2024-12-31").unwrap();
    assert_eq!(d.year, 2024);
    assert_eq!(d.month, 12);
    assert_eq!(d.day, 31);
}

#[test]
fn parse_rejects_malformed_text() {
    assert!(parse_date("").is_none());
    assert!(parse_date("2024-1-01").is_none());
    assert!(parse_date("20241-2-3").is_none());
    assert!(parse_date("2024/12/31").is_none());
    assert!(parse_date("2024-12-31x").is_none());
    assert!(parse_date("abcd-ef-gh").is_none());
}

#[test]
fn parse_rejects_impossible_days() {
    assert!(parse_date("2024-13-01").is_none());
    assert!(parse_date("2024-00-10").is_none());
    assert!(parse_date("2024-04-31").is_none());
    assert!(parse_date("2024-12-00").is_none());
}

#[test]
fn leap_years_have_a_february_29() {
    assert!(parse_date("2024-02-29").is_some());
    assert!(parse_date("2023-02-29").is_none());
    assert!(parse_date("2000-02-29").is_some());
    assert!(parse_date("1900-02-29").is_none());
}

#[test]
fn from_ymd_checks_the_calendar() {
    assert!(Date::from_ymd(2024, 2, 29).is_some());
    assert!(Date::from_ymd(2023, 2, 29).is_none());
    assert!(Date::from_ymd(2024, 6, 31).is_none());
    assert!(Date::from_ymd(10000, 1, 1).is_none());
}

#[test]
fn format_writes_padded_fields() {
    let d = Date::from_ymd(987, 6, 5).unwrap();
    assert_eq!(format_date(&d), "0987-06-05");
    let d2 = Date::from_ymd(2024, 12, 31).unwrap();
    assert_eq!(format_date(&d2), "2024-12-31");
}

#[test]
fn format_then_parse_returns_the_date() {
    let d = Date::from_ymd(2024, 2, 29).unwrap();
    let text = format_date(&d);
    assert_eq!(parse_date(&text), Some(d));
}

#[test]
fn epoch_day_zero_is_the_epoch() {
    assert_eq!(
        yawmak::date::from_epoch_days(0),
        Date::from_ymd(1970, 1, 1).unwrap()
    );
}

#[test]
fn epoch_days_cross_months_and_leap_years() {
    assert_eq!(
        yawmak::date::from_epoch_days(58),
        Date::from_ymd(1970, 2, 28).unwrap()
    );
    assert_eq!(
        yawmak::date::from_epoch_days(59),
        Date::from_ymd(1970, 3, 1).unwrap()
    );
    assert_eq!(
        yawmak::date::from_epoch_days(19723),
        Date::from_ymd(2024, 1, 1).unwrap()
    );
    assert_eq!(
        yawmak::date::from_epoch_days(19782),
        Date::from_ymd(2024, 2, 29).unwrap()
    );
}

#[test]
fn the_last_epoch_day_is_the_last_textual_date() {
    assert_eq!(
        yawmak::date::from_epoch_days(yawmak::date::MAX_EPOCH_DAY),
        Date::from_ymd(9999, 12, 31).unwrap()
    );
}
