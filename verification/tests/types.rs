use allezon::text::{signed_to_text, unsigned_to_text};
use allezon::types::{
    same_text, Action, Device, TimeRange, TimeRangeError, Timestamp, UtcMinute, MAX_MILLIS,
    MIN_MILLIS,
};
use chrono::NaiveDate;

fn at(year: i32, month: u32, day: u32, hour: u32, minute: u32, second: u32) -> Timestamp {
    let time = NaiveDate::from_ymd_opt(year, month, day)
        .unwrap()
        .and_hms_opt(hour, minute, second)
        .unwrap()
        .and_utc();
    Timestamp::from_millis(time.timestamp_millis()).unwrap()
}

#[test]
fn deserialize_time_range() {
    let text: String =
        serde_json::from_str("\"2022-03-22T12:15:00.000_2022-03-22T12:30:00.000\"").unwrap();
    let range: TimeRange = TimeRange::parse(&text).unwrap();
    assert_eq!(range.from, at(2022, 3, 22, 12, 15, 0));
    assert_eq!(range.to, at(2022, 3, 22, 12, 30, 0));
}

#[test]
fn time_range_is_written_without_z() {
    let range = TimeRange { from: at(2022, 3, 22, 12, 15, 0), to: at(2022, 3, 22, 12, 30, 0) };
    assert_eq!(range.to_text(), "2022-03-22T12:15:00_2022-03-22T12:30:00");
}

#[test]
fn time_range_round_trip() {
    for (from, to) in [
        (at(2022, 3, 22, 12, 15, 0), at(2022, 3, 22, 12, 30, 0)),
        (at(1969, 12, 31, 23, 59, 59), at(1970, 1, 1, 0, 0, 0)),
        (at(0, 1, 1, 0, 0, 0), at(9999, 12, 31, 23, 59, 59)),
    ] {
        let range = TimeRange { from, to };
        assert_eq!(TimeRange::parse(&range.to_text()), Ok(range));
        assert_eq!(TimeRange::parse(&range.to_text()).unwrap().to_text(), range.to_text());
    }
}

#[test]
fn time_range_keeps_milliseconds_when_read() {
    let range = TimeRange::parse("2022-03-22T12:15:00.250_2022-03-22T12:15:01").unwrap();
    assert_eq!(range.to.millis() - range.from.millis(), 750);
}

#[test]
fn time_range_errors() {
    assert_eq!(TimeRange::parse("2022-03-22T12:15:00"), Err(TimeRangeError::MissingUnderscore));
    assert_eq!(TimeRange::parse(""), Err(TimeRangeError::MissingUnderscore));
    assert_eq!(TimeRange::parse("yesterday_2022-03-22T12:30:00"), Err(TimeRangeError::InvalidFrom));
    assert_eq!(TimeRange::parse("_2022-03-22T12:30:00"), Err(TimeRangeError::InvalidFrom));
    assert_eq!(TimeRange::parse("2022-03-22T12:15:00_tomorrow"), Err(TimeRangeError::InvalidTo));
    // The text is cut at the first underscore only.
    assert_eq!(
        TimeRange::parse("2022-03-22T12:15:00_2022-03-22T12:30:00_"),
        Err(TimeRangeError::InvalidTo)
    );
    // A year beyond 9999 is read by the calendar and refused as an instant.
    assert_eq!(
        TimeRange::parse("+12345-03-22T12:15:00_2022-03-22T12:30:00"),
        Err(TimeRangeError::InvalidFrom)
    );
    assert_eq!(
        TimeRange::parse("2022-03-22T12:15:00_+12345-03-22T12:15:00"),
        Err(TimeRangeError::InvalidTo)
    );
}

#[test]
fn timestamp_range_is_the_years_0000_to_9999() {
    assert_eq!(at(0, 1, 1, 0, 0, 0).millis(), MIN_MILLIS);
    assert_eq!(at(9999, 12, 31, 23, 59, 59).millis() + 999, MAX_MILLIS);
    assert!(Timestamp::from_millis(MIN_MILLIS).is_some());
    assert!(Timestamp::from_millis(MAX_MILLIS).is_some());
    assert!(Timestamp::from_millis(MIN_MILLIS - 1).is_none());
    assert!(Timestamp::from_millis(MAX_MILLIS + 1).is_none());
    assert_eq!(Timestamp::from_millis(1_234).unwrap().millis(), 1_234);
}

#[test]
fn utc_minute_truncates_and_is_idempotent() {
    let time = Timestamp::from_millis(at(2000, 1, 1, 21, 37, 42).millis() + 123).unwrap();
    let minute = UtcMinute::from(time);
    assert_eq!(minute.inner(), at(2000, 1, 1, 21, 37, 0));
    assert_eq!(minute.millis() % 60_000, 0);
    assert_eq!(UtcMinute::from(minute.inner()), minute);
    assert_eq!(UtcMinute::from(minute.inner()).inner(), minute.inner());
    assert_eq!(minute.next().inner(), at(2000, 1, 1, 21, 38, 0));
    assert!(minute < minute.next());
}

#[test]
fn utc_minute_floors_times_before_the_epoch() {
    let minute = UtcMinute::from(Timestamp::from_millis(-1).unwrap());
    assert_eq!(minute.millis(), -60_000);
    let minute = UtcMinute::from(Timestamp::from_millis(-60_000).unwrap());
    assert_eq!(minute.millis(), -60_000);
    let minute = UtcMinute::from(Timestamp::from_millis(MIN_MILLIS).unwrap());
    assert_eq!(minute.millis(), MIN_MILLIS);
    let minute = UtcMinute::from(Timestamp::from_millis(MAX_MILLIS).unwrap());
    assert_eq!(minute.millis(), MAX_MILLIS - 59_999);
}

#[test]
fn wire_names() {
    assert_eq!(Action::View.name(), "VIEW");
    assert_eq!(Action::Buy.name(), "BUY");
    assert_eq!(Action::Buy.to_text(), "BUY");
    assert_eq!(Device::Pc.name(), "PC");
    assert_eq!(Device::Mobile.name(), "MOBILE");
    assert_eq!(Device::Tv.name(), "TV");
    for action in [Action::View, Action::Buy] {
        assert_eq!(Action::from_name(action.name()), Some(action));
    }
    for device in [Device::Pc, Device::Mobile, Device::Tv] {
        assert_eq!(Device::from_name(device.name()), Some(device));
    }
    assert_eq!(Action::from_name("buy"), None);
    assert_eq!(Device::from_name(""), None);
    assert!(same_text("abc", "abc"));
    assert!(!same_text("abc", "abd"));
}

#[test]
fn numbers_in_decimal() {
    assert_eq!(unsigned_to_text(0), "0");
    assert_eq!(unsigned_to_text(7), "7");
    assert_eq!(unsigned_to_text(10), "10");
    assert_eq!(unsigned_to_text(4_294_967_295), "4294967295");
    assert_eq!(unsigned_to_text(u64::MAX), u64::MAX.to_string());
    assert_eq!(signed_to_text(0), "0");
    assert_eq!(signed_to_text(-1), "-1");
    assert_eq!(signed_to_text(1500), "1500");
    assert_eq!(signed_to_text(i64::MIN), "-9223372036854775808");
    assert_eq!(signed_to_text(i64::MAX), "9223372036854775807");
}
