use orjson::datetime::{tz_library, Date, DateTime, Time, TzInfo, TzLibrary};
use orjson::exc::SerializeError;
use orjson::numpy::{CivilDateTime, NumpyDateTimeError, NumpyDatetimeUnit};
use orjson::opt::{NAIVE_UTC, OMIT_MICROSECONDS, UTC_Z};

fn text(v: Vec<u8>) -> String {
    String::from_utf8(v).unwrap()
}

fn datetime(microsecond: u32, tz: TzInfo, opts: u32) -> DateTime {
    DateTime { year: 2024, month: 2, day: 29, hour: 23, minute: 5, second: 9, microsecond, tz, opts }
}

#[test]
fn date_text() {
    assert_eq!(text(Date::new(2024, 1, 5).serialize()), "2024-01-05");
    assert_eq!(text(Date::new(1999, 12, 31).serialize()), "1999-12-31");
    assert_eq!(text(Date::new(5, 3, 9).serialize()), "5-03-09");
}

#[test]
fn time_text() {
    assert_eq!(text(Time::new(7, 8, 9, 0, false, 0).serialize().unwrap()), "07:08:09");
    assert_eq!(text(Time::new(12, 30, 0, 450, false, 0).serialize().unwrap()), "12:30:00.000450");
    assert_eq!(text(Time::new(12, 30, 0, 123456, false, 0).serialize().unwrap()), "12:30:00.123456");
    assert_eq!(text(Time::new(12, 30, 0, 450, false, OMIT_MICROSECONDS).serialize().unwrap()), "12:30:00");
}

#[test]
fn time_with_tzinfo_is_refused() {
    let e = Time::new(1, 2, 3, 0, true, 0).serialize().unwrap_err();
    assert!(matches!(e, SerializeError::TimeHasTzinfo));
    assert_eq!(e.message(), "datetime.time must not have tzinfo set");
}

#[test]
fn naive_datetime() {
    assert_eq!(text(datetime(0, TzInfo::Naive, 0).serialize().unwrap()), "2024-02-29T23:05:09");
    assert_eq!(text(datetime(10, TzInfo::Naive, 0).serialize().unwrap()), "2024-02-29T23:05:09.000010");
    assert_eq!(text(datetime(0, TzInfo::Naive, NAIVE_UTC).serialize().unwrap()), "2024-02-29T23:05:09+00:00");
    assert_eq!(
        text(datetime(0, TzInfo::Naive, NAIVE_UTC | UTC_Z).serialize().unwrap()),
        "2024-02-29T23:05:09Z"
    );
}

#[test]
fn utc_offsets() {
    let utc = TzInfo::Offset { day: 0, second: 0 };
    assert_eq!(text(datetime(0, utc, 0).serialize().unwrap()), "2024-02-29T23:05:09+00:00");
    let utc = TzInfo::Offset { day: 0, second: 0 };
    assert_eq!(text(datetime(0, utc, UTC_Z).serialize().unwrap()), "2024-02-29T23:05:09Z");
    let east = TzInfo::Offset { day: 0, second: 19800 };
    assert_eq!(text(datetime(0, east, UTC_Z).serialize().unwrap()), "2024-02-29T23:05:09+05:30");
    let west = TzInfo::Offset { day: -1, second: 68400 };
    assert_eq!(text(datetime(0, west, 0).serialize().unwrap()), "2024-02-29T23:05:09-05:00");
}

#[test]
fn offsets_round_to_the_minute() {
    let tz = TzInfo::Offset { day: 0, second: 19830 };
    assert_eq!(text(datetime(0, tz, 0).serialize().unwrap()), "2024-02-29T23:05:09+05:31");
    let tz = TzInfo::Offset { day: 0, second: 19829 };
    assert_eq!(text(datetime(0, tz, 0).serialize().unwrap()), "2024-02-29T23:05:09+05:30");
    let tz = TzInfo::Offset { day: 0, second: 21570 };
    assert_eq!(text(datetime(0, tz, 0).serialize().unwrap()), "2024-02-29T23:05:09+06:00");
    let tz = TzInfo::Offset { day: 0, second: 3585 };
    assert_eq!(text(datetime(0, tz, 0).serialize().unwrap()), "2024-02-29T23:05:09+01:00");
    let tz = TzInfo::Offset { day: -1, second: 86400 - 3585 };
    assert_eq!(text(datetime(0, tz, 0).serialize().unwrap()), "2024-02-29T23:05:09-01:00");
}

#[test]
fn full_datetime_with_fraction_and_offset() {
    let tz = TzInfo::Offset { day: -1, second: 84600 };
    assert_eq!(
        text(datetime(999999, tz, 0).serialize().unwrap()),
        "2024-02-29T23:05:09.999999-00:30"
    );
}

#[test]
fn unsupported_time_zone_library() {
    let e = datetime(0, TzInfo::Unsupported, 0).serialize().unwrap_err();
    assert!(matches!(e, SerializeError::DatetimeLibraryUnsupported));
}

#[test]
fn time_zone_libraries() {
    assert!(matches!(tz_library(true, true, true), Some(TzLibrary::Pendulum)));
    assert!(matches!(tz_library(false, true, true), Some(TzLibrary::Pytz)));
    assert!(matches!(tz_library(false, false, true), Some(TzLibrary::Dateutil)));
    assert!(tz_library(false, false, false).is_none());
}

#[test]
fn numpy_unit_names() {
    assert_eq!(NumpyDatetimeUnit::Nanoseconds.as_str(), "nanoseconds");
    assert_eq!(NumpyDatetimeUnit::Years.as_str(), "years");
    assert_eq!(NumpyDatetimeUnit::from_descr(Some(b"<M8[ns]")), NumpyDatetimeUnit::Nanoseconds);
    assert_eq!(NumpyDatetimeUnit::from_descr(Some(b"<M8[D]")), NumpyDatetimeUnit::Days);
    assert_eq!(NumpyDatetimeUnit::from_descr(Some(b"<M8")), NumpyDatetimeUnit::NaT);
    assert_eq!(NumpyDatetimeUnit::from_descr(None), NumpyDatetimeUnit::NaT);
}

#[test]
fn numpy_years_and_months() {
    let r = NumpyDatetimeUnit::Years.datetime(54, 0).unwrap();
    assert_eq!((r.year(), r.month(), r.day()), (2024, 1, 1));
    let r = NumpyDatetimeUnit::Months.datetime(649, 0).unwrap();
    assert_eq!((r.year(), r.month(), r.day()), (2024, 2, 1));
    let r = NumpyDatetimeUnit::Months.datetime(-1, 0).unwrap();
    assert_eq!((r.year(), r.month(), r.day()), (1969, 12, 1));
    let r = NumpyDatetimeUnit::Months.datetime(-2, 0).unwrap();
    assert_eq!((r.year(), r.month(), r.day()), (1969, 11, 1));
    let r = NumpyDatetimeUnit::Months.datetime(-12, 0).unwrap();
    assert_eq!((r.year(), r.month(), r.day()), (1969, 1, 1));
    assert!(matches!(
        NumpyDatetimeUnit::Months.datetime(-23641, 0),
        Err(NumpyDateTimeError::Unrepresentable { val: -23641, .. })
    ));
    assert!(matches!(
        NumpyDatetimeUnit::Years.datetime(8030, 0),
        Err(NumpyDateTimeError::Unrepresentable { val: 8030, .. })
    ));
}

#[test]
fn numpy_timestamps() {
    let r = NumpyDatetimeUnit::Seconds.datetime(86399, 0).unwrap();
    assert_eq!((r.year(), r.month(), r.day(), r.hour(), r.minute(), r.second()), (1970, 1, 1, 23, 59, 59));
    let r = NumpyDatetimeUnit::Days.datetime(19782, 0).unwrap();
    assert_eq!((r.year(), r.month(), r.day()), (2024, 2, 29));
    let r = NumpyDatetimeUnit::Nanoseconds.datetime(1_500_000_123, 0).unwrap();
    assert_eq!((r.second(), r.microsecond(), r.nanosecond()), (1, 500_000, 500_000_123));
    let r = NumpyDatetimeUnit::Milliseconds.datetime(-1, 0).unwrap();
    assert_eq!((r.year(), r.month(), r.day(), r.hour(), r.microsecond()), (1969, 12, 31, 23, 999_000));
}

#[test]
fn numpy_unsupported_units() {
    assert!(matches!(
        NumpyDatetimeUnit::Picoseconds.datetime(1, 0),
        Err(NumpyDateTimeError::UnsupportedUnit(NumpyDatetimeUnit::Picoseconds))
    ));
    assert!(matches!(
        NumpyDatetimeUnit::Generic.datetime(1, 0),
        Err(NumpyDateTimeError::UnsupportedUnit(NumpyDatetimeUnit::Generic))
    ));
}

#[test]
fn numpy_year_range_after_conversion() {
    let far = CivilDateTime { year: 10000, month: 1, day: 1, hour: 0, minute: 0, second: 0, subsec_nanosecond: 0 };
    assert!(matches!(
        NumpyDatetimeUnit::Seconds.from_civil(253402300800, Some(far), 0),
        Err(NumpyDateTimeError::Unrepresentable { .. })
    ));
    let near = CivilDateTime { year: 9999, month: 12, day: 31, hour: 0, minute: 0, second: 0, subsec_nanosecond: 0 };
    let r = NumpyDatetimeUnit::Seconds.from_civil(1, Some(near), 0).unwrap();
    assert_eq!(r.year(), 9999);
    assert!(NumpyDatetimeUnit::Seconds.from_civil(1, None, 0).is_err());
    assert!(NumpyDatetimeUnit::Seconds.datetime(253402300800, 0).is_err());
}

#[test]
fn datetime_from_fields() {
    let dt = DateTime::new(1970, 1, 1, 0, 0, 0, 0, TzInfo::Offset { day: 0, second: 3600 }, OMIT_MICROSECONDS);
    assert_eq!(text(dt.serialize().unwrap()), "1970-01-01T00:00:00+01:00");
}
