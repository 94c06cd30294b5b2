//! Reading a start instant from text, through jiff's ISO 8601 / RFC 3339 parsers.
use vstd::prelude::*;

use crate::civil::{
    days_from_civil_exec, in_range, secs_from_civil, valid_date, valid_time, MAX_SECS, MIN_SECS,
};
use crate::format::{clock, iso_date, iso_text};

verus! {

/// What jiff's timestamp parser makes of a text, in whole seconds (`None` if it rejects it).
pub uninterp spec fn timestamp_parse(s: Seq<char>) -> Option<i64>;

/// What jiff's civil datetime parser makes of a text.
pub uninterp spec fn datetime_parse(s: Seq<char>) -> Option<(i16, i8, i8, i8, i8, i8)>;

/// What jiff's civil date parser makes of a text.
pub uninterp spec fn date_parse(s: Seq<char>) -> Option<(i16, i8, i8)>;

/// A text of the shape `YYYY-MM-DD` with a four-digit year.
pub open spec fn is_date_text(s: Seq<char>, y: int, m: int, d: int) -> bool {
    0 <= y <= 9999 && 0 <= m <= 99 && 0 <= d <= 99 && s == iso_date(y, m, d)
}

/// A text of the shape `YYYY-MM-DDTHH:MM:SSZ` with a four-digit year and a valid time.
pub open spec fn is_utc_text(s: Seq<char>, y: int, m: int, d: int, h: int, mi: int, se: int) -> bool {
    0 <= y <= 9999 && 0 <= m <= 99 && 0 <= d <= 99 && valid_time(h, mi, se) && s == iso_date(
        y,
        m,
        d,
    ) + seq!['T'] + clock(h, mi, se) + seq!['Z']
}

/// Relies on `<jiff::Timestamp as FromStr>::from_str` and `Timestamp::as_second`: the text
/// must carry an offset or `Z`, so a bare date is refused; every timestamp lies in jiff's
/// range; a `YYYY-MM-DDTHH:MM:SSZ` text reads as that UTC instant when its date exists
/// and the instant is in range, and is refused otherwise.
#[verifier::external_body]
pub(crate) fn parse_timestamp(s: &str) -> (r: Option<i64>)
    ensures
        r == timestamp_parse(s@),
        r matches Some(x) ==> in_range(x as int),
        forall|x: int| #[trigger] iso_text(x) == s@ && in_range(x) ==> r == Some(x as i64),
        forall|y: int, m: int, d: int| #[trigger] is_date_text(s@, y, m, d) ==> r is None,
        forall|y: int, m: int, d: int, h: int, mi: int, se: int| #[trigger]
            is_utc_text(s@, y, m, d, h, mi, se) ==> r == (if valid_date(y, m, d) {
                civil_secs(y, m, d, h, mi, se)
            } else {
                None
            }),
{
    s.parse::<jiff::Timestamp>().ok().map(|t| t.as_second())
}

/// Relies on `<jiff::civil::DateTime as FromStr>::from_str`: a civil datetime is always a
/// valid date in years -9999..=9999 and a valid time of day; a bare `YYYY-MM-DD`
/// reads as midnight of that date when the date exists; a text with a `Z` offset is
/// refused.
#[verifier::external_body]
pub(crate) fn parse_civil_datetime(s: &str) -> (r: Option<(i16, i8, i8, i8, i8, i8)>)
    ensures
        r == datetime_parse(s@),
        r matches Some(t) ==> valid_date(t.0 as int, t.1 as int, t.2 as int) && valid_time(
            t.3 as int,
            t.4 as int,
            t.5 as int,
        ),
        forall|y: int, m: int, d: int| #[trigger]
            is_date_text(s@, y, m, d) ==> r == (if valid_date(y, m, d) {
                Some((y as i16, m as i8, d as i8, 0i8, 0i8, 0i8))
            } else {
                None
            }),
        forall|y: int, m: int, d: int, h: int, mi: int, se: int| #[trigger]
            is_utc_text(s@, y, m, d, h, mi, se) ==> r is None,
{
    s.parse::<jiff::civil::DateTime>().ok().map(
        |t| (t.year(), t.month(), t.day(), t.hour(), t.minute(), t.second()),
    )
}

/// Relies on `<jiff::civil::Date as FromStr>::from_str`: a civil date is always a valid
/// date in years -9999..=9999; a bare `YYYY-MM-DD` reads as that date when it exists; a
/// text with a `Z` offset is refused.
#[verifier::external_body]
pub(crate) fn parse_civil_date(s: &str) -> (r: Option<(i16, i8, i8)>)
    ensures
        r == date_parse(s@),
        r matches Some(t) ==> valid_date(t.0 as int, t.1 as int, t.2 as int),
        forall|y: int, m: int, d: int| #[trigger]
            is_date_text(s@, y, m, d) ==> r == (if valid_date(y, m, d) {
                Some((y as i16, m as i8, d as i8))
            } else {
                None
            }),
        forall|y: int, m: int, d: int, h: int, mi: int, se: int| #[trigger]
            is_utc_text(s@, y, m, d, h, mi, se) ==> r is None,
{
    s.parse::<jiff::civil::Date>().ok().map(|t| (t.year(), t.month(), t.day()))
}

/// Seconds of a civil datetime read as UTC, when it lies in range.
pub open spec fn civil_secs(y: int, m: int, d: int, h: int, mi: int, s: int) -> Option<i64> {
    let v = secs_from_civil(y, m, d, h, mi, s);
    if in_range(v) {
        Some(v as i64)
    } else {
        None
    }
}

/// The instant a (trimmed) text denotes: an instant with an offset, else a civil
/// datetime in UTC, else a civil date at UTC midnight.
pub open spec fn start_instant(t: Seq<char>) -> Option<i64> {
    if timestamp_parse(t) is Some {
        timestamp_parse(t)
    } else if let Some(dt) = datetime_parse(t) {
        civil_secs(dt.0 as int, dt.1 as int, dt.2 as int, dt.3 as int, dt.4 as int, dt.5 as int)
    } else if let Some(d) = date_parse(t) {
        civil_secs(d.0 as int, d.1 as int, d.2 as int, 0, 0, 0)
    } else {
        None
    }
}

fn civil_secs_exec(y: i64, m: i64, d: i64, h: i64, mi: i64, s: i64) -> (r: Option<i64>)
    requires
        valid_date(y as int, m as int, d as int),
        valid_time(h as int, mi as int, s as int),
    ensures
        r == civil_secs(y as int, m as int, d as int, h as int, mi as int, s as int),
{
    let days = days_from_civil_exec(y, m, d);
    let v: i64 = days * 86400 + h * 3600 + mi * 60 + s;
    if MIN_SECS <= v && v <= MAX_SECS {
        Some(v)
    } else {
        None
    }
}

/// Reads an instant (whole seconds) from already-trimmed text.
pub(crate) fn read_instant(t: &str) -> (r: Option<i64>)
    ensures
        r == start_instant(t@),
        r matches Some(x) ==> in_range(x as int),
        forall|x: int| #[trigger] iso_text(x) == t@ && in_range(x) ==> r == Some(x as i64),
        forall|y: int, m: int, d: int| #[trigger]
            is_date_text(t@, y, m, d) ==> r == (if valid_date(y, m, d) {
                civil_secs(y, m, d, 0, 0, 0)
            } else {
                None
            }),
        forall|y: int, m: int, d: int, h: int, mi: int, se: int| #[trigger]
            is_utc_text(t@, y, m, d, h, mi, se) ==> r == (if valid_date(y, m, d) {
                civil_secs(y, m, d, h, mi, se)
            } else {
                None
            }),
{
    if let Some(ts) = parse_timestamp(t) {
        return Some(ts);
    }
    if let Some(dt) = parse_civil_datetime(t) {
        return civil_secs_exec(
            dt.0 as i64,
            dt.1 as i64,
            dt.2 as i64,
            dt.3 as i64,
            dt.4 as i64,
            dt.5 as i64,
        );
    }
    if let Some(d) = parse_civil_date(t) {
        return civil_secs_exec(d.0 as i64, d.1 as i64, d.2 as i64, 0, 0, 0);
    }
    None
}

} // verus!
