//! The calls that leave this library: the clock, random identifiers, the
//! content digest and the reading and writing of dates. The contract of
//! each function without a verified body is taken on trust from the crate
//! that is called; the formats of the stores are handed to them by the
//! verified functions beside them.
use std::fmt::Write;
use vstd::prelude::*;

verus! {

/// `chrono::Utc::now`, written by `DateTime::format` in the format that is
/// handed in. Nothing is claimed of the text: it depends on the clock, and
/// it breaks off where the format cannot be written. `Utc::now` panics
/// where the system clock stands before 1970.
#[verifier::external_body]
pub(crate) fn utc_now_text(format: &str) -> String {
    let mut out = String::new();
    let _ = write!(out, "{}", chrono::Utc::now().format(format));
    out
}

/// `chrono::Local::now`, written by `DateTime::format` in the format that
/// is handed in, in the machine's time zone. Nothing is claimed of the
/// text: it depends on the clock and on the zone, and it breaks off where
/// the format cannot be written.
#[verifier::external_body]
pub(crate) fn local_now_text(format: &str) -> String {
    let mut out = String::new();
    let _ = write!(out, "{}", chrono::Local::now().format(format));
    out
}

/// The present time in UTC, as the stores write a time: date, time and six
/// digits of the second's fraction.
pub fn now_utc_micro() -> String {
    utc_now_text("%Y-%m-%d %H:%M:%S.%6f")
}

/// The present time in the machine's zone, as the stores write a time.
pub fn now_local_micro() -> String {
    local_now_text("%Y-%m-%d %H:%M:%S.%6f")
}

/// `uuid::Uuid::new_v4`, in the hyphenated form. Nothing is claimed of the
/// text: it is random.
#[verifier::external_body]
pub(crate) fn new_uuid() -> String {
    uuid::Uuid::new_v4().to_string()
}


/// The SHA-1 digest of `data`, as 40 lower-case hexadecimal digits.
pub uninterp spec fn sha1_hex(data: Seq<u8>) -> Seq<char>;

/// `sha1::Sha1::digest` (the `Digest` trait's one-call form), written in
/// lower-case hexadecimal. The digest depends on the bytes alone.
#[verifier::external_body]
pub(crate) fn sha1_digest_hex(data: &Vec<u8>) -> (r: String)
    ensures
        r@ == sha1_hex(data@),
{
    format!("{:x}", <sha1::Sha1 as sha1::Digest>::digest(data))
}

/// The text of a time given in microseconds since 1970 in UTC, written in a
/// format of `chrono`; nothing where the calendar of `chrono` does not
/// reach that far or the format cannot be written.
pub uninterp spec fn time_text(micros: i64, format: Seq<char>) -> Option<Seq<char>>;

/// `chrono::DateTime::<Utc>::from_timestamp_micros`, then `DateTime::format`
/// with the format that is handed in. The text depends on the number and
/// the format alone; there is none where `from_timestamp_micros` gives no
/// date or the formatter reports an error.
#[verifier::external_body]
pub(crate) fn format_time(micros: i64, format: &str) -> (r: Option<String>)
    ensures
        crate::catalog::text_of(r) == time_text(micros, format@),
{
    let mut out = String::new();
    match chrono::DateTime::<chrono::Utc>::from_timestamp_micros(micros) {
        Some(at) => match write!(out, "{}", at.format(format)) {
            Ok(_) => Some(out),
            Err(_) => None,
        },
        None => None,
    }
}

/// The text of a time as the catalog writes it: date, time and six digits
/// of the second's fraction.
pub open spec fn timestamp_text(micros: i64) -> Option<Seq<char>> {
    time_text(micros, "%Y-%m-%d %H:%M:%S.%6f"@)
}

/// Writes a time, given in microseconds since 1970 in UTC, as the catalog
/// writes it.
pub fn format_timestamp_micro(micros: i64) -> (r: Option<String>)
    ensures
        crate::catalog::text_of(r) == timestamp_text(micros),
{
    format_time(micros, "%Y-%m-%d %H:%M:%S.%6f")
}

/// The time that a text with a zone offset stands for when it is read by a
/// format of `chrono`, in microseconds since 1970 in UTC; nothing where the
/// text does not fit the format.
pub uninterp spec fn zoned_time_micros(text: Seq<char>, format: Seq<char>) -> Option<i64>;

/// `chrono::DateTime::parse_from_str` with the format that is handed in,
/// brought to UTC by `with_timezone` and counted by `timestamp_micros`. The
/// number depends on the text and the format alone.
#[verifier::external_body]
pub(crate) fn parse_zoned_time(text: &str, format: &str) -> (r: Option<i64>)
    ensures
        r == zoned_time_micros(text@, format@),
{
    match chrono::DateTime::parse_from_str(text, format) {
        Ok(at) => Some(at.with_timezone(&chrono::Utc).timestamp_micros()),
        Err(_) => None,
    }
}

/// The time that a text without a zone stands for when it is read by a
/// format of `chrono` as UTC, in microseconds since 1970; nothing where the
/// text does not fit the format.
pub uninterp spec fn naive_time_micros(text: Seq<char>, format: Seq<char>) -> Option<i64>;

/// `chrono::NaiveDateTime::parse_from_str` with the format that is handed
/// in, read as UTC by `and_utc` and counted by `timestamp_micros`. The
/// number depends on the text and the format alone.
#[verifier::external_body]
pub(crate) fn parse_naive_time(text: &str, format: &str) -> (r: Option<i64>)
    ensures
        r == naive_time_micros(text@, format@),
{
    match chrono::NaiveDateTime::parse_from_str(text, format) {
        Ok(at) => Some(at.and_utc().timestamp_micros()),
        Err(_) => None,
    }
}

/// The time that a stored text with a zone offset stands for: date, time,
/// fraction and offset.
pub open spec fn zoned_timestamp_micros(text: Seq<char>) -> Option<i64> {
    zoned_time_micros(text, "%Y-%m-%d %H:%M:%S%.6f%z"@)
}

/// The time that a stored text without a zone stands for, read as UTC:
/// date, time and fraction.
pub open spec fn naive_timestamp_micros(text: Seq<char>) -> Option<i64> {
    naive_time_micros(text, "%Y-%m-%d %H:%M:%S%.6f"@)
}

/// Reads a stored time with a zone offset.
pub fn parse_zoned_timestamp(text: &str) -> (r: Option<i64>)
    ensures
        r == zoned_timestamp_micros(text@),
{
    parse_zoned_time(text, "%Y-%m-%d %H:%M:%S%.6f%z")
}

/// Reads a stored time without a zone as UTC.
pub fn parse_naive_timestamp(text: &str) -> (r: Option<i64>)
    ensures
        r == naive_timestamp_micros(text@),
{
    parse_naive_time(text, "%Y-%m-%d %H:%M:%S%.6f")
}

/// The time that a text in the form of RFC 3339 stands for, in microseconds
/// since 1970 in UTC; nothing where the text is not of that form.
pub uninterp spec fn rfc3339_micros(text: Seq<char>) -> Option<i64>;

/// `chrono::DateTime::parse_from_rfc3339`, brought to UTC by
/// `with_timezone` and counted by `timestamp_micros`. The number depends on
/// the text alone.
#[verifier::external_body]
pub(crate) fn parse_rfc3339(text: &str) -> (r: Option<i64>)
    ensures
        r == rfc3339_micros(text@),
{
    match chrono::DateTime::parse_from_rfc3339(text) {
        Ok(at) => Some(at.with_timezone(&chrono::Utc).timestamp_micros()),
        Err(_) => None,
    }
}

/// The start of the day that a text stands for when it is read by a format
/// of `chrono`, in microseconds since 1970 in UTC; nothing where the text
/// does not fit the format.
pub uninterp spec fn calendar_date_micros(text: Seq<char>, format: Seq<char>) -> Option<i64>;

/// `chrono::NaiveDate::parse_from_str`, taken at midnight by `and_time`,
/// read as UTC by `and_utc` and counted by `timestamp_micros`. The number
/// depends on the text and the format alone.
#[verifier::external_body]
pub(crate) fn parse_calendar_date(text: &str, format: &str) -> (r: Option<i64>)
    ensures
        r == calendar_date_micros(text@, format@),
{
    match chrono::NaiveDate::parse_from_str(text, format) {
        Ok(day) => Some(day.and_time(chrono::NaiveTime::MIN).and_utc().timestamp_micros()),
        Err(_) => None,
    }
}

/// The start of a year, in microseconds since 1970 in UTC; nothing where
/// the calendar of `chrono` does not reach the year.
pub uninterp spec fn year_start_micros(year: i32) -> Option<i64>;

/// `chrono::NaiveDate::from_ymd_opt` for the first of January, taken at
/// midnight by `and_time`, read as UTC by `and_utc` and counted by
/// `timestamp_micros`. The number depends on the year alone.
#[verifier::external_body]
pub(crate) fn first_day_of_year(year: i32) -> (r: Option<i64>)
    ensures
        r == year_start_micros(year),
{
    match chrono::NaiveDate::from_ymd_opt(year, 1, 1) {
        Some(day) => Some(day.and_time(chrono::NaiveTime::MIN).and_utc().timestamp_micros()),
        None => None,
    }
}

} // verus!
