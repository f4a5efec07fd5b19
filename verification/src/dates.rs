//! Timestamps: chrono parses and formats them, and the library compares them
//! as instants.
use chrono::{DateTime, Datelike, Utc};
use vstd::prelude::*;
use vstd::string::*;

use crate::text::{decimal, decimal_i64};

verus! {

/// chrono's error for text it cannot parse as a date and time.
#[verifier::external_type_specification]
#[verifier::external_body]
pub struct ExParseError(chrono::ParseError);

/// The instant that an RFC 3339 timestamp denotes, as whole seconds since the
/// Unix epoch and nanoseconds within that second, or `None` where
/// `chrono::DateTime::parse_from_rfc3339` refuses the text.
pub uninterp spec fn rfc3339_instant(text: Seq<char>) -> Option<(i64, u32)>;

/// The text that chrono's `format` writes with the pattern `format` for the
/// moment of an RFC 3339 timestamp, moved to UTC.
pub uninterp spec fn rfc3339_utc_day(text: Seq<char>, format: Seq<char>) -> Seq<char>;

/// The text that chrono's `format` writes with the pattern `format` for the
/// calendar day, in the timestamp's own offset, of an RFC 2822 timestamp, or
/// `None` where `chrono::DateTime::parse_from_rfc2822` refuses the text.
pub uninterp spec fn rfc2822_day(text: Seq<char>, format: Seq<char>) -> Option<Seq<char>>;

/// How the README writes a day: year, month and day of the month.
pub const DATE_FORMAT: &'static str = "%Y-%m-%d";

/// How the current time, but for its year, is written: month, day, hour,
/// minute and second, in UTC.
pub const CLOCK_REST_FORMAT: &'static str = "%m-%dT%H:%M:%SZ";

/// Calls `chrono::DateTime::parse_from_rfc3339` and returns the instant as
/// `(timestamp(), timestamp_subsec_nanos())`. Trusted: that the call succeeds
/// exactly where the name `rfc3339_instant` has a value, and returns it.
#[verifier::external_body]
fn parse_rfc3339(text: &str) -> (r: Result<(i64, u32), chrono::ParseError>)
    ensures
        r is Ok <==> rfc3339_instant(text@) is Some,
        r matches Ok(v) ==> rfc3339_instant(text@) == Some(v),
{
    match DateTime::parse_from_rfc3339(text) {
        Ok(d) => Ok((d.timestamp(), d.timestamp_subsec_nanos())),
        Err(e) => Err(e),
    }
}

/// Calls `chrono::DateTime::parse_from_rfc3339`, moves the result to UTC with
/// `with_timezone(&Utc)` and writes it with `format(format)`. Only
/// `DATE_FORMAT` is admitted: writing with a pattern chrono cannot read
/// panics. Trusted: that it succeeds exactly where `parse_rfc3339` does, and
/// that the text it returns is `rfc3339_utc_day` of the text and pattern.
#[verifier::external_body]
fn format_rfc3339_utc_day(text: &str, format: &str) -> (r: Result<String, chrono::ParseError>)
    requires
        format@ == DATE_FORMAT@,
    ensures
        r is Ok <==> rfc3339_instant(text@) is Some,
        r matches Ok(d) ==> d@ == rfc3339_utc_day(text@, format@),
{
    match DateTime::parse_from_rfc3339(text) {
        Ok(d) => Ok(d.with_timezone(&Utc).format(format).to_string()),
        Err(e) => Err(e),
    }
}

/// Calls `chrono::DateTime::parse_from_rfc2822` and writes the calendar day
/// of the result, in its own offset, with `format(format)`. Only
/// `DATE_FORMAT` is admitted: writing with a pattern chrono cannot read
/// panics. Trusted: that it succeeds exactly where `rfc2822_day` has a
/// value, and returns it.
#[verifier::external_body]
fn format_rfc2822_day(text: &str, format: &str) -> (r: Result<String, chrono::ParseError>)
    requires
        format@ == DATE_FORMAT@,
    ensures
        r is Ok <==> rfc2822_day(text@, format@) is Some,
        r matches Ok(d) ==> rfc2822_day(text@, format@) == Some(d@),
{
    match DateTime::parse_from_rfc2822(text) {
        Ok(d) => Ok(d.date_naive().format(format).to_string()),
        Err(e) => Err(e),
    }
}

/// A decimal digit.
pub open spec fn is_digit(c: char) -> bool {
    c == '0' || c == '1' || c == '2' || c == '3' || c == '4' || c == '5' || c == '6' || c == '7' || c == '8'
        || c == '9'
}

/// The shape of a time written with `CLOCK_REST_FORMAT`: two digits each of
/// month, day, hour, minute and second, with `-`, `T`, `:`, `:` between
/// them and `Z` at the end.
pub open spec fn clock_rest_shape(rest: Seq<char>) -> bool {
    &&& rest.len() == 15
    &&& is_digit(rest[0]) && is_digit(rest[1]) && rest[2] == '-'
    &&& is_digit(rest[3]) && is_digit(rest[4]) && rest[5] == 'T'
    &&& is_digit(rest[6]) && is_digit(rest[7]) && rest[8] == ':'
    &&& is_digit(rest[9]) && is_digit(rest[10]) && rest[11] == ':'
    &&& is_digit(rest[12]) && is_digit(rest[13]) && rest[14] == 'Z'
}

/// Reads the clock with `chrono::Utc::now()` and returns the current year and
/// the rest of the current time written with `format(format)`. Only
/// `CLOCK_REST_FORMAT` is admitted. Trusted: that the rest has the shape
/// that pattern gives (chrono pads each of these numbers to two digits).
/// Which year and which time come back is not stated: that depends on the
/// moment of the call.
#[verifier::external_body]
fn utc_now_year_and_rest(format: &str) -> (r: (i32, String))
    requires
        format@ == CLOCK_REST_FORMAT@,
    ensures
        clock_rest_shape(r.1@),
{
    let now = Utc::now();
    (now.year(), now.format(format).to_string())
}

/// A timestamp that chrono refused; the text is kept for the message.
pub struct InvalidTimestamp {
    pub text: String,
}

/// The instant of an RFC 3339 timestamp, or the error chrono gives for it.
pub fn instant_of(text: &str) -> (r: Result<(i64, u32), InvalidTimestamp>)
    ensures
        match r {
            Ok(v) => rfc3339_instant(text@) == Some(v),
            Err(e) => rfc3339_instant(text@) is None && e.text@ == text@,
        },
{
    match parse_rfc3339(text) {
        Ok(v) => Ok(v),
        Err(_) => Err(InvalidTimestamp { text: text.to_owned() }),
    }
}

/// The UTC calendar day `YYYY-MM-DD` of an RFC 3339 timestamp that chrono
/// accepts.
pub fn utc_day_of(text: &str) -> (r: String)
    requires
        rfc3339_instant(text@) is Some,
    ensures
        r@ == rfc3339_utc_day(text@, DATE_FORMAT@),
{
    match format_rfc3339_utc_day(text, DATE_FORMAT) {
        Ok(d) => d,
        Err(_) => {
            assert(false);
            String::new()
        },
    }
}

/// The calendar day `YYYY-MM-DD` of an RFC 2822 timestamp, or the error
/// chrono gives for it.
pub fn rfc2822_day_of(text: &str) -> (r: Result<String, InvalidTimestamp>)
    ensures
        match r {
            Ok(d) => rfc2822_day(text@, DATE_FORMAT@) == Some(d@),
            Err(e) => rfc2822_day(text@, DATE_FORMAT@) is None && e.text@ == text@,
        },
{
    match format_rfc2822_day(text, DATE_FORMAT) {
        Ok(d) => Ok(d),
        Err(_) => Err(InvalidTimestamp { text: text.to_owned() }),
    }
}

/// Instant `a` is strictly earlier than instant `b`.
pub open spec fn earlier(a: (i64, u32), b: (i64, u32)) -> bool {
    a.0 < b.0 || (a.0 == b.0 && a.1 < b.1)
}

/// Whether instant `a` is strictly earlier than instant `b`, the order in
/// which chrono compares `DateTime`s.
pub fn is_earlier(a: (i64, u32), b: (i64, u32)) -> (r: bool)
    ensures
        r == earlier(a, b),
{
    a.0 < b.0 || (a.0 == b.0 && a.1 < b.1)
}

/// The text of the moment two calendar years before a moment of year `year`
/// whose month, day and time of day are written `rest`.
pub open spec fn two_years_before_text(year: int, rest: Seq<char>) -> Seq<char> {
    decimal(year - 2) + seq!['-'] + rest
}

/// The instant two calendar years before the moment of year `year` whose
/// month, day and time are `rest` (`%m-%dT%H:%M:%SZ`), or `None` where chrono
/// refuses that text (the 29th of February of a year that is not a leap
/// year, or a `rest` that is not a month, day and time).
pub fn two_years_before(year: i32, rest: &str) -> (r: Option<(i64, u32)>)
    ensures
        r == rfc3339_instant(two_years_before_text(year as int, rest@)),
{
    let mut text = decimal_i64(year as i64 - 2);
    proof { reveal_strlit("-"); }
    text.append("-");
    text.append(rest);
    assert(text@ == two_years_before_text(year as int, rest@));
    let t = text.as_str();
    assert(t@ == text@);
    match parse_rfc3339(t) {
        Ok(v) => Some(v),
        Err(_) => None,
    }
}

/// The instant two years before now: repositories last committed to before
/// it are not recent. It is the instant of the text that puts the current
/// year less two before the current month, day and time of day (two digits
/// each, as `CLOCK_REST_FORMAT` writes them); `None` exactly where chrono
/// refuses that text (now is the 29th of February).
pub fn filter_date() -> (r: Option<(i64, u32)>)
    ensures
        exists|year: int, rest: Seq<char>|
            i32::MIN <= year <= i32::MAX
            && clock_rest_shape(rest)
            && r == rfc3339_instant(#[trigger] two_years_before_text(year, rest)),
{
    let (year, rest) = utc_now_year_and_rest(CLOCK_REST_FORMAT);
    let r = two_years_before(year, rest.as_str());
    assert(r == rfc3339_instant(two_years_before_text(year as int, rest@)));
    r
}

} // verus!
