//! Readings of the system clocks. What they return depends on the moment
//! and the machine's time zone, so only the shape of the rendered text is
//! claimed, never its digits.

use vstd::prelude::*;

verus! {

#[verifier::external_type_specification]
#[verifier::external_body]
pub struct ExInstant(std::time::Instant);

/// Calls `std::time::Instant::now`. Nothing is claimed of the instant.
#[verifier::external_body]
pub(crate) fn monotonic_now() -> std::time::Instant {
    std::time::Instant::now()
}

/// The pattern of log timestamps: date, then time to the second.
pub const LOG_TIME_PATTERN: &'static str = "%Y-%m-%d, %H:%M:%S";

/// The pattern of build times: date, then time to the minute.
pub const BUILD_TIME_PATTERN: &'static str = "%Y-%m-%d %H:%M";

/// An ASCII decimal digit.
pub open spec fn is_digit(c: char) -> bool {
    0x30 <= (c as u32) <= 0x39
}

/// The shape of a time rendered with `BUILD_TIME_PATTERN`:
/// `YYYY-MM-DD HH:MM`, digits but for the separators.
pub open spec fn minute_shaped(t: Seq<char>) -> bool {
    &&& t.len() == 16
    &&& forall|i: int| 0 <= i < 16 ==> if i == 4 || i == 7 { t[i] == '-' }
        else if i == 10 { t[i] == ' ' }
        else if i == 13 { t[i] == ':' }
        else { is_digit(#[trigger] t[i]) }
}

/// The shape of a time rendered with `LOG_TIME_PATTERN`:
/// `YYYY-MM-DD, HH:MM:SS`, digits but for the separators.
pub open spec fn second_shaped(t: Seq<char>) -> bool {
    &&& t.len() == 20
    &&& forall|i: int| 0 <= i < 20 ==> if i == 4 || i == 7 { t[i] == '-' }
        else if i == 10 { t[i] == ',' }
        else if i == 11 { t[i] == ' ' }
        else if i == 14 || i == 17 { t[i] == ':' }
        else { is_digit(#[trigger] t[i]) }
}

/// The part of a `LOG_TIME_PATTERN` text after the year:
/// `-MM-DD, HH:MM:SS`, digits but for the separators.
pub open spec fn after_year_shaped(t: Seq<char>) -> bool {
    &&& t.len() == 16
    &&& forall|i: int| 0 <= i < 16 ==> if i == 0 || i == 3 { t[i] == '-' }
        else if i == 6 { t[i] == ',' }
        else if i == 7 { t[i] == ' ' }
        else if i == 10 || i == 13 { t[i] == ':' }
        else { is_digit(#[trigger] t[i]) }
}

/// The shape of any wall-clock time rendered with `LOG_TIME_PATTERN`: a
/// year of at least four characters (`chrono` pads it to four digits and
/// puts a sign before years outside 0 to 9999), then `-MM-DD, HH:MM:SS`.
pub open spec fn log_time_shaped(t: Seq<char>) -> bool {
    &&& t.len() >= 20
    &&& after_year_shaped(t.subrange(t.len() - 16, t.len() as int))
}

/// The shape of a time rendered with one of the library's patterns, for a
/// year of four digits.
pub open spec fn pattern_shaped(pattern: Seq<char>, t: Seq<char>) -> bool {
    if pattern == BUILD_TIME_PATTERN@ { minute_shaped(t) } else { second_shaped(t) }
}

/// The `chrono` format patterns the library renders with. `chrono` renders
/// a pattern it cannot parse as a formatting error, on which `to_string`
/// panics; these two patterns use only the specifiers `%Y %m %d %H %M %S`.
pub open spec fn known_pattern(pattern: Seq<char>) -> bool {
    pattern == LOG_TIME_PATTERN@ || pattern == BUILD_TIME_PATTERN@
}

/// Calls `chrono::Local::now` and renders it with `pattern`. The digits
/// depend on the clock and the time zone and are not claimed. With
/// `LOG_TIME_PATTERN` the text has the shape `log_time_shaped` whatever the
/// clock reads: `chrono` writes `%Y` as at least four characters and
/// `%m %d %H %M %S` as two digits each (a leap second as 60).
#[verifier::external_body]
pub(crate) fn local_now_text(pattern: &str) -> (r: String)
    requires
        known_pattern(pattern@),
    ensures
        pattern@ == LOG_TIME_PATTERN@ ==> log_time_shaped(r@),
{
    chrono::Local::now().format(pattern).to_string()
}

/// Calls `chrono::DateTime::from_timestamp(secs, 0)`, moves the instant to
/// the machine's zone with `with_timezone(&chrono::Local)` and renders it
/// with `pattern`. `from_timestamp` is `None` only for seconds whose day
/// falls outside an `i32` day count, which no `u32` reaches, so the result
/// is always `Some`. A `u32` count of seconds lies in the years 1970 to
/// 2106, which a time zone moves by at most a day, so `%Y` gives four
/// digits and `%m %d %H %M %S` two each: the text has the pattern's shape.
/// Its digits depend on the time zone and are not claimed.
#[verifier::external_body]
pub(crate) fn local_minute_text(secs: u32, pattern: &str) -> (r: Option<String>)
    requires
        known_pattern(pattern@),
    ensures
        r is Some,
        pattern_shaped(pattern@, r->0@),
{
    match chrono::DateTime::from_timestamp(i64::from(secs), 0) {
        Some(time) => Some(time.with_timezone(&chrono::Local).format(pattern).to_string()),
        None => None,
    }
}

} // verus!
