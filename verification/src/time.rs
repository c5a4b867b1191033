//! Instants, calendar dates and their display.
//!
//! An instant is a number of unix seconds. Date-level data is stored as midnight UTC and
//! shown in UTC, so that no date slips to the evening before; event times are shown in
//! the operator's zone, Atlantic Standard Time.

use crate::text::{dec_string, int_string, magnitude, trim};
use chrono::{DateTime, Datelike, Months, NaiveDate, TimeZone, Timelike, Utc};
use chrono_tz::America::Puerto_Rico;
use vstd::prelude::*;

verus! {

use crate::text::{
    dec, dec2, dec_int, is_digit, is_white, lemma_dec_value, lemma_trimmed_fixed, trimmed,
};

/// The first instant of the calendar.
pub const MIN_INSTANT: i64 = -8_334_601_228_800;

/// The last instant of the calendar.
pub const MAX_INSTANT: i64 = 8_210_266_876_799;

/// The instants that fall in the calendar: the years -262143 to 262142.
pub open spec fn valid_instant(ts: i64) -> bool {
    MIN_INSTANT <= ts <= MAX_INSTANT
}

/// Whether a year of the Gregorian calendar is a leap year.
pub open spec fn is_leap(year: int) -> bool {
    year % 4 == 0 && (year % 100 != 0 || year % 400 == 0)
}

/// The length of a Gregorian month; 31 for what is no month of the calendar.
pub open spec fn month_length(year: int, month: int) -> u32 {
    if !(-262143 <= year <= 262142) {
        31
    } else if month == 2 {
        if is_leap(year) {
            29
        } else {
            28
        }
    } else if month == 4 || month == 6 || month == 9 || month == 11 {
        30
    } else {
        31
    }
}

/// The days of a year before a month begins.
pub open spec fn before_month(year: int, month: int) -> int {
    let leap_day: int = if month > 2 && is_leap(year) {
        1
    } else {
        0
    };
    leap_day + if month <= 1 {
        0
    } else if month == 2 {
        31
    } else if month == 3 {
        59
    } else if month == 4 {
        90
    } else if month == 5 {
        120
    } else if month == 6 {
        151
    } else if month == 7 {
        181
    } else if month == 8 {
        212
    } else if month == 9 {
        243
    } else if month == 10 {
        273
    } else if month == 11 {
        304
    } else {
        334int
    }
}

/// The number of days from the first day of 1970 to a day.
pub open spec fn day_number(year: int, month: int, day: int) -> int {
    let p = year - 1;
    365 * p + p / 4 - p / 100 + p / 400 + before_month(year, month) + day - 719163
}

/// Whether a day is in the calendar.
pub open spec fn is_day(year: int, month: int, day: int) -> bool {
    -262143 <= year <= 262142 && 1 <= month <= 12 && 1 <= day <= month_length(year, month)
}

/// The instant at which a calendar day begins in UTC, if there is such a day.
pub open spec fn utc_midnight(year: i32, month: u32, day: u32) -> Option<i64> {
    if is_day(year as int, month as int, day as int) {
        Some((86_400 * day_number(year as int, month as int, day as int)) as i64)
    } else {
        None
    }
}

/// The weekday (Monday is 0) of a calendar day.
pub open spec fn weekday_of(year: i32, month: u32, day: u32) -> Option<u32> {
    if is_day(year as int, month as int, day as int) {
        Some(((day_number(year as int, month as int, day as int) + 3) % 7) as u32)
    } else {
        None
    }
}

/// The month that is a number of months after a month.
pub open spec fn later_month(year: i32, month: u32, months: u32) -> (i32, u32) {
    let n = month - 1 + months;
    ((year + n / 12) as i32, (n % 12 + 1) as u32)
}

/// An instant moved on by calendar months: the same time of day on the same day of the month,
/// or on the last day of a month that is too short. Nothing where that leaves the calendar.
pub open spec fn plus_months(ts: i64, months: u32) -> Option<i64> {
    let f = utc_fields(ts);
    let (year, month) = (f.0 + (f.1 - 1 + months) / 12, (f.1 - 1 + months) % 12 + 1);
    let day = if f.2 <= month_length(year, month) {
        f.2
    } else {
        month_length(year, month)
    };
    if valid_instant(ts) && is_day(year, month, day as int) {
        Some((86_400 * day_number(year, month, day as int) + ts % 86_400) as i64)
    } else {
        None
    }
}

/// Whether calendar fields are those of a number of seconds since 1970 began.
pub open spec fn reads(f: (i32, u32, u32, u32, u32, u32), secs: int) -> bool {
    &&& is_day(f.0 as int, f.1 as int, f.2 as int)
    &&& day_number(f.0 as int, f.1 as int, f.2 as int) == secs / 86_400
    &&& f.3 == (secs % 86_400) / 3_600
    &&& f.4 == (secs % 3_600) / 60
    &&& f.5 == (secs / 86_400 + 3) % 7
}

/// The calendar day before a day; the first of the calendar has none.
pub open spec fn day_before(year: i32, month: u32, day: u32) -> Option<(i32, u32, u32)> {
    if !is_day(year as int, month as int, day as int) || (year == -262143 && month == 1 && day
        == 1) {
        None
    } else if day > 1 {
        Some((year, month, (day - 1) as u32))
    } else if month > 1 {
        Some((year, (month - 1) as u32, month_length(year as int, month - 1)))
    } else {
        Some(((year - 1) as i32, 12, 31))
    }
}

/// When Puerto Rico last changed its offset; it has been four hours behind UTC since.
pub const SETTLED_OFFSET: i64 = -765_399_600;

/// The display formats in use.
pub open spec fn is_format(f: Seq<char>) -> bool {
    ||| f == "%b %d, %Y %H:%M %Z"@
    ||| f == "%a %b %d, %Y"@
    ||| f == "%b %d"@
    ||| f == "%Y-%m-%d"@
    ||| f == "%Y%m%d"@
    ||| f == "%Y%m%dT%H%M%SZ"@
}

/// The short name of a month.
pub open spec fn month_abbr(month: u32) -> Seq<char> {
    if month == 1 {
        "Jan"@
    } else if month == 2 {
        "Feb"@
    } else if month == 3 {
        "Mar"@
    } else if month == 4 {
        "Apr"@
    } else if month == 5 {
        "May"@
    } else if month == 6 {
        "Jun"@
    } else if month == 7 {
        "Jul"@
    } else if month == 8 {
        "Aug"@
    } else if month == 9 {
        "Sep"@
    } else if month == 10 {
        "Oct"@
    } else if month == 11 {
        "Nov"@
    } else {
        "Dec"@
    }
}

/// The short name of a weekday; Monday is 0.
pub open spec fn weekday_abbr(weekday: u32) -> Seq<char> {
    if weekday == 0 {
        "Mon"@
    } else if weekday == 1 {
        "Tue"@
    } else if weekday == 2 {
        "Wed"@
    } else if weekday == 3 {
        "Thu"@
    } else if weekday == 4 {
        "Fri"@
    } else if weekday == 5 {
        "Sat"@
    } else {
        "Sun"@
    }
}

/// A year as dates show it: four digits, with a sign outside the years 0 to 9999.
pub open spec fn shown_year(y: int) -> Seq<char> {
    if y < 0 {
        seq!['-'] + zero_padded(dec((-y) as nat), 4)
    } else if y <= 9999 {
        zero_padded(dec(y as nat), 4)
    } else {
        seq!['+'] + dec(y as nat)
    }
}

/// A date as `YYYY-MM-DD`.
pub open spec fn iso_text(year: int, month: nat, day: nat) -> Seq<char> {
    shown_year(year) + "-"@ + dec2(month) + "-"@ + dec2(day)
}

/// Calendar fields written in a display format. `second` is the second of the minute, and
/// `zone` the name of the zone.
pub open spec fn written(
    f: (i32, u32, u32, u32, u32, u32),
    second: nat,
    zone: Seq<char>,
    format: Seq<char>,
) -> Seq<char> {
    let year = shown_year(f.0 as int);
    let (month, day, hour, minute) = (dec2(f.1 as nat), dec2(f.2 as nat), dec2(f.3 as nat), dec2(f.4 as nat));
    if format == "%Y-%m-%d"@ {
        iso_text(f.0 as int, f.1 as nat, f.2 as nat)
    } else if format == "%Y%m%d"@ {
        year + month + day
    } else if format == "%Y%m%dT%H%M%SZ"@ {
        year + month + day + "T"@ + hour + minute + dec2(second) + "Z"@
    } else if format == "%b %d"@ {
        month_abbr(f.1) + " "@ + day
    } else if format == "%a %b %d, %Y"@ {
        weekday_abbr(f.5) + " "@ + month_abbr(f.1) + " "@ + day + ", "@ + year
    } else {
        month_abbr(f.1) + " "@ + day + ", "@ + year + " "@ + hour + ":"@ + minute + " "@ + zone
    }
}

/// An instant in UTC, written in a display format.
pub open spec fn utc_text(ts: i64, format: Seq<char>) -> Seq<char> {
    written(utc_fields(ts), (ts % 60) as nat, "UTC"@, format)
}

/// An instant in Puerto Rico, written in a display format.
pub uninterp spec fn ast_text(ts: i64, format: Seq<char>) -> Seq<char>;

/// Year, month, day, hour, minute and weekday (Monday is 0) of an instant in UTC.
pub uninterp spec fn utc_fields(ts: i64) -> (i32, u32, u32, u32, u32, u32);

/// Year, month, day, hour, minute and weekday (Monday is 0) of an instant in Puerto Rico.
pub uninterp spec fn ast_fields(ts: i64) -> (i32, u32, u32, u32, u32, u32);

/// The instant of a wall-clock minute in Puerto Rico, if it happens exactly once.
pub uninterp spec fn ast_instant(year: i32, month: u32, day: u32, hour: u32, minute: u32) -> Option<
    i64,
>;

/// The instant at which a `YYYY-MM-DD` date begins in UTC, or why it does not parse.
pub uninterp spec fn date_start(s: Seq<char>) -> Result<i64, Seq<char>>;

/// The instant that an RFC 3339 string denotes, if it denotes one.
pub uninterp spec fn rfc3339_instant(s: Seq<char>) -> Option<i64>;

/// `DateTime::format` on `Utc.timestamp_opt(ts, 0)`: there is a text exactly for the
/// instants of the calendar, and it writes the fields of the instant as the format says.
/// Only the formats in use are admitted, since a malformed one panics.
#[verifier::external_body]
pub(crate) fn format_utc(ts: i64, format: &str) -> (r: Option<String>)
    requires
        is_format(format@),
    ensures
        r is Some == valid_instant(ts),
        r is Some ==> r->0@ == utc_text(ts, format@) && reads(utc_fields(ts), ts as int),
{
    Utc.timestamp_opt(ts, 0).single().map(|d| d.format(format).to_string())
}

/// `DateTime::format` on an instant in `chrono_tz::America::Puerto_Rico`: there is a text
/// exactly for the instants of the calendar, and it depends on the instant and the format
/// alone; since the offset settled it writes the fields of the instant as the format says,
/// and the zone is called `AST`. Only the formats in use are admitted, since a malformed
/// one panics.
#[verifier::external_body]
pub(crate) fn format_ast(ts: i64, format: &str) -> (r: Option<String>)
    requires
        is_format(format@),
    ensures
        r is Some == valid_instant(ts),
        r is Some ==> r->0@ == ast_text(ts, format@),
        r is Some && ts >= SETTLED_OFFSET ==> r->0@ == written(
            ast_fields(ts),
            (ts % 60) as nat,
            "AST"@,
            format@,
        ) && reads(ast_fields(ts), ts - 14_400),
{
    Utc.timestamp_opt(ts, 0).single().map(
        |d| d.with_timezone(&Puerto_Rico).format(format).to_string(),
    )
}

/// Whether calendar fields are within their bounds.
pub open spec fn fields_in_bounds(f: (i32, u32, u32, u32, u32, u32)) -> bool {
    1 <= f.1 <= 12 && 1 <= f.2 <= 31 && f.3 < 24 && f.4 < 60 && f.5 < 7
}

/// The `Datelike` and `Timelike` fields of `Utc.timestamp_opt(ts, 0)`: present exactly for
/// the instants of the calendar, within their bounds, and those of the instant.
#[verifier::external_body]
pub(crate) fn fields_utc(ts: i64) -> (r: Option<(i32, u32, u32, u32, u32, u32)>)
    ensures
        r is Some == valid_instant(ts),
        r is Some ==> r->0 == utc_fields(ts),
        r is Some ==> fields_in_bounds(r->0),
        r is Some ==> reads(r->0, ts as int),
{
    let d = Utc.timestamp_opt(ts, 0).single()?;
    let w = d.weekday().num_days_from_monday();
    Some((d.year(), d.month(), d.day(), d.hour(), d.minute(), w))
}

/// The `Datelike` and `Timelike` fields of an instant in
/// `chrono_tz::America::Puerto_Rico`: present exactly for the instants of the calendar,
/// and within their bounds; since the offset settled, those of four hours earlier in UTC.
#[verifier::external_body]
pub(crate) fn fields_ast(ts: i64) -> (r: Option<(i32, u32, u32, u32, u32, u32)>)
    ensures
        r is Some == valid_instant(ts),
        r is Some ==> r->0 == ast_fields(ts),
        r is Some ==> fields_in_bounds(r->0),
        r is Some && ts >= SETTLED_OFFSET ==> reads(r->0, ts - 14_400),
{
    let d = Utc.timestamp_opt(ts, 0).single()?.with_timezone(&Puerto_Rico);
    let w = d.weekday().num_days_from_monday();
    Some((d.year(), d.month(), d.day(), d.hour(), d.minute(), w))
}

/// `Utc.with_ymd_and_hms` at midnight: the days since 1970 in seconds, for a day of the
/// calendar.
#[verifier::external_body]
pub(crate) fn midnight_utc(year: i32, month: u32, day: u32) -> (r: Option<i64>)
    ensures
        r == utc_midnight(year, month, day),
        r is Some ==> valid_instant(r->0),
{
    Utc.with_ymd_and_hms(year, month, day, 0, 0, 0).single().map(|d| d.timestamp())
}

/// `Puerto_Rico.with_ymd_and_hms(..).single()`: the instant depends on the date and the
/// time of day alone; from 1946 on it is the same reading in UTC and four hours.
#[verifier::external_body]
pub(crate) fn instant_ast(year: i32, month: u32, day: u32, hour: u32, minute: u32) -> (r: Option<
    i64,
>)
    ensures
        r == ast_instant(year, month, day, hour, minute),
        1946 <= year <= 262141 && is_day(year as int, month as int, day as int) && hour < 24
            && minute < 60 ==> r == Some(
            (86_400 * day_number(year as int, month as int, day as int) + 3_600 * hour + 60 * minute
                + 14_400) as i64,
        ),
{
    Puerto_Rico.with_ymd_and_hms(year, month, day, hour, minute, 0).single().map(|d| d.timestamp())
}

/// `DateTime::checked_add_months` on `Utc.timestamp_opt(ts, 0)`: the instant so many months
/// later, at the same time of day, the day of the month cut to the last one. There is none
/// where either instant is outside the calendar.
#[verifier::external_body]
fn checked_months(ts: i64, months: u32) -> (r: Option<i64>)
    ensures
        r == plus_months(ts, months),
{
    let d = Utc.timestamp_opt(ts, 0).single()?;
    d.checked_add_months(Months::new(months)).map(|d| d.timestamp())
}

/// An instant moved on by calendar months. It moves on, within the calendar; from the start
/// of a month it is the start of the month that is so many months later.
pub fn add_months(ts: i64, months: u32) -> (r: Option<i64>)
    ensures
        r == plus_months(ts, months),
        r is Some ==> valid_instant(ts) && valid_instant(r->0),
        r is Some && months > 0 ==> r->0 > ts,
        forall|year: i32, month: u32| #[trigger]
            utc_midnight(year, month, 1) == Some(ts) ==> r == utc_midnight(
                later_month(year, month, months).0,
                later_month(year, month, months).1,
                1,
            ),
{
    proof {
        lemma_starts_are_valid(ts);
    }
    if fields_utc(ts).is_none() {
        return None;
    }
    proof {
        lemma_months_later(ts, months);
    }
    checked_months(ts, months)
}

/// `NaiveDate::parse_from_str` with `%Y-%m-%d`, taken at midnight UTC: the instant, or the
/// error's text, depends on the string alone; the `YYYY-MM-DD` text of a day gives the start
/// of that day.
#[verifier::external_body]
pub(crate) fn parse_date(s: &str) -> (r: Result<i64, String>)
    ensures
        match (r, date_start(s@)) {
            (Ok(a), Ok(b)) => a == b,
            (Err(a), Err(b)) => a@ == b,
            _ => false,
        },
        forall|year: i32, month: u32, day: u32|
            is_day(year as int, month as int, day as int) && s@ == #[trigger] iso_text(
                year as int,
                month as nat,
                day as nat,
            ) ==> r is Ok && r->Ok_0 == 86_400 * day_number(year as int, month as int, day as int),
{
    match NaiveDate::parse_from_str(s, "%Y-%m-%d") {
        Ok(d) => Ok(d.and_time(chrono::NaiveTime::MIN).and_utc().timestamp()),
        Err(e) => Err(e.to_string()),
    }
}

/// `DateTime::parse_from_rfc3339`: the instant, or its absence, depends on the string alone.
#[verifier::external_body]
pub(crate) fn parse_rfc3339(s: &str) -> (r: Option<i64>)
    ensures
        r == rfc3339_instant(s@),
{
    DateTime::parse_from_rfc3339(s).ok().map(|d| d.timestamp())
}

/// `NaiveDate::pred_opt`: the day before; there is one for every day of the calendar but the
/// first.
#[verifier::external_body]
pub(crate) fn previous_day(year: i32, month: u32, day: u32) -> (r: Option<(i32, u32, u32)>)
    ensures
        r == day_before(year, month, day),
{
    let d = NaiveDate::from_ymd_opt(year, month, day)?.pred_opt()?;
    Some((d.year(), d.month(), d.day()))
}

/// `NaiveDate::weekday`: the weekday of a day of the calendar.
#[verifier::external_body]
pub(crate) fn weekday_on(year: i32, month: u32, day: u32) -> (r: Option<u32>)
    ensures
        r == weekday_of(year, month, day),
        r is Some ==> r->0 < 7,
{
    NaiveDate::from_ymd_opt(year, month, day).map(|d| d.weekday().num_days_from_monday())
}

/// `SystemTime::now`, converted by `DateTime::from`: the current instant. Nothing is promised
/// of it. A clock that stands before 1970 is read like any other.
#[verifier::external_body]
pub fn now_secs() -> (r: i64) {
    DateTime::<Utc>::from(std::time::SystemTime::now()).timestamp()
}

/// `Utc.timestamp_opt`: the instant itself where it falls in the calendar.
#[verifier::external_body]
pub fn parse_utc(ts_secs: i64) -> (r: Option<i64>)
    ensures
        r == if valid_instant(ts_secs) {
            Some(ts_secs)
        } else {
            None
        },
{
    Utc.timestamp_opt(ts_secs, 0).single().map(|d| d.timestamp())
}

/// What is shown for an instant outside the calendar.
pub open spec fn invalid_text(ts: i64) -> Seq<char> {
    "invalid_ts("@ + dec_int(ts as int) + ")"@
}

fn invalid(ts: i64) -> (r: String)
    ensures
        r@ == invalid_text(ts),
{
    "invalid_ts(".to_owned().concat(int_string(ts).as_str()).concat(")")
}

/// The text of an instant where it is in the calendar, else a note of its number.
pub open spec fn shown_or_invalid(ts: i64, text: Seq<char>) -> Seq<char> {
    if valid_instant(ts) {
        text
    } else {
        invalid_text(ts)
    }
}

/// Whether a text shows an instant in UTC: its calendar fields, written in a format.
pub open spec fn is_shown(ts: i64, format: Seq<char>, r: Seq<char>) -> bool {
    &&& r == shown_or_invalid(ts, utc_text(ts, format))
    &&& valid_instant(ts) ==> reads(utc_fields(ts), ts as int)
}

/// A date-time in the operator's zone, for real event times: such as `May 22, 2026 08:00 AST`.
pub fn display_ast(ts_secs: i64) -> (r: String)
    ensures
        r@ == shown_or_invalid(ts_secs, ast_text(ts_secs, "%b %d, %Y %H:%M %Z"@)),
        SETTLED_OFFSET <= ts_secs <= MAX_INSTANT ==> r@ == written(
            ast_fields(ts_secs),
            (ts_secs % 60) as nat,
            "AST"@,
            "%b %d, %Y %H:%M %Z"@,
        ) && reads(ast_fields(ts_secs), ts_secs - 14_400),
{
    match format_ast(ts_secs, "%b %d, %Y %H:%M %Z") {
        Some(s) => s,
        None => invalid(ts_secs),
    }
}

/// A calendar date in UTC, without a clock.
pub fn display_date(ts_secs: i64) -> (r: String)
    ensures
        is_shown(ts_secs, "%a %b %d, %Y"@, r@),
{
    match format_utc(ts_secs, "%a %b %d, %Y") {
        Some(s) => s,
        None => invalid(ts_secs),
    }
}

/// A compact month and day in UTC, for chart axes.
pub fn display_short_date(ts_secs: i64) -> (r: String)
    ensures
        is_shown(ts_secs, "%b %d"@, r@),
{
    match format_utc(ts_secs, "%b %d") {
        Some(s) => s,
        None => invalid(ts_secs),
    }
}

/// An ISO date in UTC, for export.
pub fn display_iso_date(ts_secs: i64) -> (r: String)
    ensures
        is_shown(ts_secs, "%Y-%m-%d"@, r@),
{
    match format_utc(ts_secs, "%Y-%m-%d") {
        Some(s) => s,
        None => invalid(ts_secs),
    }
}

/// Whether `r` is the start of the date that `s` holds: of every day, its `YYYY-MM-DD` text
/// gives the midnight it begins with.
pub open spec fn is_parsed(s: Seq<char>, r: Option<i64>) -> bool {
    &&& r == match date_start(trimmed(s)) {
        Ok(ts) => Some(ts),
        Err(_) => None,
    }
    &&& forall|year: i32, month: u32, day: u32|
        is_day(year as int, month as int, day as int) && trimmed(s) == #[trigger] iso_text(
            year as int,
            month as nat,
            day as nat,
        ) ==> r is Some && r->0 == 86_400 * day_number(year as int, month as int, day as int)
}

/// The instant at which a `YYYY-MM-DD` date begins in UTC; white space around it is ignored.
pub fn parse_ymd(s: &str) -> (r: Option<i64>)
    ensures
        is_parsed(s@, r),
{
    match parse_date(trim(s).as_str()) {
        Ok(ts) => Some(ts),
        Err(_) => None,
    }
}

/// A day of the week.
#[derive(Clone, Copy, Debug, PartialEq, Eq, Structural)]
pub enum Weekday {
    Mon,
    Tue,
    Wed,
    Thu,
    Fri,
    Sat,
    Sun,
}

impl Weekday {
    /// Days since Monday.
    pub open spec fn number(self) -> u32 {
        match self {
            Weekday::Mon => 0,
            Weekday::Tue => 1,
            Weekday::Wed => 2,
            Weekday::Thu => 3,
            Weekday::Fri => 4,
            Weekday::Sat => 5,
            Weekday::Sun => 6,
        }
    }

    /// Days since Monday.
    pub fn days_from_monday(self) -> (r: u32)
        ensures
            r == self.number(),
    {
        match self {
            Weekday::Mon => 0,
            Weekday::Tue => 1,
            Weekday::Wed => 2,
            Weekday::Thu => 3,
            Weekday::Fri => 4,
            Weekday::Sat => 5,
            Weekday::Sun => 6,
        }
    }
}

/// A wall-clock reading.
#[derive(Clone, Copy, Debug, PartialEq, Eq, Structural)]
pub struct Clock {
    pub year: i32,
    pub month: u32,
    pub day: u32,
    pub hour: u32,
    pub minute: u32,
    /// Days since Monday.
    pub weekday: u32,
}

impl Clock {
    /// Whether the fields are within their bounds.
    pub open spec fn well_formed(self) -> bool {
        1 <= self.month <= 12 && 1 <= self.day <= 31 && self.hour < 24 && self.minute < 60
            && self.weekday < 7
    }
}

/// The reading with the given fields.
pub open spec fn clock_of(f: (i32, u32, u32, u32, u32, u32)) -> Clock {
    Clock { year: f.0, month: f.1, day: f.2, hour: f.3, minute: f.4, weekday: f.5 }
}

/// What the clock shows in UTC.
pub fn utc_clock(ts: i64) -> (r: Option<Clock>)
    ensures
        r is Some == valid_instant(ts),
        r is Some ==> r->0 == clock_of(utc_fields(ts)) && r->0.well_formed(),
        r is Some ==> reads(utc_fields(ts), ts as int),
{
    match fields_utc(ts) {
        Some(f) => Some(
            Clock { year: f.0, month: f.1, day: f.2, hour: f.3, minute: f.4, weekday: f.5 },
        ),
        None => None,
    }
}

/// What the clock shows in Puerto Rico.
pub fn ast_clock(ts: i64) -> (r: Option<Clock>)
    ensures
        r is Some == valid_instant(ts),
        r is Some ==> r->0 == clock_of(ast_fields(ts)) && r->0.well_formed(),
        r is Some && ts >= SETTLED_OFFSET ==> reads(ast_fields(ts), ts - 14_400),
{
    match fields_ast(ts) {
        Some(f) => Some(
            Clock { year: f.0, month: f.1, day: f.2, hour: f.3, minute: f.4, weekday: f.5 },
        ),
        None => None,
    }
}

/// The number of days in a month.
pub fn days_in_month(year: i32, month: u32) -> (r: u32)
    requires
        month < u32::MAX,
        !(month == 12 && year == i32::MAX),
    ensures
        r == month_length(year as int, month as int),
{
    if year < -262143 || year > 262142 {
        return 31;
    }
    // Shifted by a multiple of 400 years, so that the remainders are of a positive number.
    let y: u32 = (year + 262400) as u32;
    if month == 2 {
        if y % 4 == 0 && (y % 100 != 0 || y % 400 == 0) {
            29
        } else {
            28
        }
    } else if month == 4 || month == 6 || month == 9 || month == 11 {
        30
    } else {
        31
    }
}

/// Text padded on the left with zeros to a width.
pub open spec fn zero_padded(s: Seq<char>, width: nat) -> Seq<char>
    decreases width - s.len(),
{
    if s.len() >= width {
        s
    } else {
        zero_padded(seq!['0'] + s, width)
    }
}

/// A year padded with zeros to a width of four, a minus sign counting as one.
pub open spec fn year_text(y: int) -> Seq<char> {
    if y >= 0 {
        zero_padded(dec(y as nat), 4)
    } else {
        seq!['-'] + zero_padded(dec((-y) as nat), 3)
    }
}

fn pad_zeros(s: String, width: usize) -> (r: String)
    requires
        width <= 4,
    ensures
        r@ == zero_padded(s@, width as nat),
{
    let mut out: String = s;
    let mut n: usize = out.as_str().unicode_len();
    while n < width
        invariant
            n == out@.len(),
            width <= 4,
            zero_padded(out@, width as nat) == zero_padded(s@, width as nat),
        decreases width - n,
    {
        let mut next: String = String::new();
        next.push('0');
        next.append(out.as_str());
        assert(next@ =~= seq!['0'] + out@);
        out = next;
        n = n + 1;
    }
    out
}

/// A year padded with zeros to a width of four.
pub fn year_string(y: i32) -> (r: String)
    ensures
        r@ == year_text(y as int),
{
    let digits: String = dec_string(magnitude(y as i64));
    if y >= 0 {
        pad_zeros(digits, 4)
    } else {
        let mut out: String = String::new();
        out.push('-');
        out.append(pad_zeros(digits, 3).as_str());
        assert(out@ =~= year_text(y as int));
        out
    }
}

/// Decimal notation begins and ends with a digit, padded with zeros or not.
proof fn lemma_padded_ends(s: Seq<char>, width: nat)
    requires
        s.len() > 0,
        is_digit(s[0]),
        is_digit(s.last()),
    ensures
        zero_padded(s, width).len() > 0,
        is_digit(zero_padded(s, width)[0]),
        is_digit(zero_padded(s, width).last()),
    decreases width - s.len(),
{
    if s.len() < width {
        assert((seq!['0'] + s).last() == s.last());
        lemma_padded_ends(seq!['0'] + s, width);
    }
}

/// Trimming leaves an ISO date as it is.
proof fn lemma_iso_trimmed(year: int, month: nat, day: nat)
    ensures
        trimmed(iso_text(year, month, day)) == iso_text(year, month, day),
{
    let y = shown_year(year);
    lemma_dec_value(year as nat);
    lemma_dec_value((-year) as nat);
    lemma_dec_value(day);
    if year < 0 {
        lemma_padded_ends(dec((-year) as nat), 4);
    } else if year <= 9999 {
        lemma_padded_ends(dec(year as nat), 4);
    }
    assert(y.len() > 0 && !is_white(y[0]));
    assert(dec2(day).len() > 0 && is_digit(dec2(day).last()));
    lemma_trimmed_fixed(iso_text(year, month, day));
}

/// Reading the ISO date of an instant gives the midnight UTC that its day begins with: for
/// date-level instants, the instant itself.
pub proof fn law_iso_date_reads_back(ts: i64, shown: Seq<char>, parsed: Option<i64>)
    requires
        valid_instant(ts),
        is_shown(ts, "%Y-%m-%d"@, shown),
        is_parsed(shown, parsed),
    ensures
        parsed is Some,
        parsed->0 == ts - ts % 86_400,
        ts % 86_400 == 0 ==> parsed == Some(ts),
{
    let f = utc_fields(ts);
    lemma_iso_trimmed(f.0 as int, f.1 as nat, f.2 as nat);
    assert(shown == iso_text(f.0 as int, f.1 as nat, f.2 as nat));
}

/// The month before a month.
pub open spec fn month_before(year: int, month: int) -> (int, int) {
    if month == 1 {
        (year - 1, 12)
    } else {
        (year, month - 1)
    }
}

/// A month begins as many days after the one before it as that one is long.
pub proof fn lemma_month_start(year: int, month: int)
    requires
        -262143 <= year <= 262142,
        month == 1 ==> year > -262143,
        1 <= month <= 12,
    ensures
        ({
            let (y, m) = month_before(year, month);
            day_number(year, month, 1) == day_number(y, m, 1) + month_length(y, m)
        }),
{
    if month == 1 {
        let p = year - 1;
        assert(p / 4 - (p - 1) / 4 == if p % 4 == 0 {
            1int
        } else {
            0int
        });
        assert(p / 100 - (p - 1) / 100 == if p % 100 == 0 {
            1int
        } else {
            0int
        });
        assert(p / 400 - (p - 1) / 400 == if p % 400 == 0 {
            1int
        } else {
            0int
        });
    }
}

/// A later month begins once the earlier one has ended.
proof fn lemma_months_grow(year: int, month: int, later_year: int, later: int)
    requires
        -262143 <= year,
        later_year <= 262142,
        1 <= month <= 12,
        1 <= later <= 12,
        12 * year + month < 12 * later_year + later,
    ensures
        day_number(year, month, 1) + month_length(year, month) <= day_number(later_year, later, 1),
    decreases 12 * later_year + later - 12 * year - month,
{
    lemma_month_start(later_year, later);
    let (y, m) = month_before(later_year, later);
    if 12 * year + month < 12 * y + m {
        lemma_months_grow(year, month, y, m);
    }
}

/// Two days with the same number are the same day.
proof fn lemma_day_unique(a: (i32, u32, u32), b: (i32, u32, u32))
    requires
        is_day(a.0 as int, a.1 as int, a.2 as int),
        is_day(b.0 as int, b.1 as int, b.2 as int),
        day_number(a.0 as int, a.1 as int, a.2 as int) == day_number(
            b.0 as int,
            b.1 as int,
            b.2 as int,
        ),
    ensures
        a == b,
{
    let (m, n) = (12 * a.0 + a.1, 12 * b.0 + b.1);
    if m < n {
        lemma_months_grow(a.0 as int, a.1 as int, b.0 as int, b.1 as int);
    } else if n < m {
        lemma_months_grow(b.0 as int, b.1 as int, a.0 as int, a.1 as int);
    }
}

/// Every second of a day of the calendar is an instant of the calendar.
proof fn lemma_day_is_valid(year: int, month: int, day: int)
    requires
        is_day(year, month, day),
    ensures
        MIN_INSTANT <= 86_400 * day_number(year, month, day) <= MAX_INSTANT - 86_399,
{
    if year > -262143 || month > 1 {
        lemma_months_grow(-262143, 1, year, month);
    }
    if year < 262142 || month < 12 {
        lemma_months_grow(year, month, 262142, 12);
    }
}

/// The start of a month is an instant of the calendar.
proof fn lemma_starts_are_valid(ts: i64)
    ensures
        forall|year: i32, month: u32| #[trigger]
            utc_midnight(year, month, 1) == Some(ts) ==> valid_instant(ts),
{
    assert forall|year: i32, month: u32| #[trigger]
        utc_midnight(year, month, 1) == Some(ts) implies valid_instant(ts) by {
        lemma_day_is_valid(year as int, month as int, 1);
    }
}

/// Where moving on by calendar months leads.
proof fn lemma_months_later(ts: i64, months: u32)
    requires
        valid_instant(ts),
        reads(utc_fields(ts), ts as int),
    ensures
        plus_months(ts, months) is Some ==> valid_instant(plus_months(ts, months)->0),
        plus_months(ts, months) is Some && months > 0 ==> plus_months(ts, months)->0 > ts,
        forall|year: i32, month: u32| #[trigger]
            utc_midnight(year, month, 1) == Some(ts) ==> plus_months(ts, months) == utc_midnight(
                later_month(year, month, months).0,
                later_month(year, month, months).1,
                1,
            ),
{
    let f = utc_fields(ts);
    let (year, month) = (f.0 + (f.1 - 1 + months) / 12, (f.1 - 1 + months) % 12 + 1);
    let day: int = if f.2 <= month_length(year, month) {
        f.2 as int
    } else {
        month_length(year, month) as int
    };
    if is_day(year, month, day) {
        lemma_day_is_valid(year, month, day);
        if months > 0 {
            lemma_months_grow(f.0 as int, f.1 as int, year, month);
        }
    }
    assert forall|y: i32, m: u32| #[trigger]
        utc_midnight(y, m, 1) == Some(ts) implies plus_months(ts, months) == utc_midnight(
        later_month(y, m, months).0,
        later_month(y, m, months).1,
        1,
    ) by {
        lemma_day_is_valid(y as int, m as int, 1);
        lemma_day_unique((f.0, f.1, f.2), (y, m, 1));
    }
}

/// The day before a day has the number before its number.
pub proof fn lemma_day_before(year: i32, month: u32, day: u32)
    ensures
        match day_before(year, month, day) {
            Some(b) => is_day(b.0 as int, b.1 as int, b.2 as int) && day_number(
                b.0 as int,
                b.1 as int,
                b.2 as int,
            ) == day_number(year as int, month as int, day as int) - 1,
            None => true,
        },
{
    if day_before(year, month, day) is Some && day == 1 {
        lemma_month_start(year as int, month as int);
    }
}

/// A year begins 365 days after the one before it, or 366 where that is a leap year.
pub proof fn lemma_year_start(year: int)
    requires
        -262142 <= year <= 262142,
    ensures
        day_number(year, 1, 1) == day_number(year - 1, 1, 1) + if is_leap(year - 1) {
            366int
        } else {
            365int
        },
{
    lemma_month_start(year, 1);
}

/// A day lies in its month and in its year.
pub proof fn lemma_day_in_year(year: int, month: int, day: int)
    requires
        is_day(year, month, day),
    ensures
        day_number(year, month, 1) <= day_number(year, month, day) < day_number(year, month, 1)
            + month_length(year, month),
        day_number(year, 1, 1) <= day_number(year, month, day) < day_number(year, 1, 1)
            + if is_leap(year) {
            366int
        } else {
            365int
        },
{
}

/// A day on or after the first of 1970 is of 1970 or later; one before the year 10000 is
/// of an earlier year.
pub proof fn lemma_year_of(year: int, month: int, day: int)
    requires
        is_day(year, month, day),
    ensures
        day_number(year, month, day) >= -1 ==> year >= 1969,
        day_number(year, month, day) < 2_932_897 ==> year <= 9999,
{
    let p = year - 1;
    assert(before_month(year, month) + day <= 366);
    assert(4 * (p / 4) <= p < 4 * (p / 4) + 4);
    assert(100 * (p / 100) <= p < 100 * (p / 100) + 100);
    assert(400 * (p / 400) <= p < 400 * (p / 400) + 400);
}

} // verus!
