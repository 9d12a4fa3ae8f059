//! Calendar date and time of day at second precision, and its fixed text form
//! `YYYY-MM-DD HH:MM:SS`.

use chrono::{Datelike, Timelike};
use vstd::prelude::*;

verus! {

/// The pattern of the text form, in the notation of the `chrono` crate.
pub const DATE_TIME_FORMAT: &'static str = "%Y-%m-%d %H:%M:%S";

/// The pattern of the heading of a day in a listing: weekday, month by name,
/// day of the month, year.
pub const DAY_FORMAT: &'static str = "%A, %B %e, %Y";

/// The pattern of a time of day in a listing.
pub const TIME_FORMAT: &'static str = "%H:%M:%S";

/// The fields of a date and time as plain numbers. Any combination of numbers
/// can be held; [`representable`] says which ones a [`Timestamp`] accepts.
#[derive(Clone, Copy, Debug, PartialEq, Eq, Structural)]
pub struct DateTimeFields {
    pub year: i32,
    pub month: u32,
    pub day: u32,
    pub hour: u32,
    pub minute: u32,
    pub second: u32,
    pub nanosecond: u32,
}

/// Leap years of the proleptic Gregorian calendar.
pub open spec fn is_leap_year(year: int) -> bool {
    year % 4 == 0 && (year % 100 != 0 || year % 400 == 0)
}

/// The number of days of a month, `0` for a month outside `1..=12`.
pub open spec fn days_in_month(year: int, month: int) -> int {
    if month == 2 {
        if is_leap_year(year) {
            29
        } else {
            28
        }
    } else if month == 4 || month == 6 || month == 9 || month == 11 {
        30
    } else if 1 <= month <= 12 {
        31
    } else {
        0
    }
}

/// The fields name a day of the calendar in the years `0..=9999` and a whole
/// second of that day: what the text form can hold.
pub open spec fn representable(f: DateTimeFields) -> bool {
    &&& 0 <= f.year <= 9999
    &&& 1 <= f.month <= 12
    &&& 1 <= f.day <= days_in_month(f.year as int, f.month as int)
    &&& f.hour < 24
    &&& f.minute < 60
    &&& f.second < 60
    &&& f.nanosecond == 0
}

/// The decimal digit for a number in `0..=9`.
pub open spec fn digit_char(d: int) -> char {
    if d == 0 {
        '0'
    } else if d == 1 {
        '1'
    } else if d == 2 {
        '2'
    } else if d == 3 {
        '3'
    } else if d == 4 {
        '4'
    } else if d == 5 {
        '5'
    } else if d == 6 {
        '6'
    } else if d == 7 {
        '7'
    } else if d == 8 {
        '8'
    } else {
        '9'
    }
}

/// A number in `0..=99` as two digits, zero-padded.
pub open spec fn two_digits(n: int) -> Seq<char> {
    seq![digit_char(n / 10), digit_char(n % 10)]
}

/// The text form of representable fields: `YYYY-MM-DD HH:MM:SS`, every field
/// zero-padded to its width.
pub open spec fn date_time_text(f: DateTimeFields) -> Seq<char> {
    two_digits(f.year as int / 100) + two_digits(f.year as int % 100) + seq!['-'] + two_digits(f.month as int)
        + seq!['-'] + two_digits(f.day as int) + seq![' '] + two_digits(f.hour as int) + seq![':']
        + two_digits(f.minute as int) + seq![':'] + two_digits(f.second as int)
}

/// The time of day of the text form: `HH:MM:SS`.
pub open spec fn time_text(f: DateTimeFields) -> Seq<char> {
    two_digits(f.hour as int) + seq![':'] + two_digits(f.minute as int) + seq![':'] + two_digits(
        f.second as int,
    )
}

/// What `chrono::NaiveDateTime::format` writes for a date and time under a
/// pattern.
pub uninterp spec fn formatted_date_time(f: DateTimeFields, pattern: Seq<char>) -> Seq<char>;

/// The patterns that this library formats with.
pub open spec fn known_pattern(pattern: Seq<char>) -> bool {
    pattern == DATE_TIME_FORMAT@ || pattern == DAY_FORMAT@ || pattern == TIME_FORMAT@
}

/// The heading of the day of a date and time, as `chrono` writes it under
/// [`DAY_FORMAT`].
pub open spec fn day_heading(f: DateTimeFields) -> Seq<char> {
    formatted_date_time(f, DAY_FORMAT@)
}

/// What `chrono::NaiveDateTime::parse_from_str` makes of a text under a
/// pattern: the fields of the date and time it returns, `None` where it
/// returns an error.
pub uninterp spec fn parsed_date_time(text: Seq<char>, pattern: Seq<char>) -> Option<DateTimeFields>;

/// The date and time that a text stands for: what `chrono` reads from it under
/// [`DATE_TIME_FORMAT`], where that is representable.
pub open spec fn timestamp_of_text(text: Seq<char>) -> Option<DateTimeFields> {
    match parsed_date_time(text, DATE_TIME_FORMAT@) {
        Some(f) => if representable(f) {
            Some(f)
        } else {
            None
        },
        None => None,
    }
}

/// The fields without their sub-second part.
pub open spec fn whole_second(f: DateTimeFields) -> DateTimeFields {
    DateTimeFields { nanosecond: 0, ..f }
}

/// Calls `chrono::NaiveDateTime::parse_from_str` and hands back the fields of
/// the value it returns. Trusted: the result is named, not described.
#[verifier::external_body]
fn chrono_parse(text: &str, pattern: &str) -> (r: Option<DateTimeFields>)
    ensures
        r == parsed_date_time(text@, pattern@),
{
    match chrono::NaiveDateTime::parse_from_str(text, pattern) {
        Ok(t) => Some(
            DateTimeFields {
                year: t.year(),
                month: t.month(),
                day: t.day(),
                hour: t.hour(),
                minute: t.minute(),
                second: t.second(),
                nanosecond: t.nanosecond(),
            },
        ),
        Err(_) => None,
    }
}

/// Builds the `chrono::NaiveDateTime` with the given fields and calls its
/// `format` with the pattern. Trusted. The result is named. Of two patterns
/// more is claimed, as `chrono` documents its specifiers: for a year in
/// `0..=9999`, [`DATE_TIME_FORMAT`] and [`TIME_FORMAT`] write every field
/// zero-padded to its width, which is [`date_time_text`] and [`time_text`].
/// And what [`DATE_TIME_FORMAT`] writes, `chrono` reads back under the same
/// pattern as the date and time it was written from.
#[verifier::external_body]
fn chrono_format(f: &DateTimeFields, pattern: &str) -> (r: String)
    requires
        representable(*f),
        known_pattern(pattern@),
    ensures
        r@ == formatted_date_time(*f, pattern@),
        pattern@ == DATE_TIME_FORMAT@ ==> r@ == date_time_text(*f) && parsed_date_time(
            r@,
            pattern@,
        ) == Some(*f),
        pattern@ == TIME_FORMAT@ ==> r@ == time_text(*f),
{
    let date = chrono::NaiveDate::from_ymd_opt(f.year, f.month, f.day).unwrap();
    let t = date.and_hms_opt(f.hour, f.minute, f.second).unwrap();
    t.format(pattern).to_string()
}

/// Reads the local clock with `chrono::Local::now` and hands back the fields
/// of its `naive_local`. Nothing is claimed of the result.
#[verifier::external_body]
pub(crate) fn chrono_now() -> (r: DateTimeFields) {
    let t = chrono::Local::now().naive_local();
    DateTimeFields {
        year: t.year(),
        month: t.month(),
        day: t.day(),
        hour: t.hour(),
        minute: t.minute(),
        second: t.second(),
        nanosecond: t.nanosecond(),
    }
}

/// A date and time of day at second precision. Every value is
/// [`representable`].
#[derive(Clone, Copy, Debug)]
pub struct Timestamp {
    fields: DateTimeFields,
}

impl View for Timestamp {
    type V = DateTimeFields;

    closed spec fn view(&self) -> DateTimeFields {
        self.fields
    }
}

/// Whether a year is a leap year.
pub fn leap_year(year: i32) -> (r: bool)
    ensures
        r == is_leap_year(year as int),
{
    year % 4 == 0 && (year % 100 != 0 || year % 400 == 0)
}

/// The length of a month in days, `0` for a month outside `1..=12`.
pub fn month_length(year: i32, month: u32) -> (r: u32)
    ensures
        r == days_in_month(year as int, month as int),
{
    if month == 2 {
        if leap_year(year) {
            29
        } else {
            28
        }
    } else if month == 4 || month == 6 || month == 9 || month == 11 {
        30
    } else if 1 <= month && month <= 12 {
        31
    } else {
        0
    }
}

/// Whether the fields can be held by a [`Timestamp`].
pub fn is_representable(f: &DateTimeFields) -> (r: bool)
    ensures
        r == representable(*f),
{
    0 <= f.year && f.year <= 9999 && 1 <= f.month && f.month <= 12 && 1 <= f.day && f.day
        <= month_length(f.year, f.month) && f.hour < 24 && f.minute < 60 && f.second < 60
        && f.nanosecond == 0
}

impl Timestamp {
    #[verifier::type_invariant]
    spec fn well_formed(self) -> bool {
        representable(self.fields)
    }

    /// The timestamp with the given fields, if there is one.
    pub fn from_fields(f: DateTimeFields) -> (r: Option<Timestamp>)
        ensures
            representable(f) ==> (r matches Some(t) && t@ == f),
            !representable(f) ==> r is None,
    {
        if is_representable(&f) {
            Some(Timestamp { fields: f })
        } else {
            None
        }
    }

    /// The timestamp of a calendar day and a time of day, if they exist.
    pub fn from_ymd_hms(year: i32, month: u32, day: u32, hour: u32, minute: u32, second: u32) -> (r:
        Option<Timestamp>)
        ensures
            r matches Some(t) ==> t@ == (DateTimeFields {
                year,
                month,
                day,
                hour,
                minute,
                second,
                nanosecond: 0,
            }),
            r is Some <==> representable(
                DateTimeFields { year, month, day, hour, minute, second, nanosecond: 0 },
            ),
    {
        Timestamp::from_fields(
            DateTimeFields { year, month, day, hour, minute, second, nanosecond: 0 },
        )
    }

    /// The fields of this timestamp. They are always representable.
    pub fn fields(&self) -> (r: DateTimeFields)
        ensures
            r == self@,
            representable(r),
    {
        proof {
            use_type_invariant(self);
        }
        self.fields
    }

    /// Whether both timestamps fall on the same calendar day.
    pub fn same_date(&self, other: &Timestamp) -> (r: bool)
        ensures
            r == (self@.year == other@.year && self@.month == other@.month && self@.day
                == other@.day),
    {
        self.fields.year == other.fields.year && self.fields.month == other.fields.month
            && self.fields.day == other.fields.day
    }

    /// The text form, `YYYY-MM-DD HH:MM:SS`. Reading it back gives this
    /// timestamp.
    pub fn to_text(&self) -> (r: String)
        ensures
            r@ == date_time_text(self@),
            timestamp_of_text(r@) == Some(self@),
            representable(self@),
    {
        proof {
            use_type_invariant(self);
        }
        chrono_format(&self.fields, DATE_TIME_FORMAT)
    }

    /// The time of day, `HH:MM:SS`.
    pub fn to_time_text(&self) -> (r: String)
        ensures
            r@ == time_text(self@),
    {
        proof {
            use_type_invariant(self);
        }
        chrono_format(&self.fields, TIME_FORMAT)
    }

    /// The heading of this day in a listing, such as
    /// `Monday, January  1, 2001`.
    pub fn to_day_heading(&self) -> (r: String)
        ensures
            r@ == day_heading(self@),
    {
        proof {
            use_type_invariant(self);
        }
        chrono_format(&self.fields, DAY_FORMAT)
    }

    /// Reads a timestamp from its text form. `None` where `chrono` rejects the
    /// text, and where it reads a year outside `0..=9999` or a leap second.
    pub fn parse(text: &str) -> (r: Option<Timestamp>)
        ensures
            match timestamp_of_text(text@) {
                Some(f) => r matches Some(t) && t@ == f,
                None => r is None,
            },
    {
        match chrono_parse(text, DATE_TIME_FORMAT) {
            Some(f) => Timestamp::from_fields(f),
            None => None,
        }
    }

    /// The timestamp that a reading of the clock stands for: the reading cut
    /// down to the whole second, if that is representable.
    pub fn at(reading: DateTimeFields) -> (r: Option<Timestamp>)
        ensures
            match r {
                Some(t) => t@ == whole_second(reading) && representable(t@),
                None => !representable(whole_second(reading)),
            },
    {
        Timestamp::from_fields(DateTimeFields { nanosecond: 0, ..reading })
    }

    /// The current local time, cut down to the whole second. `None` where the
    /// clock shows a year outside `0..=9999`.
    pub fn now() -> (r: Option<Timestamp>)
        ensures
            r matches Some(t) ==> representable(t@),
    {
        Timestamp::at(chrono_now())
    }
}

} // verus!
