//! Calendar dates and timestamps, and the parsing of date text.
//!
//! Text is parsed by `chrono`; what comes back is checked against the
//! Gregorian calendar here, so that every `Timestamp` handed out is well
//! formed whatever the parser returned.

use crate::text::{chars_of, digit, digits, lemma_split_nonempty, split, split_on, text_of};
use chrono::{Datelike, NaiveDate, NaiveDateTime, NaiveTime, Timelike};
use vstd::prelude::*;

verus! {

/// A day of the proleptic Gregorian calendar.
#[derive(Clone, Copy, Debug, PartialEq, Eq, Structural)]
pub struct CalendarDate {
    pub year: i32,
    pub month: u32,
    pub day: u32,
}

/// A calendar day with a time of day, to the second.
#[derive(Clone, Copy, Debug, PartialEq, Eq, Structural)]
pub struct Timestamp {
    pub date: CalendarDate,
    pub hour: u32,
    pub minute: u32,
    pub second: u32,
}

/// Date text that could not be read: too few segments, a wrong separator, or
/// a number out of range.
#[derive(Clone, Copy, Debug, PartialEq, Eq, Structural)]
pub struct MalformedDate {}

/// The shape of the text handed to [`parse`].
#[derive(Clone, Copy, Debug, PartialEq, Eq, Structural)]
pub enum DateFormat {
    /// `DD/MM/YYYY`, read as midnight of that day.
    DateOnly,
    /// `DD/MM/YYYY HH:MM:SS`, 24-hour clock.
    Seconds24,
    /// `DD/MM/YYYY HH:MM`, 24-hour clock.
    Minutes24,
    /// `DD/MM/YYYY HH:MM AM|PM`, 12-hour clock.
    Period12,
    /// `YYYY-MM-DD HH:MM:SS`, 24-hour clock.
    IsoSeconds24,
}

/// The year has a 29th of February: it is a multiple of four, and of four
/// hundred if it is a multiple of a hundred.
pub open spec fn is_leap_year(year: int) -> bool {
    year % 4 == 0 && (year % 100 != 0 || year % 400 == 0)
}

/// The number of days of `month` in `year`; 31 for a month out of range.
pub open spec fn days_in_month(year: int, month: int) -> int {
    if month == 2 {
        if is_leap_year(year) {
            29
        } else {
            28
        }
    } else if month == 4 || month == 6 || month == 9 || month == 11 {
        30
    } else {
        31
    }
}

/// The text `" 00:00:00"`.
pub open spec fn midnight_suffix() -> Seq<char> {
    seq![' ', '0', '0', ':', '0', '0', ':', '0', '0']
}

impl CalendarDate {
    /// The date names a day that exists.
    pub open spec fn well_formed(&self) -> bool {
        &&& 1 <= self.month <= 12
        &&& 1 <= self.day <= days_in_month(self.year as int, self.month as int)
    }

    /// A number that grows with the date: later days have larger ordinals.
    pub open spec fn ordinal(&self) -> int {
        self.year * 372 + (self.month - 1) * 31 + (self.day - 1)
    }

    /// `self` is the same day as `other` or an earlier one.
    pub open spec fn not_after(&self, other: &CalendarDate) -> bool {
        self.ordinal() <= other.ordinal()
    }

    /// The day after `self`.
    pub open spec fn successor(&self) -> CalendarDate {
        if self.day < days_in_month(self.year as int, self.month as int) {
            CalendarDate { year: self.year, month: self.month, day: (self.day + 1) as u32 }
        } else if self.month < 12 {
            CalendarDate { year: self.year, month: (self.month + 1) as u32, day: 1 }
        } else {
            CalendarDate { year: (self.year + 1) as i32, month: 1, day: 1 }
        }
    }

    /// Whether the date names a day that exists.
    pub fn is_well_formed(&self) -> (r: bool)
        ensures
            r == self.well_formed(),
    {
        1 <= self.month && self.month <= 12 && 1 <= self.day && self.day <= month_length(
            self.year,
            self.month,
        )
    }

    /// Whether `self` is the same day as `other` or an earlier one.
    pub fn is_not_after(&self, other: &CalendarDate) -> (r: bool)
        requires
            self.well_formed(),
            other.well_formed(),
        ensures
            r == self.not_after(other),
    {
        if self.year != other.year {
            self.year < other.year
        } else if self.month != other.month {
            self.month < other.month
        } else {
            self.day <= other.day
        }
    }

    /// The day after `self`, or `None` when the year would leave `i32`.
    pub fn next_day(&self) -> (r: Option<CalendarDate>)
        requires
            self.well_formed(),
        ensures
            r == (if self.successor_fits() {
                Some(self.successor())
            } else {
                None
            }),
            r is Some ==> r->0.well_formed() && self.ordinal() < r->0.ordinal(),
    {
        if self.day < month_length(self.year, self.month) {
            Some(CalendarDate { year: self.year, month: self.month, day: self.day + 1 })
        } else if self.month < 12 {
            Some(CalendarDate { year: self.year, month: self.month + 1, day: 1 })
        } else if self.year < i32::MAX {
            Some(CalendarDate { year: self.year + 1, month: 1, day: 1 })
        } else {
            None
        }
    }

    /// The day after `self` has a year that fits in `i32`.
    pub open spec fn successor_fits(&self) -> bool {
        self.day < days_in_month(self.year as int, self.month as int) || self.month < 12
            || self.year < i32::MAX
    }
}

/// A month has from 28 to 31 days.
pub proof fn lemma_month_bounds(year: int, month: int)
    ensures
        28 <= days_in_month(year, month) <= 31,
{
}

/// Of two different days, the earlier has a successor, which is a day, is
/// later than the earlier and not later than the later.
pub proof fn lemma_successor_between(first: CalendarDate, last: CalendarDate)
    requires
        first.well_formed(),
        last.well_formed(),
        first.not_after(&last),
        first != last,
    ensures
        first.successor_fits(),
        first.successor().well_formed(),
        first.ordinal() < first.successor().ordinal() <= last.ordinal(),
{
    lemma_month_bounds(first.year as int, first.month as int);
    lemma_month_bounds(last.year as int, last.month as int);
    let length = days_in_month(first.year as int, first.month as int);
    assert(first.ordinal() != last.ordinal()) by {
        if first.year == last.year && first.month == last.month {
            assert(first.day != last.day);
        }
    }
    if first.day < length {
    } else if first.month < 12 {
        lemma_month_bounds(first.year as int, first.month as int + 1);
    } else {
        assert(first.year < last.year);
        lemma_month_bounds(first.year as int + 1, 1);
    }
}

/// Whether `year` has a 29th of February.
pub fn leap_year(year: i32) -> (r: bool)
    ensures
        r == is_leap_year(year as int),
{
    // 2_147_483_600 is a multiple of 400, so the shifted year is not
    // negative and leaves the same remainders.
    let shifted: i64 = year as i64 + 2_147_483_600 + 400;
    assert(shifted % 4 == (year as int) % 4);
    assert(shifted % 100 == (year as int) % 100);
    assert(shifted % 400 == (year as int) % 400);
    shifted % 4 == 0 && (shifted % 100 != 0 || shifted % 400 == 0)
}

/// The number of days of `month` in `year`; 31 for a month out of range.
pub fn month_length(year: i32, month: u32) -> (r: u32)
    ensures
        r == days_in_month(year as int, month as int),
{
    if month == 2 {
        if leap_year(year) {
            29
        } else {
            28
        }
    } else if month == 4 || month == 6 || month == 9 || month == 11 {
        30
    } else {
        31
    }
}

impl Timestamp {
    /// The timestamp names a second that exists.
    pub open spec fn well_formed(&self) -> bool {
        &&& self.date.well_formed()
        &&& self.hour < 24
        &&& self.minute < 60
        &&& self.second < 60
    }

    /// Seconds on a scale that grows with time.
    pub open spec fn instant(&self) -> int {
        self.date.ordinal() * 86400 + self.hour * 3600 + self.minute * 60 + self.second
    }

    /// `self` is at the same time as `other` or earlier.
    pub open spec fn not_after(&self, other: &Timestamp) -> bool {
        self.instant() <= other.instant()
    }

    /// The two timestamps fall on one calendar day, whatever the time.
    pub open spec fn same_day(&self, other: &Timestamp) -> bool {
        self.date == other.date
    }

    /// Whether the timestamp names a second that exists.
    pub fn is_well_formed(&self) -> (r: bool)
        ensures
            r == self.well_formed(),
    {
        self.date.is_well_formed() && self.hour < 24 && self.minute < 60 && self.second < 60
    }

    /// Whether the two timestamps fall on one calendar day.
    pub fn same_calendar_day(&self, other: &Timestamp) -> (r: bool)
        ensures
            r == self.same_day(other),
    {
        self.date.year == other.date.year && self.date.month == other.date.month && self.date.day
            == other.date.day
    }

    /// Whether `self` is at the same time as `other` or earlier.
    pub fn is_not_after(&self, other: &Timestamp) -> (r: bool)
        requires
            self.well_formed(),
            other.well_formed(),
        ensures
            r == self.not_after(other),
    {
        if self.date.year != other.date.year {
            self.date.year < other.date.year
        } else if self.date.month != other.date.month {
            self.date.month < other.date.month
        } else if self.date.day != other.date.day {
            self.date.day < other.date.day
        } else if self.hour != other.hour {
            self.hour < other.hour
        } else if self.minute != other.minute {
            self.minute < other.minute
        } else {
            self.second <= other.second
        }
    }
}

impl DateFormat {
    /// The parser pattern that the format stands for.
    pub open spec fn pattern_text(&self) -> Seq<char> {
        match self {
            DateFormat::DateOnly => "%d/%m/%Y %H:%M:%S"@,
            DateFormat::Seconds24 => "%d/%m/%Y %H:%M:%S"@,
            DateFormat::Minutes24 => "%d/%m/%Y %H:%M"@,
            DateFormat::Period12 => "%d/%m/%Y %I:%M %p"@,
            DateFormat::IsoSeconds24 => "%Y-%m-%d %H:%M:%S"@,
        }
    }

    /// The text that is handed to the parser for `text`: a date alone is
    /// completed with midnight.
    pub open spec fn prepared(&self, text: Seq<char>) -> Seq<char> {
        match self {
            DateFormat::DateOnly => text + midnight_suffix(),
            _ => text,
        }
    }

    /// The parser pattern that the format stands for.
    pub fn pattern(&self) -> (r: &'static str)
        ensures
            r@ == self.pattern_text(),
    {
        match self {
            DateFormat::DateOnly => "%d/%m/%Y %H:%M:%S",
            DateFormat::Seconds24 => "%d/%m/%Y %H:%M:%S",
            DateFormat::Minutes24 => "%d/%m/%Y %H:%M",
            DateFormat::Period12 => "%d/%m/%Y %I:%M %p",
            DateFormat::IsoSeconds24 => "%Y-%m-%d %H:%M:%S",
        }
    }
}

/// What `chrono::NaiveDateTime::parse_from_str` makes of `text` under
/// `pattern`: year, month, day, hour, minute and second where it accepts the
/// text, nothing where it rejects it.
pub uninterp spec fn parsed_fields(text: Seq<char>, pattern: Seq<char>) -> Option<
    (i32, u32, u32, u32, u32, u32),
>;

/// Parses `text` under `pattern` with `chrono`.
///
/// Assumed of `chrono::NaiveDateTime::parse_from_str`: its outcome depends on
/// the two texts alone. Nothing is assumed of the fields it reports.
#[verifier::external_body]
fn parse_with_pattern(text: &str, pattern: &str) -> (r: Option<(i32, u32, u32, u32, u32, u32)>)
    ensures
        r == parsed_fields(text@, pattern@),
{
    match NaiveDateTime::parse_from_str(text, pattern) {
        Ok(t) => Some((t.year(), t.month(), t.day(), t.hour(), t.minute(), t.second())),
        Err(_) => None,
    }
}

/// The fields name a second that exists.
pub open spec fn fields_valid(f: (i32, u32, u32, u32, u32, u32)) -> bool {
    &&& 1 <= f.1 <= 12
    &&& 1 <= f.2 <= days_in_month(f.0 as int, f.1 as int)
    &&& f.3 < 24
    &&& f.4 < 60
    &&& f.5 < 60
}

/// The timestamp that parsed fields stand for, if they stand for one.
pub open spec fn timestamp_of(fields: Option<(i32, u32, u32, u32, u32, u32)>) -> Result<
    Timestamp,
    MalformedDate,
> {
    match fields {
        Some(f) => if fields_valid(f) {
            Ok(
                Timestamp {
                    date: CalendarDate { year: f.0, month: f.1, day: f.2 },
                    hour: f.3,
                    minute: f.4,
                    second: f.5,
                },
            )
        } else {
            Err(MalformedDate {  })
        },
        None => Err(MalformedDate {  }),
    }
}

/// Turns parsed fields into a timestamp, rejecting fields that name no
/// existing second.
pub fn timestamp_from_fields(fields: Option<(i32, u32, u32, u32, u32, u32)>) -> (r: Result<
    Timestamp,
    MalformedDate,
>)
    ensures
        r == timestamp_of(fields),
        r is Ok ==> r->Ok_0.well_formed(),
{
    match fields {
        Some(f) => {
            if 1 <= f.1 && f.1 <= 12 && 1 <= f.2 && f.2 <= month_length(f.0, f.1) && f.3 < 24
                && f.4 < 60 && f.5 < 60 {
                Ok(
                    Timestamp {
                        date: CalendarDate { year: f.0, month: f.1, day: f.2 },
                        hour: f.3,
                        minute: f.4,
                        second: f.5,
                    },
                )
            } else {
                Err(MalformedDate {  })
            }
        },
        None => Err(MalformedDate {  }),
    }
}

/// What [`parse`] returns for `text` under `format`.
pub open spec fn parse_outcome(text: Seq<char>, format: DateFormat) -> Result<
    Timestamp,
    MalformedDate,
> {
    timestamp_of(parsed_fields(format.prepared(text), format.pattern_text()))
}

/// Appends the characters of `piece` to `out`.
pub fn append_chars(out: &mut Vec<char>, piece: &Vec<char>)
    ensures
        final(out)@ == old(out)@ + piece@,
{
    let mut i: usize = 0;
    while i < piece.len()
        invariant
            i <= piece.len(),
            out@ == old(out)@ + piece@.take(i as int),
        decreases piece.len() - i,
    {
        out.push(piece[i]);
        assert(piece@.take(i as int + 1) =~= piece@.take(i as int).push(piece@[i as int]));
        assert(out@ =~= old(out)@ + piece@.take(i as int + 1));
        i = i + 1;
    }
    assert(piece@.take(piece.len() as int) =~= piece@);
}

/// Appends `" 00:00:00"` to `out`.
fn append_midnight(out: &mut Vec<char>)
    ensures
        final(out)@ == old(out)@ + midnight_suffix(),
{
    out.push(' ');
    out.push('0');
    out.push('0');
    out.push(':');
    out.push('0');
    out.push('0');
    out.push(':');
    out.push('0');
    out.push('0');
    assert(out@ =~= old(out)@ + midnight_suffix());
}

/// Reads `text` as a date, or a date and a time, of the given format.
///
/// The text goes to the parser as it is, a date alone completed with
/// midnight; the result is a timestamp exactly when the parser accepts the
/// text and reports a second that exists.
pub fn parse(text: &str, format: DateFormat) -> (r: Result<Timestamp, MalformedDate>)
    ensures
        r == parse_outcome(text@, format),
        r is Ok ==> r->Ok_0.well_formed(),
{
    match format {
        DateFormat::DateOnly => {
            let mut chars = chars_of(text);
            append_midnight(&mut chars);
            let prepared = text_of(&chars);
            timestamp_from_fields(parse_with_pattern(prepared.as_str(), format.pattern()))
        },
        _ => timestamp_from_fields(parse_with_pattern(text, format.pattern())),
    }
}

/// A month-first date `M/D/Y` rewritten day first, `D/M/Y`. Segments after
/// the third are dropped; with fewer than three there is no date.
pub open spec fn day_first(date: Seq<char>) -> Option<Seq<char>> {
    let parts = split_on(date, '/');
    if parts.len() >= 3 {
        Some(parts[1] + seq!['/'] + parts[0] + seq!['/'] + parts[2])
    } else {
        None
    }
}

/// The day-first date of a month-first text `M/D/Y ...`: what stands before
/// the first blank, rewritten.
pub open spec fn month_first_day_text(text: Seq<char>) -> Option<Seq<char>> {
    day_first(split_on(text, ' ')[0])
}

/// The day-first `D/M/Y H:M` of a month-first text `M/D/Y H:M...`.
pub open spec fn month_first_minutes_text(text: Seq<char>) -> Option<Seq<char>> {
    let words = split_on(text, ' ');
    if words.len() < 2 {
        None
    } else {
        let clock = split_on(words[1], ':');
        match day_first(words[0]) {
            Some(date) => if clock.len() >= 2 {
                Some(date + seq![' '] + clock[0] + seq![':'] + clock[1])
            } else {
                None
            },
            None => None,
        }
    }
}

/// The day-first `D/M/Y H:M P` of a month-first text `M/D/Y H:M P`.
pub open spec fn month_first_period_text(text: Seq<char>) -> Option<Seq<char>> {
    let words = split_on(text, ' ');
    if words.len() < 3 {
        None
    } else {
        match month_first_minutes_text(text) {
            Some(minutes) => Some(minutes + seq![' '] + words[2]),
            None => None,
        }
    }
}

/// The day-first `D/M/Y` of a year-first text `Y-M-D`.
pub open spec fn year_first_day_text(text: Seq<char>) -> Option<Seq<char>> {
    let parts = split_on(text, '-');
    if parts.len() >= 3 {
        Some(parts[2] + seq!['/'] + parts[1] + seq!['/'] + parts[0])
    } else {
        None
    }
}

/// The view of an optional character vector.
pub open spec fn optional_text(v: Option<Vec<char>>) -> Option<Seq<char>> {
    match v {
        Some(chars) => Some(chars@),
        None => None,
    }
}

fn join_three(a: &Vec<char>, b: &Vec<char>, c: &Vec<char>, sep: char) -> (out: Vec<char>)
    ensures
        out@ == a@ + seq![sep] + b@ + seq![sep] + c@,
{
    let mut out: Vec<char> = Vec::new();
    append_chars(&mut out, a);
    out.push(sep);
    append_chars(&mut out, b);
    out.push(sep);
    append_chars(&mut out, c);
    assert(out@ =~= a@ + seq![sep] + b@ + seq![sep] + c@);
    out
}

/// Rewrites a month-first date day first.
pub fn day_first_chars(date: &Vec<char>) -> (r: Option<Vec<char>>)
    ensures
        optional_text(r) == day_first(date@),
{
    let parts = split(date, '/');
    if parts.len() >= 3 {
        Some(join_three(&parts[1], &parts[0], &parts[2], '/'))
    } else {
        None
    }
}

/// Rewrites a month-first `M/D/Y H:M...` as day-first `D/M/Y H:M`.
pub fn month_first_minutes_chars(text: &Vec<char>) -> (r: Option<Vec<char>>)
    ensures
        optional_text(r) == month_first_minutes_text(text@),
{
    let words = split(text, ' ');
    if words.len() < 2 {
        return None;
    }
    let clock = split(&words[1], ':');
    match day_first_chars(&words[0]) {
        Some(date) => {
            if clock.len() >= 2 {
                let mut out = date;
                out.push(' ');
                append_chars(&mut out, &clock[0]);
                out.push(':');
                append_chars(&mut out, &clock[1]);
                assert(out@ =~= date@ + seq![' '] + clock[0]@ + seq![':'] + clock[1]@);
                Some(out)
            } else {
                None
            }
        },
        None => None,
    }
}

/// Rewrites a month-first `M/D/Y H:M P` as day-first `D/M/Y H:M P`.
pub fn month_first_period_chars(text: &Vec<char>) -> (r: Option<Vec<char>>)
    ensures
        optional_text(r) == month_first_period_text(text@),
{
    let words = split(text, ' ');
    if words.len() < 3 {
        return None;
    }
    match month_first_minutes_chars(text) {
        Some(minutes) => {
            let mut out = minutes;
            out.push(' ');
            append_chars(&mut out, &words[2]);
            assert(out@ =~= minutes@ + seq![' '] + words[2]@);
            Some(out)
        },
        None => None,
    }
}

/// What [`roster_day`] returns for `text`.
pub open spec fn roster_day_outcome(text: Seq<char>) -> Result<Timestamp, MalformedDate> {
    match month_first_day_text(text) {
        Some(date) => parse_outcome(date, DateFormat::DateOnly),
        None => Err(MalformedDate {  }),
    }
}

/// What [`roster_instant`] returns for `text`.
pub open spec fn roster_instant_outcome(text: Seq<char>) -> Result<Timestamp, MalformedDate> {
    match month_first_period_text(text) {
        Some(t) => parse_outcome(t, DateFormat::Period12),
        None => Err(MalformedDate {  }),
    }
}

/// What [`billing_instant`] returns for `text`.
pub open spec fn billing_instant_outcome(text: Seq<char>) -> Result<Timestamp, MalformedDate> {
    match month_first_minutes_text(text) {
        Some(t) => parse_outcome(t, DateFormat::Minutes24),
        None => Err(MalformedDate {  }),
    }
}

/// What [`reporting_day`] returns for `text`.
pub open spec fn reporting_day_outcome(text: Seq<char>) -> Result<Timestamp, MalformedDate> {
    match year_first_day_text(text) {
        Some(date) => parse_outcome(date, DateFormat::DateOnly),
        None => Err(MalformedDate {  }),
    }
}

/// The calendar day of a roster cell `M/D/Y ...`, at midnight.
///
/// Only what stands before the first blank is read. The date is rewritten
/// day first and parsed; fewer than three `/`-separated segments, or a date
/// the parser rejects, give `MalformedDate`.
pub fn roster_day(text: &str) -> (r: Result<Timestamp, MalformedDate>)
    ensures
        r == roster_day_outcome(text@),
        r is Ok ==> r->Ok_0.well_formed(),
{
    let chars = chars_of(text);
    let words = split(&chars, ' ');
    proof {
        lemma_split_nonempty(chars@, ' ');
    }
    match day_first_chars(&words[0]) {
        Some(date) => {
            let date_text = text_of(&date);
            parse(date_text.as_str(), DateFormat::DateOnly)
        },
        None => Err(MalformedDate {  }),
    }
}

/// The start or end of a roster shift, from a cell `M/D/Y H:M AM|PM`.
///
/// The text is rewritten as `D/M/Y H:M P` and parsed on the 12-hour clock.
/// A missing date segment, clock segment or period, or a text the parser
/// rejects, give `MalformedDate`.
pub fn roster_instant(text: &str) -> (r: Result<Timestamp, MalformedDate>)
    ensures
        r == roster_instant_outcome(text@),
        r is Ok ==> r->Ok_0.well_formed(),
{
    let chars = chars_of(text);
    match month_first_period_chars(&chars) {
        Some(t) => {
            let rewritten = text_of(&t);
            parse(rewritten.as_str(), DateFormat::Period12)
        },
        None => Err(MalformedDate {  }),
    }
}

/// The start or end of a billed activity, from a cell `M/D/Y H:M`.
///
/// The text is rewritten as `D/M/Y H:M` and parsed on the 24-hour clock.
pub fn billing_instant(text: &str) -> (r: Result<Timestamp, MalformedDate>)
    ensures
        r == billing_instant_outcome(text@),
        r is Ok ==> r->Ok_0.well_formed(),
{
    let chars = chars_of(text);
    match month_first_minutes_chars(&chars) {
        Some(t) => {
            let rewritten = text_of(&t);
            parse(rewritten.as_str(), DateFormat::Minutes24)
        },
        None => Err(MalformedDate {  }),
    }
}

/// The reporting day named by `YYYY-MM-DD`, at midnight.
pub fn reporting_day(text: &str) -> (r: Result<Timestamp, MalformedDate>)
    ensures
        r == reporting_day_outcome(text@),
        r is Ok ==> r->Ok_0.well_formed(),
{
    let chars = chars_of(text);
    let parts = split(&chars, '-');
    if parts.len() >= 3 {
        let date = join_three(&parts[2], &parts[1], &parts[0], '/');
        let date_text = text_of(&date);
        parse(date_text.as_str(), DateFormat::DateOnly)
    } else {
        Err(MalformedDate {  })
    }
}

/// The first year that `chrono` has dates for.
pub const FIRST_YEAR: i32 = -262143;

/// The last year that `chrono` has dates for.
pub const LAST_YEAR: i32 = 262142;

/// A number below a hundred in two digits.
pub open spec fn two_digits(n: int) -> Seq<char> {
    seq![digit(n / 10), digit(n % 10)]
}

/// A number below ten thousand in four digits.
pub open spec fn four_digits(n: int) -> Seq<char> {
    seq![digit(n / 1000), digit(n / 100 % 10), digit(n / 10 % 10), digit(n % 10)]
}

/// A year as it is printed: in four digits from 0 to 9999, and else with its
/// sign and at least four digits.
pub open spec fn year_text(year: int) -> Seq<char> {
    if 0 <= year <= 9999 {
        four_digits(year)
    } else if year < 0 {
        seq!['-'] + (if -year <= 9999 {
            four_digits(-year)
        } else {
            digits((-year) as nat)
        })
    } else {
        seq!['+'] + digits(year as nat)
    }
}

/// The text of the day `year`-`month`-`day`: year, month and day with
/// hyphens between, month and day in two digits; nothing where there is no
/// such day between the first year and the last.
pub open spec fn date_text(year: int, month: int, day: int) -> Option<Seq<char>> {
    if FIRST_YEAR <= year <= LAST_YEAR && 1 <= month <= 12 && 1 <= day <= days_in_month(
        year,
        month,
    ) {
        Some(year_text(year) + seq!['-'] + two_digits(month) + seq!['-'] + two_digits(day))
    } else {
        None
    }
}

/// The text of the time `hour`:`minute`:`second`, each in two digits with
/// colons between; nothing where there is no such time of day.
pub open spec fn clock_text(hour: int, minute: int, second: int) -> Option<Seq<char>> {
    if 0 <= hour < 24 && 0 <= minute < 60 && 0 <= second < 60 {
        Some(two_digits(hour) + seq![':'] + two_digits(minute) + seq![':'] + two_digits(second))
    } else {
        None
    }
}

/// A day that exists in a year that `chrono` has dates for can be printed,
/// and a second that exists has a time of day that can be printed.
pub proof fn lemma_well_formed_can_be_printed(t: Timestamp)
    requires
        t.well_formed(),
        FIRST_YEAR <= t.date.year <= LAST_YEAR,
    ensures
        t.date.text() is Some,
        t.time_text() is Some,
        t.text() is Some,
{
}

/// The view of an optional string.
pub open spec fn optional_string(s: Option<String>) -> Option<Seq<char>> {
    match s {
        Some(text) => Some(text@),
        None => None,
    }
}

/// Prints a day as `chrono` prints it.
///
/// Assumed of `chrono::NaiveDate::from_ymd_opt`: it makes a date exactly of
/// the days of the proleptic Gregorian calendar in the years from -262143 to
/// 262142. Assumed of the `Display` of `chrono::NaiveDate`: it prints the
/// year, in four digits from 0 to 9999 and else with its sign and at least
/// four digits, then the month and the day in two digits each, with hyphens
/// between.
#[verifier::external_body]
fn print_date(year: i32, month: u32, day: u32) -> (r: Option<String>)
    ensures
        optional_string(r) == date_text(year as int, month as int, day as int),
{
    match NaiveDate::from_ymd_opt(year, month, day) {
        Some(date) => Some(date.to_string()),
        None => None,
    }
}

/// Prints a time of day as `chrono` prints it.
///
/// Assumed of `chrono::NaiveTime::from_hms_opt`: it makes a time exactly of
/// an hour below 24 and a minute and a second below 60. Assumed of the
/// `Display` of `chrono::NaiveTime`: it prints a time of whole seconds as
/// hour, minute and second in two digits each, with colons between.
#[verifier::external_body]
fn print_time(hour: u32, minute: u32, second: u32) -> (r: Option<String>)
    ensures
        optional_string(r) == clock_text(hour as int, minute as int, second as int),
{
    match NaiveTime::from_hms_opt(hour, minute, second) {
        Some(time) => Some(time.to_string()),
        None => None,
    }
}

impl CalendarDate {
    /// The text of the day, `YYYY-MM-DD` for the years from 0 to 9999.
    pub open spec fn text(&self) -> Option<Seq<char>> {
        date_text(self.year as int, self.month as int, self.day as int)
    }

    /// The text of the day, where the day can be printed.
    pub fn to_text(&self) -> (r: Option<String>)
        ensures
            optional_string(r) == self.text(),
    {
        print_date(self.year, self.month, self.day)
    }
}

impl Timestamp {
    /// The text of the time of day, `HH:MM:SS`.
    pub open spec fn time_text(&self) -> Option<Seq<char>> {
        clock_text(self.hour as int, self.minute as int, self.second as int)
    }

    /// The text of the timestamp: the day, a blank, the time of day.
    pub open spec fn text(&self) -> Option<Seq<char>> {
        match (self.date.text(), self.time_text()) {
            (Some(date), Some(time)) => Some(date + seq![' '] + time),
            _ => None,
        }
    }

    /// The text of the time of day, where it can be printed.
    pub fn time_to_text(&self) -> (r: Option<String>)
        ensures
            optional_string(r) == self.time_text(),
    {
        print_time(self.hour, self.minute, self.second)
    }

    /// The text of the timestamp, where it can be printed.
    pub fn to_text(&self) -> (r: Option<String>)
        ensures
            optional_string(r) == self.text(),
    {
        match (self.date.to_text(), self.time_to_text()) {
            (Some(date), Some(time)) => {
                let mut chars = chars_of(date.as_str());
                chars.push(' ');
                let clock = chars_of(time.as_str());
                append_chars(&mut chars, &clock);
                assert(chars@ =~= date@ + seq![' '] + time@);
                Some(text_of(&chars))
            },
            _ => None,
        }
    }
}

} // verus!
