//! Calendar dates and the date expressions of the command line.

use crate::error::Error;
use crate::text::{
    append_chars, chars_equal, chars_of, decimal, digit_char, is_white, is_white_char, lower,
    lower_chars, slice_chars, string_of,
};
use chrono::Datelike;
use vstd::prelude::*;

verus! {

/// A calendar date of the proleptic Gregorian calendar.
#[derive(Clone, Copy, Debug, PartialEq, Eq, Structural)]
pub struct Date {
    pub year: i32,
    pub month: u32,
    pub day: u32,
}

/// Whether `year` is a leap year.
pub open spec fn is_leap_year(year: int) -> bool {
    year % 4 == 0 && (year % 100 != 0 || year % 400 == 0)
}

/// The number of days of month `month` (1 to 12) of `year`.
pub open spec fn days_in_month(year: int, month: int) -> int {
    if month == 2 {
        if is_leap_year(year) {
            29int
        } else {
            28int
        }
    } else if month == 4 || month == 6 || month == 9 || month == 11 {
        30int
    } else {
        31int
    }
}

/// Whether the three numbers name a day of the calendar, in a year that a
/// date can hold.
pub open spec fn is_valid_ymd(year: int, month: int, day: int) -> bool {
    &&& -262143 <= year <= 262142
    &&& 1 <= month <= 12
    &&& 1 <= day <= days_in_month(year, month)
}

/// The English name of month `month` (1 to 12).
pub open spec fn month_name(month: int) -> Seq<char> {
    if month == 1 {
        "January"@
    } else if month == 2 {
        "February"@
    } else if month == 3 {
        "March"@
    } else if month == 4 {
        "April"@
    } else if month == 5 {
        "May"@
    } else if month == 6 {
        "June"@
    } else if month == 7 {
        "July"@
    } else if month == 8 {
        "August"@
    } else if month == 9 {
        "September"@
    } else if month == 10 {
        "October"@
    } else if month == 11 {
        "November"@
    } else {
        "December"@
    }
}

/// The four digits of a year from 0 to 9999, with leading zeros.
pub open spec fn four_digits(year: int) -> Seq<char> {
    seq![
        digit_char((year / 1000) as nat),
        digit_char((year / 100 % 10) as nat),
        digit_char((year / 10 % 10) as nat),
        digit_char((year % 10) as nat),
    ]
}

/// A date written out, as in `November 20, 2024`.
pub open spec fn long_date(year: int, month: int, day: int) -> Seq<char> {
    month_name(month) + " "@ + decimal(day as nat) + ", "@ + four_digits(year)
}

/// What `chrono` writes for the date of the three numbers with the format
/// `%B %-d, %Y`, and the empty text where they name no date.
pub uninterp spec fn chrono_long_date(year: int, month: int, day: int) -> Seq<char>;

/// Writes a date with `chrono::NaiveDate::format` and the format
/// `%B %-d, %Y`: the English name of the month, the day without padding, a
/// comma, and the year, which for the years 0 to 9999 has four digits.
/// Numbers that `chrono::NaiveDate::from_ymd_opt` takes for no date give the
/// empty text.
#[verifier::external_body]
fn chrono_format(year: i32, month: u32, day: u32) -> (r: String)
    ensures
        r@ == chrono_long_date(year as int, month as int, day as int),
        is_valid_ymd(year as int, month as int, day as int) && 0 <= year <= 9999 ==> r@
            == long_date(year as int, month as int, day as int),
{
    match chrono::NaiveDate::from_ymd_opt(year, month, day) {
        Some(date) => date.format("%B %-d, %Y").to_string(),
        None => String::new(),
    }
}

impl Date {
    /// Whether this is a day of the calendar.
    pub open spec fn is_valid(self) -> bool {
        is_valid_ymd(self.year as int, self.month as int, self.day as int)
    }

    /// The date of the three numbers, if they name a day of the calendar.
    pub fn from_ymd(year: i32, month: u32, day: u32) -> (r: Option<Date>)
        ensures
            is_valid_ymd(year as int, month as int, day as int) ==> r == Some(
                Date { year, month, day },
            ),
            !is_valid_ymd(year as int, month as int, day as int) ==> r is None,
    {
        if year < -262143 || year > 262142 || month < 1 || month > 12 || day < 1 {
            return None;
        }
        let leap = year % 4 == 0 && (year % 100 != 0 || year % 400 == 0);
        let days: u32 = if month == 2 {
            if leap {
                29
            } else {
                28
            }
        } else if month == 4 || month == 6 || month == 9 || month == 11 {
            30
        } else {
            31
        };
        if day > days {
            return None;
        }
        Some(Date { year, month, day })
    }
}

/// The text that [`format_date`] gives for a date.
pub open spec fn date_text(date: Date) -> Seq<char> {
    chrono_long_date(date.year as int, date.month as int, date.day as int)
}

/// Writes a date as in `November 20, 2024`: the English name of the month,
/// the day, a comma and the year.
pub fn format_date(date: &Date) -> (r: String)
    ensures
        r@ == date_text(*date),
        date.is_valid() && 0 <= date.year <= 9999 ==> r@ == long_date(
            date.year as int,
            date.month as int,
            date.day as int,
        ),
{
    chrono_format(date.year, date.month, date.day)
}

/// A day of the week.
#[derive(Clone, Copy, Debug, PartialEq, Eq, Structural)]
pub enum Weekday {
    Mon,
    Tue,
    Wed,
    Thu,
    Fri,
    Sat,
    Sun,
}

/// A date as the command line describes it.
#[derive(Clone, Copy, Debug, PartialEq, Eq, Structural)]
pub enum DateExpression {
    /// The day on which the expression is resolved.
    Today,
    /// A day of the calendar.
    Explicit(Date),
    /// The next day of the week `day`, the day of resolving included, and
    /// `offset` weeks after it.
    DayOfWeek { day: Weekday, offset: u32 },
    /// No date.
    NoDate,
}

/// What `chrono` reads from `text` as a date in the format `format`, where
/// it reads one.
pub uninterp spec fn chrono_parsed(text: Seq<char>, format: Seq<char>) -> Option<Date>;

/// The day of the week that `chrono` gives for a date; Monday where the
/// numbers of the date name no day.
pub uninterp spec fn chrono_weekday(date: Date) -> Weekday;

/// The date that `chrono` gives for `days` days after a date, where there is
/// one within the years that a date can hold.
pub uninterp spec fn chrono_plus_days(date: Date, days: u64) -> Option<Date>;

/// Reads a date with `chrono::NaiveDate::parse_from_str`, which reads the
/// fields that the format names and gives a date only where they name a day
/// of the calendar. The result depends on the text and the format alone.
#[verifier::external_body]
fn parse_with(text: &str, format: &str) -> (r: Option<Date>)
    ensures
        r == chrono_parsed(text@, format@),
        r matches Some(d) ==> d.is_valid(),
{
    match chrono::NaiveDate::parse_from_str(text, format) {
        Ok(d) => Some(Date { year: d.year(), month: d.month(), day: d.day() }),
        Err(_) => None,
    }
}

/// The day on which it is called, in local time, from `chrono::Local::now`.
/// It is a day of the calendar; nothing else is known of it.
#[verifier::external_body]
fn today() -> (r: Date)
    ensures
        r.is_valid(),
{
    let d = chrono::Local::now().date_naive();
    Date { year: d.year(), month: d.month(), day: d.day() }
}

/// The day of the week of a date, from `chrono::Datelike::weekday`.
#[verifier::external_body]
fn weekday_of(date: Date) -> (r: Weekday)
    ensures
        r == chrono_weekday(date),
{
    let day = match chrono::NaiveDate::from_ymd_opt(date.year, date.month, date.day) {
        Some(d) => d.weekday(),
        None => chrono::Weekday::Mon,
    };
    match day {
        chrono::Weekday::Mon => Weekday::Mon,
        chrono::Weekday::Tue => Weekday::Tue,
        chrono::Weekday::Wed => Weekday::Wed,
        chrono::Weekday::Thu => Weekday::Thu,
        chrono::Weekday::Fri => Weekday::Fri,
        chrono::Weekday::Sat => Weekday::Sat,
        chrono::Weekday::Sun => Weekday::Sun,
    }
}

/// The date `days` days after a date, from
/// `chrono::NaiveDate::checked_add_days`, which gives none where the result
/// would lie outside the years that a date can hold. Numbers that name no
/// day give none either.
#[verifier::external_body]
fn plus_days(date: Date, days: u64) -> (r: Option<Date>)
    ensures
        r == chrono_plus_days(date, days),
        r matches Some(d) ==> d.is_valid(),
{
    let start = chrono::NaiveDate::from_ymd_opt(date.year, date.month, date.day)?;
    let d = start.checked_add_days(chrono::Days::new(days))?;
    Some(Date { year: d.year(), month: d.month(), day: d.day() })
}

/// The number of a day of the week, counted from Monday as 0.
pub open spec fn days_from_monday(day: Weekday) -> int {
    match day {
        Weekday::Mon => 0,
        Weekday::Tue => 1,
        Weekday::Wed => 2,
        Weekday::Thu => 3,
        Weekday::Fri => 4,
        Weekday::Sat => 5,
        Weekday::Sun => 6,
    }
}

/// The number of days from a day of the week `from` to the next day of the
/// week `target`, which is none where the two are the same, and `offset`
/// weeks more.
pub open spec fn days_until(from: Weekday, target: Weekday, offset: u32) -> int {
    (days_from_monday(target) - days_from_monday(from) + 7) % 7 + 7 * offset
}

/// Executable form of [`days_from_monday`].
fn number_of_day(day: Weekday) -> (r: u64)
    ensures
        r == days_from_monday(day),
{
    match day {
        Weekday::Mon => 0,
        Weekday::Tue => 1,
        Weekday::Wed => 2,
        Weekday::Thu => 3,
        Weekday::Fri => 4,
        Weekday::Sat => 5,
        Weekday::Sun => 6,
    }
}

/// The number of days from a day of the week `from` to the `offset`-th week
/// after the next day of the week `target` (see [`days_until`]).
pub fn days_ahead(from: Weekday, target: Weekday, offset: u32) -> (r: u64)
    ensures
        r == days_until(from, target, offset),
{
    let a = number_of_day(from);
    let b = number_of_day(target);
    let first: u64 = if b >= a {
        b - a
    } else {
        7 - (a - b)
    };
    first + 7 * (offset as u64)
}

/// The day of the week `target` that comes next from `day` on, `day` itself
/// where it is one, and `offset` weeks after it; none where that day lies
/// outside the years that a date can hold.
pub open spec fn next_weekday_on(day: Date, target: Weekday, offset: u32) -> Option<Date> {
    chrono_plus_days(day, days_until(chrono_weekday(day), target, offset) as u64)
}

/// The day of the week `target` that comes next from `day` on, `day` itself
/// where it is one, and `offset` weeks after it; none where that day lies
/// outside the years that a date can hold.
pub fn next_weekday_from(day: Date, target: Weekday, offset: u32) -> (r: Option<Date>)
    ensures
        r == next_weekday_on(day, target, offset),
        r matches Some(d) ==> d.is_valid(),
{
    plus_days(day, days_ahead(weekday_of(day), target, offset))
}

/// The day of the week `target_day` that comes next from today on, today
/// itself where it is one, and `offset` weeks after it: what
/// [`next_weekday_from`] gives for the day on which this is called, which is
/// some day of the calendar.
pub fn find_next_weekday(target_day: Weekday, offset: u32) -> (r: Option<Date>)
    ensures
        exists|day: Date|
            day.is_valid() && r == #[trigger] next_weekday_on(day, target_day, offset),
        r matches Some(d) ==> d.is_valid(),
{
    let day = today();
    let r = next_weekday_from(day, target_day, offset);
    assert(day.is_valid() && r == next_weekday_on(day, target_day, offset));
    r
}

/// Resolves a date expression to a date: none for no date, the date itself
/// for an explicit one, the day on which this is called for today, and for a
/// day of the week what [`find_next_weekday`] gives, which is counted from
/// the day on which this is called.
pub fn resolve_date(expr: &DateExpression) -> (r: Option<Date>)
    ensures
        *expr is NoDate ==> r is None,
        *expr matches DateExpression::Explicit(d) ==> r == Some(d),
        *expr is Today ==> (r matches Some(d) && d.is_valid()),
        *expr matches DateExpression::DayOfWeek { day: target, offset } ==> (exists|day: Date|
            day.is_valid() && r == #[trigger] next_weekday_on(day, target, offset)) && (
        r matches Some(d) ==> d.is_valid()),
{
    match expr {
        DateExpression::NoDate => None,
        DateExpression::Today => Some(today()),
        DateExpression::Explicit(date) => Some(*date),
        DateExpression::DayOfWeek { day, offset } => find_next_weekday(*day, *offset),
    }
}

/// The index of the first character from `i` on that is no white space, or
/// the length of `s`.
pub open spec fn first_black(s: Seq<char>, i: int) -> int
    decreases s.len() - i,
{
    if i >= s.len() || i < 0 {
        s.len() as int
    } else if !is_white(s[i]) {
        i
    } else {
        first_black(s, i + 1)
    }
}

/// The index after the last character before `n` that is no white space, or
/// 0.
pub open spec fn black_end(s: Seq<char>, n: int) -> int
    decreases n,
{
    if n <= 0 || n > s.len() {
        0
    } else if !is_white(s[n - 1]) {
        n
    } else {
        black_end(s, n - 1)
    }
}

/// `s` without the white space at its start and at its end.
pub open spec fn trimmed(s: Seq<char>) -> Seq<char> {
    if first_black(s, 0) >= black_end(s, s.len() as int) {
        Seq::empty()
    } else {
        s.subrange(first_black(s, 0), black_end(s, s.len() as int))
    }
}

/// Executable form of [`trimmed`].
pub fn trim_chars(s: &Vec<char>) -> (r: Vec<char>)
    ensures
        r@ == trimmed(s@),
{
    let mut start: usize = 0;
    while start < s.len() && is_white_char(s[start])
        invariant
            start <= s.len(),
            first_black(s@, 0) == first_black(s@, start as int),
        decreases s.len() - start,
    {
        start += 1;
    }
    let mut end: usize = s.len();
    while end > 0 && is_white_char(s[end - 1])
        invariant
            end <= s.len(),
            black_end(s@, s@.len() as int) == black_end(s@, end as int),
        decreases end,
    {
        end -= 1;
    }
    if start >= end {
        Vec::new()
    } else {
        slice_chars(s, start, end)
    }
}

/// The day of the week that a text names by its English name or the first
/// three letters of it, in any letter case and with white space around it.
pub open spec fn weekday_named(s: Seq<char>) -> Option<Weekday> {
    let t = lower(trimmed(s));
    if t == "monday"@ || t == "mon"@ {
        Some(Weekday::Mon)
    } else if t == "tuesday"@ || t == "tue"@ {
        Some(Weekday::Tue)
    } else if t == "wednesday"@ || t == "wed"@ {
        Some(Weekday::Wed)
    } else if t == "thursday"@ || t == "thu"@ {
        Some(Weekday::Thu)
    } else if t == "friday"@ || t == "fri"@ {
        Some(Weekday::Fri)
    } else if t == "saturday"@ || t == "sat"@ {
        Some(Weekday::Sat)
    } else if t == "sunday"@ || t == "sun"@ {
        Some(Weekday::Sun)
    } else {
        None
    }
}

/// Whether the lower-case text `t` is one of the two given names.
fn is_either(t: &Vec<char>, long: &str, short: &str) -> (r: bool)
    ensures
        r == (t@ == long@ || t@ == short@),
{
    chars_equal(t, &chars_of(long)) || chars_equal(t, &chars_of(short))
}

/// Reads the name of a day of the week, given as characters (see
/// [`weekday_named`]); the error is the lower-case name that was not
/// understood.
fn weekday_of_chars(s: &Vec<char>) -> (r: Result<Weekday, Vec<char>>)
    ensures
        match weekday_named(s@) {
            Some(day) => r == Ok::<Weekday, Vec<char>>(day),
            None => r matches Err(t) && t@ == lower(trimmed(s@)),
        },
{
    let t = lower_chars(&trim_chars(s));
    if is_either(&t, "monday", "mon") {
        Ok(Weekday::Mon)
    } else if is_either(&t, "tuesday", "tue") {
        Ok(Weekday::Tue)
    } else if is_either(&t, "wednesday", "wed") {
        Ok(Weekday::Wed)
    } else if is_either(&t, "thursday", "thu") {
        Ok(Weekday::Thu)
    } else if is_either(&t, "friday", "fri") {
        Ok(Weekday::Fri)
    } else if is_either(&t, "saturday", "sat") {
        Ok(Weekday::Sat)
    } else if is_either(&t, "sunday", "sun") {
        Ok(Weekday::Sun)
    } else {
        Err(t)
    }
}

/// An error of a date expression with the message `prefix` and `detail`.
fn expression_error(prefix: &str, detail: &Vec<char>) -> (r: Error)
    ensures
        r matches Error::InvalidDateExpression(m) && m@ == prefix@ + detail@,
{
    let mut text = chars_of(prefix);
    append_chars(&mut text, detail);
    Error::InvalidDateExpression(string_of(&text))
}

/// Reads the name of a day of the week: its English name or the first three
/// letters of it, in any letter case.
pub fn parse_weekday(s: &str) -> (r: Result<Weekday, Error>)
    ensures
        match weekday_named(s@) {
            Some(day) => r == Ok::<Weekday, Error>(day),
            None => r matches Err(Error::InvalidDateExpression(m)) && m@ == "Unknown weekday: "@
                + lower(trimmed(s@)),
        },
{
    match weekday_of_chars(&chars_of(s)) {
        Ok(day) => Ok(day),
        Err(t) => Err(expression_error("Unknown weekday: ", &t)),
    }
}

/// Whether all characters of `s` are decimal digits.
pub open spec fn all_digit_chars(s: Seq<char>) -> bool {
    forall|i: int| 0 <= i < s.len() ==> '0' <= #[trigger] s[i] <= '9'
}

/// The number that decimal digits write.
pub open spec fn digit_chars_value(s: Seq<char>) -> int
    decreases s.len(),
{
    if s.len() == 0 {
        0
    } else {
        digit_chars_value(s.drop_last()) * 10 + (s.last() as int - 48)
    }
}

/// The number of weeks that a text writes: digits, with a `+` in front if
/// wanted and white space around them, whose value is a `u32`.
pub open spec fn offset_value(s: Seq<char>) -> Option<u32> {
    let t = trimmed(s);
    let body = if t.len() > 0 && t[0] == '+' {
        t.subrange(1, t.len() as int)
    } else {
        t
    };
    if body.len() > 0 && all_digit_chars(body) && digit_chars_value(body) <= u32::MAX {
        Some(digit_chars_value(body) as u32)
    } else {
        None
    }
}

/// Digits write at least what fewer of them write, and no negative number.
proof fn lemma_digit_chars_grow(s: Seq<char>, k: int)
    requires
        all_digit_chars(s),
        0 <= k <= s.len(),
    ensures
        0 <= digit_chars_value(s.take(k)) <= digit_chars_value(s),
    decreases s.len() - k,
{
    if k < s.len() {
        lemma_digit_chars_grow(s, k + 1);
        assert(s.take(k + 1).drop_last() =~= s.take(k));
        lemma_digit_chars_grow_base(s.take(k));
        assert('0' <= s[k] <= '9');
    } else {
        assert(s.take(k) =~= s);
        lemma_digit_chars_grow_base(s);
    }
}

/// Digits write no negative number.
proof fn lemma_digit_chars_grow_base(s: Seq<char>)
    requires
        all_digit_chars(s),
    ensures
        0 <= digit_chars_value(s),
    decreases s.len(),
{
    if s.len() > 0 {
        lemma_digit_chars_grow_base(s.drop_last());
        assert('0' <= s[s.len() - 1] <= '9');
    }
}

/// Reads a number of weeks (see [`offset_value`]).
fn offset_of_chars(s: &Vec<char>) -> (r: Option<u32>)
    ensures
        r == offset_value(s@),
{
    let t = trim_chars(s);
    let start: usize = if t.len() > 0 && t[0] == '+' {
        1
    } else {
        0
    };
    let ghost body = t@.subrange(start as int, t@.len() as int);
    assert(body =~= if t@.len() > 0 && t@[0] == '+' {
        t@.subrange(1, t@.len() as int)
    } else {
        t@
    });
    if start >= t.len() {
        return None;
    }
    let mut value: u64 = 0;
    let mut i: usize = start;
    assert(body.take(0) =~= Seq::<char>::empty());
    while i < t.len()
        invariant
            start <= i <= t.len(),
            start < t.len(),
            t@ == trimmed(s@),
            body == t@.subrange(start as int, t@.len() as int),
            body == (if t@.len() > 0 && t@[0] == '+' {
                t@.subrange(1, t@.len() as int)
            } else {
                t@
            }),
            all_digit_chars(body.take(i - start)),
            value == digit_chars_value(body.take(i - start)),
            value <= u32::MAX,
        decreases t.len() - i,
    {
        let c = t[i];
        assert(body[i - start] == c);
        if c < '0' || c > '9' {
            return None;
        }
        assert(body.take(i - start + 1).drop_last() =~= body.take(i - start));
        assert(all_digit_chars(body.take(i - start + 1)));
        let next: u64 = value * 10 + (c as u64 - 48);
        if next > u32::MAX as u64 {
            proof {
                if all_digit_chars(body) {
                    lemma_digit_chars_grow(body, i - start + 1);
                }
            }
            return None;
        }
        value = next;
        i += 1;
    }
    assert(body.take(t.len() - start) =~= body);
    Some(value as u32)
}

/// The index of the first `+` from `i` on, or the length of `s`.
pub open spec fn plus_index(s: Seq<char>, i: int) -> int
    decreases s.len() - i,
{
    if i >= s.len() || i < 0 {
        s.len() as int
    } else if s[i] == '+' {
        i
    } else {
        plus_index(s, i + 1)
    }
}

/// What a date expression is read as.
pub enum ParsedExpression {
    /// The expression has this value.
    Value(DateExpression),
    /// The text before the `+` names no day of the week; this is the text.
    UnknownWeekday(Seq<char>),
    /// The text after the `+` is no number of weeks; this is the text.
    InvalidOffset(Seq<char>),
    /// The expression has none of the accepted forms; this is the expression.
    Unparsable(Seq<char>),
}

/// What a date expression is read as, white space around it left out: no
/// date for an empty expression; today for `today` in any letter case; an
/// explicit date for a date written as `2024-11-20` or as `11/20/2024`; a day
/// of the week for its name, with no weeks or with the number of weeks that
/// follows a `+`.
pub open spec fn parsed_expression(text: Seq<char>) -> ParsedExpression {
    let e = trimmed(text);
    if e.len() == 0 {
        ParsedExpression::Value(DateExpression::NoDate)
    } else if lower(e) == "today"@ {
        ParsedExpression::Value(DateExpression::Today)
    } else if chrono_parsed(e, "%Y-%m-%d"@) is Some {
        ParsedExpression::Value(DateExpression::Explicit(chrono_parsed(e, "%Y-%m-%d"@)->0))
    } else if chrono_parsed(e, "%m/%d/%Y"@) is Some {
        ParsedExpression::Value(DateExpression::Explicit(chrono_parsed(e, "%m/%d/%Y"@)->0))
    } else {
        let p = plus_index(e, 0);
        if p < e.len() {
            let day_text = e.subrange(0, p);
            let offset_text = e.subrange(p + 1, e.len() as int);
            match weekday_named(day_text) {
                None => ParsedExpression::UnknownWeekday(lower(trimmed(day_text))),
                Some(day) => match offset_value(offset_text) {
                    None => ParsedExpression::InvalidOffset(offset_text),
                    Some(offset) => ParsedExpression::Value(
                        DateExpression::DayOfWeek { day, offset },
                    ),
                },
            }
        } else {
            match weekday_named(e) {
                Some(day) => ParsedExpression::Value(DateExpression::DayOfWeek { day, offset: 0 }),
                None => ParsedExpression::Unparsable(e),
            }
        }
    }
}

/// Reads a date expression (see [`parsed_expression`]): nothing, `today`, a
/// date as `2024-11-20` or as `11/20/2024`, or a day of the week as
/// `Tuesday` or `Tue`, with a number of weeks after a `+` if wanted, as in
/// `Tuesday+3`.
pub fn parse_date_expression(expr: &str) -> (r: Result<DateExpression, Error>)
    ensures
        match parsed_expression(expr@) {
            ParsedExpression::Value(v) => r == Ok::<DateExpression, Error>(v),
            ParsedExpression::UnknownWeekday(t) => r matches Err(Error::InvalidDateExpression(m))
                && m@ == "Unknown weekday: "@ + t,
            ParsedExpression::InvalidOffset(t) => r matches Err(Error::InvalidDateExpression(m))
                && m@ == "Invalid offset: "@ + t,
            ParsedExpression::Unparsable(t) => r matches Err(Error::InvalidDateExpression(m))
                && m@ == "Unable to parse date expression: "@ + t,
        },
{
    let e = trim_chars(&chars_of(expr));
    if e.len() == 0 {
        return Ok(DateExpression::NoDate);
    }
    if chars_equal(&lower_chars(&e), &chars_of("today")) {
        return Ok(DateExpression::Today);
    }
    let text = string_of(&e);
    match parse_with(text.as_str(), "%Y-%m-%d") {
        Some(date) => {
            return Ok(DateExpression::Explicit(date));
        },
        None => {},
    }
    match parse_with(text.as_str(), "%m/%d/%Y") {
        Some(date) => {
            return Ok(DateExpression::Explicit(date));
        },
        None => {},
    }
    let mut p: usize = 0;
    while p < e.len() && e[p] != '+'
        invariant
            p <= e.len(),
            plus_index(e@, 0) == plus_index(e@, p as int),
        decreases e.len() - p,
    {
        p += 1;
    }
    if p < e.len() {
        let day_text = slice_chars(&e, 0, p);
        let offset_text = slice_chars(&e, p + 1, e.len());
        let day = match weekday_of_chars(&day_text) {
            Ok(day) => day,
            Err(t) => {
                return Err(expression_error("Unknown weekday: ", &t));
            },
        };
        match offset_of_chars(&offset_text) {
            Some(offset) => Ok(DateExpression::DayOfWeek { day, offset }),
            None => Err(expression_error("Invalid offset: ", &offset_text)),
        }
    } else {
        match weekday_of_chars(&e) {
            Ok(day) => Ok(DateExpression::DayOfWeek { day, offset: 0 }),
            Err(_) => Err(expression_error("Unable to parse date expression: ", &e)),
        }
    }
}

} // verus!
