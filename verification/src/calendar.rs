//! Calendar months and timestamps. The calendar itself is chrono's: whether a
//! date exists, which day comes before another, how a timestamp is written and
//! how a text is read as one. The rules built on it are verified here.

use chrono::{Datelike, Timelike};
use crate::error::{DateError, LedgerError, PeriodFault};
use crate::text::{
    bounded_digits, chars_of, decimal_text, parse_digits, push_str, slice_of, text_of,
};
use vstd::prelude::*;

verus! {

/// The first year that a date can lie in.
pub const MIN_YEAR: i32 = -262143;

/// The last year that a date can lie in.
pub const MAX_YEAR: i32 = 262142;

/// A calendar date and a time of day, as plain numbers. A `nanosecond` of a
/// thousand million or more marks a leap second, which is written as second 60.
#[derive(Debug, Clone, Copy, PartialEq, Eq, Structural)]
pub struct Timestamp {
    pub year: i32,
    pub month: u32,
    pub day: u32,
    pub hour: u32,
    pub minute: u32,
    pub second: u32,
    pub nanosecond: u32,
}

/// Whether `year` has a 29th of February in the proleptic Gregorian calendar.
pub open spec fn is_leap_year(year: int) -> bool {
    year % 4 == 0 && (year % 100 != 0 || year % 400 == 0)
}

/// The number of days of `month` in `year`; 0 where `month` is no month.
pub open spec fn days_in_month(year: int, month: int) -> int {
    if month == 2 {
        if is_leap_year(year) {
            29
        } else {
            28
        }
    } else if month == 4 || month == 6 || month == 9 || month == 11 {
        30
    } else if 1 <= month <= 12 {
        31
    } else {
        0
    }
}

/// Whether the calendar holds the day `year`-`month`-`day`.
pub open spec fn date_exists(year: int, month: int, day: int) -> bool {
    MIN_YEAR <= year <= MAX_YEAR && 1 <= month <= 12 && 1 <= day <= days_in_month(year, month)
}

/// The day before `year`-`month`-`day`, where the calendar holds one.
pub open spec fn day_before(year: int, month: int, day: int) -> Option<(int, int, int)> {
    if day > 1 {
        Some((year, month, day - 1))
    } else if month > 1 {
        Some((year, month - 1, days_in_month(year, month - 1)))
    } else if year > MIN_YEAR {
        Some((year - 1, 12, 31))
    } else {
        None
    }
}

/// The numeral of `n`, with zeros in front where it has fewer than `width` digits.
pub open spec fn zero_padded(n: nat, width: nat) -> Seq<char> {
    let digits = decimal_text(n);
    if digits.len() >= width {
        digits
    } else {
        Seq::new((width - digits.len()) as nat, |i: int| '0') + digits
    }
}

/// How a year is written: four digits from 0 to 9999, else a sign and at
/// least four digits.
pub open spec fn year_text(year: int) -> Seq<char> {
    if 0 <= year <= 9999 {
        zero_padded(year as nat, 4)
    } else if year < 0 {
        seq!['-'] + zero_padded((-year) as nat, 4)
    } else {
        seq!['+'] + zero_padded(year as nat, 4)
    }
}

/// How a month is written: the year, a hyphen, two digits.
pub open spec fn month_text(year: int, month: int) -> Seq<char> {
    year_text(year) + seq!['-'] + zero_padded(month as nat, 2)
}

/// The tail of a written timestamp that follows the month: day and time.
pub open spec fn day_time_text(ts: Timestamp) -> Seq<char> {
    seq!['-'] + zero_padded(ts.day as nat, 2) + seq![' '] + zero_padded(ts.hour as nat, 2)
        + seq![':'] + zero_padded(ts.minute as nat, 2) + seq![':'] + zero_padded(
        (ts.second + ts.nanosecond / 1_000_000_000) as nat,
        2,
    )
}

/// How a timestamp is written: `YYYY-MM-DD HH:MM:SS`.
pub open spec fn timestamp_text(ts: Timestamp) -> Seq<char> {
    month_text(ts.year as int, ts.month as int) + day_time_text(ts)
}

impl Timestamp {
    /// Whether the calendar holds this day and the clock this time.
    pub open spec fn is_valid(self) -> bool {
        &&& date_exists(self.year as int, self.month as int, self.day as int)
        &&& self.hour < 24
        &&& self.minute < 60
        &&& self.second < 60
        &&& self.nanosecond < 2_000_000_000
        &&& (self.nanosecond >= 1_000_000_000 ==> self.second == 59)
    }

    /// Midnight at the start of the given day.
    pub open spec fn midnight(day: (i32, u32, u32)) -> Timestamp {
        Timestamp {
            year: day.0,
            month: day.1,
            day: day.2,
            hour: 0,
            minute: 0,
            second: 0,
            nanosecond: 0,
        }
    }

    /// Whether the calendar holds this day and the clock this time.
    pub fn valid(&self) -> (r: bool)
        ensures
            r == self.is_valid(),
    {
        chrono_date_exists(self.year, self.month, self.day) && self.hour < 24 && self.minute < 60
            && self.second < 60 && self.nanosecond < 2_000_000_000 && (self.nanosecond
            < 1_000_000_000 || self.second == 59)
    }

    /// This timestamp written as `YYYY-MM-DD HH:MM:SS`.
    pub fn text(&self) -> (s: String)
        requires
            self.is_valid(),
        ensures
            s@ == timestamp_text(*self),
    {
        chrono_format(self)
    }

    /// The month of this timestamp written as `YYYY-MM`.
    pub fn month(&self) -> (s: String)
        requires
            self.is_valid(),
        ensures
            s@ == month_text(self.year as int, self.month as int),
    {
        let full = chrono_format(self);
        let chars = chars_of(full.as_str());
        proof {
            day_time_is_twelve(*self);
        }
        let head = slice_of(&chars, 0, chars.len() - 12);
        assert(head@ =~= month_text(self.year as int, self.month as int));
        text_of(&head)
    }

    /// The local date and time of the machine's clock.
    pub fn now() -> (ts: Timestamp)
        ensures
            ts.is_valid(),
    {
        chrono_now()
    }
}

/// A number below a hundred is written with exactly two digits.
proof fn two_digits(n: nat)
    requires
        n < 100,
    ensures
        zero_padded(n, 2).len() == 2,
{
    reveal_with_fuel(decimal_text, 2);
    if n < 10 {
        assert(decimal_text(n).len() == 1);
    } else {
        assert(decimal_text(n).len() == 2);
    }
}

/// The day and the time of a valid timestamp take twelve characters.
proof fn day_time_is_twelve(ts: Timestamp)
    requires
        ts.is_valid(),
    ensures
        day_time_text(ts).len() == 12,
{
    two_digits(ts.day as nat);
    two_digits(ts.hour as nat);
    two_digits(ts.minute as nat);
    two_digits((ts.second + ts.nanosecond / 1_000_000_000) as nat);
}

/// `NaiveDate::from_ymd_opt` returns a date exactly when the calendar holds
/// the day and the year lies between `MIN_YEAR` and `MAX_YEAR`.
#[verifier::external_body]
fn chrono_date_exists(year: i32, month: u32, day: u32) -> (r: bool)
    ensures
        r == date_exists(year as int, month as int, day as int),
{
    chrono::NaiveDate::from_ymd_opt(year, month, day).is_some()
}

/// `NaiveDate::pred_opt` on the date that `NaiveDate::from_ymd_opt` makes of
/// the arguments: the previous calendar day, or nothing where the date does
/// not exist or is the first one that can be represented.
#[verifier::external_body]
fn chrono_previous_day(year: i32, month: u32, day: u32) -> (r: Option<(i32, u32, u32)>)
    ensures
        r matches Some(p) ==> date_exists(year as int, month as int, day as int) && day_before(
            year as int,
            month as int,
            day as int,
        ) == Some((p.0 as int, p.1 as int, p.2 as int)),
        r is None ==> !date_exists(year as int, month as int, day as int) || day_before(
            year as int,
            month as int,
            day as int,
        ) is None,
{
    chrono::NaiveDate::from_ymd_opt(year, month, day).and_then(|d| d.pred_opt()).map(
        |d| (d.year(), d.month(), d.day()),
    )
}

/// `NaiveDateTime::format` with `%Y-%m-%d %H:%M:%S`: the year as `year_text`
/// says, every other field with two digits, a leap second as second 60.
#[verifier::external_body]
fn chrono_format(ts: &Timestamp) -> (s: String)
    requires
        ts.is_valid(),
    ensures
        s@ == timestamp_text(*ts),
{
    chrono::NaiveDate::from_ymd_opt(ts.year, ts.month, ts.day).unwrap().and_hms_nano_opt(
        ts.hour,
        ts.minute,
        ts.second,
        ts.nanosecond,
    ).unwrap().format("%Y-%m-%d %H:%M:%S").to_string()
}

/// `Local::now`: the machine's local date and time. Nothing is known of the
/// moment but that its fields form a date and a time. It panics where the
/// machine's clock stands before 1970.
#[verifier::external_body]
fn chrono_now() -> (ts: Timestamp)
    ensures
        ts.is_valid(),
{
    let t = chrono::Local::now().naive_local();
    Timestamp {
        year: t.year(),
        month: t.month(),
        day: t.day(),
        hour: t.hour(),
        minute: t.minute(),
        second: t.second(),
        nanosecond: t.nanosecond(),
    }
}

/// What `NaiveDateTime::parse_from_str` makes of `text` under `format`.
pub uninterp spec fn parsed_datetime(text: Seq<char>, format: Seq<char>) -> Option<Timestamp>;

/// What `NaiveDate::parse_from_str` makes of `text` under `format`.
pub uninterp spec fn parsed_date(text: Seq<char>, format: Seq<char>) -> Option<(i32, u32, u32)>;

/// `NaiveDateTime::parse_from_str`: the date and time that `text` writes
/// under `format`, or nothing. What it returns is a date and a time.
#[verifier::external_body]
fn chrono_parse_datetime(text: &str, format: &str) -> (r: Option<Timestamp>)
    ensures
        r == parsed_datetime(text@, format@),
        r matches Some(ts) ==> ts.is_valid(),
{
    match chrono::NaiveDateTime::parse_from_str(text, format) {
        Ok(t) => Some(
            Timestamp {
                year: t.year(),
                month: t.month(),
                day: t.day(),
                hour: t.hour(),
                minute: t.minute(),
                second: t.second(),
                nanosecond: t.nanosecond(),
            },
        ),
        Err(_) => None,
    }
}

/// `NaiveDate::parse_from_str`: the date that `text` writes under `format`,
/// or nothing. What it returns is a date of the calendar.
#[verifier::external_body]
fn chrono_parse_date(text: &str, format: &str) -> (r: Option<(i32, u32, u32)>)
    ensures
        r == parsed_date(text@, format@),
        r matches Some(d) ==> date_exists(d.0 as int, d.1 as int, d.2 as int),
{
    match chrono::NaiveDate::parse_from_str(text, format) {
        Ok(d) => Some((d.year(), d.month(), d.day())),
        Err(_) => None,
    }
}

/// Whether `k` is the place of the only hyphen in `text`.
pub open spec fn splits_at(text: Seq<char>, k: int) -> bool {
    &&& 0 <= k < text.len()
    &&& text[k] == '-'
    &&& forall|j: int| 0 <= j < text.len() && j != k ==> text[j] != '-'
}

/// The number that `s` writes: digits, with or without a plus sign in front,
/// and a value of at most `max`.
pub open spec fn plus_number(s: Seq<char>, max: nat) -> Option<nat> {
    if s.len() > 0 && s[0] == '+' {
        bounded_digits(s.skip(1), max)
    } else {
        bounded_digits(s, max)
    }
}

/// The first and the last second of the month `month` of `year`, as texts.
pub open spec fn bounds_of(year: int, month: int) -> (Seq<char>, Seq<char>) {
    (
        timestamp_text(
            Timestamp {
                year: year as i32,
                month: month as u32,
                day: 1,
                hour: 0,
                minute: 0,
                second: 0,
                nanosecond: 0,
            },
        ),
        timestamp_text(
            Timestamp {
                year: year as i32,
                month: month as u32,
                day: days_in_month(year, month) as u32,
                hour: 23,
                minute: 59,
                second: 59,
                nanosecond: 0,
            },
        ),
    )
}

/// Whether the calendar holds the month `month` of `year` and the first day
/// of the month after it.
pub open spec fn month_exists(year: int, month: int) -> bool {
    &&& date_exists(year, month, 1)
    &&& !(year == MAX_YEAR && month == 12)
}

/// The bounds of the month that the two parts of a month text name.
pub open spec fn part_bounds(year_part: Seq<char>, month_part: Seq<char>) -> Result<
    (Seq<char>, Seq<char>),
    LedgerError,
> {
    match plus_number(year_part, i32::MAX as nat) {
        None => Err(LedgerError::InvalidPeriod(PeriodFault::Year)),
        Some(year) => match plus_number(month_part, u32::MAX as nat) {
            None => Err(LedgerError::InvalidPeriod(PeriodFault::Month)),
            Some(month) => if month_exists(year as int, month as int) {
                Ok(bounds_of(year as int, month as int))
            } else {
                Err(LedgerError::InvalidPeriod(PeriodFault::Month))
            },
        },
    }
}

/// The bounds of the month that `text` names: `text` is a year and a month
/// number joined by the only hyphen in it.
pub open spec fn month_bounds(text: Seq<char>) -> Result<(Seq<char>, Seq<char>), LedgerError> {
    if exists|k: int| splits_at(text, k) {
        let k = choose|k: int| splits_at(text, k);
        part_bounds(text.take(k), text.skip(k + 1))
    } else {
        Err(LedgerError::InvalidPeriod(PeriodFault::Format))
    }
}

/// Whether a month text is accepted and, if so, which texts bound the month.
pub open spec fn bounds_match(
    r: Result<(String, String), LedgerError>,
    expected: Result<(Seq<char>, Seq<char>), LedgerError>,
) -> bool {
    match r {
        Ok((start, end)) => expected == Ok::<(Seq<char>, Seq<char>), LedgerError>(
            (start@, end@),
        ),
        Err(e) => expected == Err::<(Seq<char>, Seq<char>), LedgerError>(e),
    }
}

/// Reads `v[from..to]` as digits with or without a plus sign in front.
fn read_plus_number(v: &Vec<char>, from: usize, to: usize, max: u64) -> (r: Option<u64>)
    requires
        from <= to <= v.len(),
    ensures
        r == match plus_number(v@.subrange(from as int, to as int), max as nat) {
            Some(n) => Some(n as u64),
            None => None,
        },
{
    let part = slice_of(v, from, to);
    if part.len() > 0 && part[0] == '+' {
        parse_digits(&part, 1, max)
    } else {
        assert(part@.skip(0) =~= part@);
        parse_digits(&part, 0, max)
    }
}

/// The inclusive bounds of a calendar month named as `YYYY-MM`: the first
/// day at 00:00:00 and the last day at 23:59:59.
pub fn month_range(month: &str) -> (r: Result<(String, String), LedgerError>)
    ensures
        bounds_match(r, month_bounds(month@)),
{
    let v = chars_of(month);
    let n = v.len();
    let mut k: usize = 0;
    while k < n && v[k] != '-'
        invariant
            k <= n == v.len(),
            forall|j: int| 0 <= j < k ==> v@[j] != '-',
        decreases n - k,
    {
        k += 1;
    }
    if k == n {
        assert(forall|j: int| !splits_at(v@, j));
        return Err(LedgerError::InvalidPeriod(PeriodFault::Format));
    }
    let mut j: usize = k + 1;
    while j < n && v[j] != '-'
        invariant
            k < j <= n == v.len(),
            forall|i: int| k < i < j ==> v@[i] != '-',
        decreases n - j,
    {
        j += 1;
    }
    if j < n {
        assert forall|i: int| !splits_at(v@, i) by {
            if splits_at(v@, i) {
                assert(v@[k as int] == '-' && v@[j as int] == '-');
            }
        }
        return Err(LedgerError::InvalidPeriod(PeriodFault::Format));
    }
    proof {
        assert(splits_at(v@, k as int));
        let c = choose|c: int| splits_at(v@, c);
        assert(c == k);
        assert(v@.take(k as int) =~= v@.subrange(0, k as int));
        assert(v@.skip(k + 1) =~= v@.subrange(k + 1, n as int));
    }
    let year: i32 = match read_plus_number(&v, 0, k, 0x7fff_ffff) {
        Some(y) => y as i32,
        None => {
            return Err(LedgerError::InvalidPeriod(PeriodFault::Year));
        },
    };
    let number: u32 = match read_plus_number(&v, k + 1, n, 0xffff_ffff) {
        Some(m) => m as u32,
        None => {
            return Err(LedgerError::InvalidPeriod(PeriodFault::Month));
        },
    };
    if !chrono_date_exists(year, number, 1) {
        return Err(LedgerError::InvalidPeriod(PeriodFault::Month));
    }
    let next: (i32, u32) = if number == 12 {
        (year + 1, 1)
    } else {
        (year, number + 1)
    };
    let last: (i32, u32, u32) = match chrono_previous_day(next.0, next.1, 1) {
        Some(d) => d,
        None => {
            return Err(LedgerError::InvalidPeriod(PeriodFault::Month));
        },
    };
    let first = Timestamp {
        year,
        month: number,
        day: 1,
        hour: 0,
        minute: 0,
        second: 0,
        nanosecond: 0,
    };
    let end = Timestamp {
        year: last.0,
        month: last.1,
        day: last.2,
        hour: 23,
        minute: 59,
        second: 59,
        nanosecond: 0,
    };
    let start_text = chrono_format(&first);
    let end_text = chrono_format(&end);
    Ok((start_text, end_text))
}

/// The formats in which a date is read, in the order in which they are tried.
pub open spec fn date_formats() -> Seq<Seq<char>> {
    seq![
        "%Y-%m-%d"@,
        "%m/%d/%Y"@,
        "%d/%m/%Y"@,
        "%Y/%m/%d"@,
        "%m-%d-%Y"@,
        "%d-%m-%Y"@,
        "%Y-%m-%d %H:%M:%S"@,
        "%m/%d/%Y %H:%M"@,
    ]
}

/// The first reading of `text` among the formats from position `from` on:
/// under each format first as a date with a time, then as a date alone, which
/// stands for its midnight.
pub open spec fn first_reading(text: Seq<char>, from: int) -> Option<Timestamp>
    decreases 8 - from,
{
    if from < 0 || from >= 8 {
        None
    } else {
        match parsed_datetime(text, date_formats()[from]) {
            Some(ts) => Some(ts),
            None => match parsed_date(text, date_formats()[from]) {
                Some(d) => Some(Timestamp::midnight(d)),
                None => first_reading(text, from + 1),
            },
        }
    }
}

/// The moment that `text` names: `text` followed by a midnight, read as a full
/// timestamp, where that succeeds; else its first reading among the formats.
pub open spec fn reading(text: Seq<char>) -> Option<Timestamp> {
    match parsed_datetime(text + " 00:00:00"@, "%Y-%m-%d %H:%M:%S"@) {
        Some(ts) => Some(ts),
        None => first_reading(text, 0),
    }
}

/// The format at position `i` of the list.
fn format_at(i: usize) -> (f: &'static str)
    requires
        i < 8,
    ensures
        f@ == date_formats()[i as int],
{
    if i == 0 {
        "%Y-%m-%d"
    } else if i == 1 {
        "%m/%d/%Y"
    } else if i == 2 {
        "%d/%m/%Y"
    } else if i == 3 {
        "%Y/%m/%d"
    } else if i == 4 {
        "%m-%d-%Y"
    } else if i == 5 {
        "%d-%m-%Y"
    } else if i == 6 {
        "%Y-%m-%d %H:%M:%S"
    } else {
        "%m/%d/%Y %H:%M"
    }
}

/// Reads `text` as a moment: the first format that reads it decides.
pub fn read_date(text: &str) -> (r: Option<Timestamp>)
    ensures
        r == reading(text@),
        r matches Some(ts) ==> ts.is_valid(),
{
    let mut padded = chars_of(text);
    push_str(&mut padded, " 00:00:00");
    let with_midnight = text_of(&padded);
    match chrono_parse_datetime(with_midnight.as_str(), "%Y-%m-%d %H:%M:%S") {
        Some(ts) => {
            return Some(ts);
        },
        None => {},
    }
    let mut i: usize = 0;
    while i < 8
        invariant
            i <= 8,
            reading(text@) == first_reading(text@, i as int),
        decreases 8 - i,
    {
        let format = format_at(i);
        match chrono_parse_datetime(text, format) {
            Some(ts) => {
                return Some(ts);
            },
            None => {},
        }
        match chrono_parse_date(text, format) {
            Some(d) => {
                return Some(
                    Timestamp {
                        year: d.0,
                        month: d.1,
                        day: d.2,
                        hour: 0,
                        minute: 0,
                        second: 0,
                        nanosecond: 0,
                    },
                );
            },
            None => {},
        }
        i += 1;
    }
    None
}

/// What `parse_date` returns for a reading.
pub open spec fn date_result(moment: Option<Timestamp>) -> Result<Seq<char>, DateError> {
    match moment {
        Some(ts) => Ok(timestamp_text(ts)),
        None => Err(DateError::Unsupported),
    }
}

/// Whether `r` is the given result, text by text.
pub open spec fn date_matches(r: Result<String, DateError>, expected: Result<Seq<char>, DateError>) -> bool {
    match r {
        Ok(s) => expected == Ok::<Seq<char>, DateError>(s@),
        Err(e) => expected == Err::<Seq<char>, DateError>(e),
    }
}

/// The canonical text of a reading: `YYYY-MM-DD HH:MM:SS`, or the failure
/// where there is no reading.
pub fn canonical_date(moment: Option<Timestamp>) -> (r: Result<String, DateError>)
    requires
        moment matches Some(ts) ==> ts.is_valid(),
    ensures
        date_matches(r, date_result(moment)),
{
    match moment {
        Some(ts) => Ok(chrono_format(&ts)),
        None => Err(DateError::Unsupported),
    }
}

/// Normalizes a date given in any of the accepted formats to
/// `YYYY-MM-DD HH:MM:SS`, with midnight where the text gives no time.
pub fn parse_date(text: &str) -> (r: Result<String, DateError>)
    ensures
        date_matches(r, date_result(reading(text@))),
{
    canonical_date(read_date(text))
}

} // verus!
