use chrono::Datelike;
use chrono::NaiveDate;
use vstd::prelude::*;
use vstd::string::StrSliceExecFns;

verus! {

/// The earliest year chrono's dates reach.
pub const MIN_YEAR: i32 = -262143;

/// The latest year chrono's dates reach.
pub const MAX_YEAR: i32 = 262142;

pub open spec fn is_leap_year(y: int) -> bool {
    (y % 4 == 0 && y % 100 != 0) || y % 400 == 0
}

pub open spec fn days_in_month(y: int, m: int) -> int {
    if m == 2 {
        if is_leap_year(y) { 29 } else { 28 }
    } else if m == 4 || m == 6 || m == 9 || m == 11 {
        30
    } else {
        31
    }
}

/// A day of the proleptic Gregorian calendar, within the years chrono
/// supports.
pub open spec fn is_calendar_day(y: int, m: int, d: int) -> bool {
    &&& MIN_YEAR <= y <= MAX_YEAR
    &&& 1 <= m <= 12
    &&& 1 <= d <= days_in_month(y, m)
}

/// The decimal digit character for `n` in `0..10`.
pub open spec fn digit(n: int) -> char {
    ((n + 48) as u8) as char
}

/// The numeric value of a decimal digit character.
pub open spec fn digit_value(c: char) -> int {
    c as u32 as int - 48
}

pub open spec fn is_digit(c: char) -> bool {
    48 <= c as u32 <= 57
}

pub open spec fn two_digits(n: int) -> Seq<char> {
    seq![digit((n / 10) % 10), digit(n % 10)]
}

pub open spec fn four_digits(n: int) -> Seq<char> {
    seq![digit(n / 1000), digit((n / 100) % 10), digit((n / 10) % 10), digit(n % 10)]
}

/// The `YYYY-MM-DD` text of a date.
pub open spec fn date_text(d: Date) -> Seq<char> {
    four_digits(d.year as int) + seq!['-'] + two_digits(d.month as int) + seq!['-'] + two_digits(
        d.day as int,
    )
}

/// Text of the strict form `YYYY-MM-DD`: four digits, a dash, two digits, a
/// dash, two digits.
pub open spec fn is_iso_shape(s: Seq<char>) -> bool {
    &&& s.len() == 10
    &&& is_digit(s[0]) && is_digit(s[1]) && is_digit(s[2]) && is_digit(s[3])
    &&& s[4] == '-'
    &&& is_digit(s[5]) && is_digit(s[6])
    &&& s[7] == '-'
    &&& is_digit(s[8]) && is_digit(s[9])
}

pub open spec fn iso_year(s: Seq<char>) -> int {
    1000 * digit_value(s[0]) + 100 * digit_value(s[1]) + 10 * digit_value(s[2]) + digit_value(
        s[3],
    )
}

pub open spec fn iso_month(s: Seq<char>) -> int {
    10 * digit_value(s[5]) + digit_value(s[6])
}

pub open spec fn iso_day(s: Seq<char>) -> int {
    10 * digit_value(s[8]) + digit_value(s[9])
}

/// An existing day whose year has four digits: what `YYYY-MM-DD` can write.
pub open spec fn is_valid_ymd(y: int, m: int, d: int) -> bool {
    0 <= y <= 9999 && is_calendar_day(y, m, d)
}

/// The date that a `YYYY-MM-DD` text names, if it has that form and names an
/// existing day.
pub open spec fn date_of_text(s: Seq<char>) -> Option<Date> {
    if is_iso_shape(s) && is_valid_ymd(iso_year(s), iso_month(s), iso_day(s)) {
        Some(Date { year: iso_year(s) as i32, month: iso_month(s) as u32, day: iso_day(s) as u32 })
    } else {
        None
    }
}

fn is_digit_code(c: u32) -> (r: bool)
    ensures
        r == (48 <= c <= 57),
{
    48 <= c && c <= 57
}

proof fn lemma_digit(n: int)
    requires
        0 <= n < 10,
    ensures
        is_digit(digit(n)),
        digit_value(digit(n)) == n,
{
}

/// Reading back the text of a date gives the date.
pub proof fn lemma_date_text_round_trip(d: Date)
    requires
        d.wf(),
    ensures
        date_of_text(date_text(d)) == Some(d),
{
    let y = d.year as int;
    let m = d.month as int;
    let dd = d.day as int;
    let t = date_text(d);
    assert(0 <= y / 1000 < 10 && 0 <= (y / 100) % 10 < 10 && 0 <= (y / 10) % 10 < 10) by (
    nonlinear_arith)
        requires
            0 <= y <= 9999,
    ;
    lemma_digit(y / 1000);
    lemma_digit((y / 100) % 10);
    lemma_digit((y / 10) % 10);
    lemma_digit(y % 10);
    lemma_digit((m / 10) % 10);
    lemma_digit(m % 10);
    lemma_digit((dd / 10) % 10);
    lemma_digit(dd % 10);
    assert(1000 * (y / 1000) + 100 * ((y / 100) % 10) + 10 * ((y / 10) % 10) + y % 10 == y) by (
    nonlinear_arith)
        requires
            0 <= y <= 9999,
    ;
    assert(10 * ((m / 10) % 10) + m % 10 == m) by (nonlinear_arith)
        requires
            0 <= m <= 12,
    ;
    assert(10 * ((dd / 10) % 10) + dd % 10 == dd) by (nonlinear_arith)
        requires
            0 <= dd <= 31,
    ;
    assert(t.len() == 10);
    assert(is_iso_shape(t));
    assert(iso_year(t) == y);
    assert(iso_month(t) == m);
    assert(iso_day(t) == dd);
}

/// A calendar date.
#[derive(Clone, Copy, Debug, PartialEq, Eq, Structural)]
pub struct Date {
    pub year: i32,
    pub month: u32,
    pub day: u32,
}

/// Relies on chrono's `NaiveDate::from_ymd_opt`, which returns `Some` exactly for
/// existing days of chrono's year range.
#[verifier::external_body]
fn calendar_has_day(year: i32, month: u32, day: u32) -> (r: bool)
    ensures
        r == is_calendar_day(year as int, month as int, day as int),
{
    NaiveDate::from_ymd_opt(year, month, day).is_some()
}

/// Relies on chrono's `From<SystemTime> for DateTime<Local>` and
/// `DateTime::date_naive` for the current local calendar day, which is always
/// an existing day of chrono's range; which day depends on the clock and the
/// time zone. The conversion also takes a clock that reads before 1970.
#[verifier::external_body]
pub(crate) fn local_today() -> (r: Date)
    ensures
        is_calendar_day(r.year as int, r.month as int, r.day as int),
{
    let d = chrono::DateTime::<chrono::Local>::from(std::time::SystemTime::now()).date_naive();
    Date { year: d.year(), month: d.month(), day: d.day() }
}

/// Relies on chrono's `NaiveDate::format` with `%Y-%m-%d`: a year in 0..=9999
/// zero-padded to four digits, then month and day as two digits each.
#[verifier::external_body]
fn calendar_text(d: &Date) -> (r: String)
    requires
        d.wf(),
    ensures
        r@ == date_text(*d),
{
    NaiveDate::from_ymd_opt(d.year, d.month, d.day).unwrap().format("%Y-%m-%d").to_string()
}

impl Date {
    pub open spec fn wf(self) -> bool {
        is_valid_ymd(self.year as int, self.month as int, self.day as int)
    }

    /// Calendar order: `self` is an earlier day than `other`.
    pub open spec fn precedes(self, other: Date) -> bool {
        ||| self.year < other.year
        ||| (self.year == other.year && self.month < other.month)
        ||| (self.year == other.year && self.month == other.month && self.day < other.day)
    }

    /// The date with the given year, month and day, if that day exists.
    pub fn from_ymd(year: i32, month: u32, day: u32) -> (r: Option<Date>)
        ensures
            r == (if is_valid_ymd(year as int, month as int, day as int) {
                Some(Date { year, month, day })
            } else {
                None
            }),
    {
        if 0 <= year && year <= 9999 && calendar_has_day(year, month, day) {
            Some(Date { year, month, day })
        } else {
            None
        }
    }

    /// Whether this is an existing day with a four-digit year.
    pub fn is_valid(&self) -> (r: bool)
        ensures
            r == self.wf(),
    {
        0 <= self.year && self.year <= 9999 && calendar_has_day(self.year, self.month, self.day)
    }

    /// The `YYYY-MM-DD` text of this date.
    pub fn to_iso_string(&self) -> (r: String)
        requires
            self.wf(),
        ensures
            r@ == date_text(*self),
    {
        calendar_text(self)
    }

    /// Reads a date written strictly as `YYYY-MM-DD`.
    pub fn parse_iso(s: &str) -> (r: Option<Date>)
        ensures
            r == date_of_text(s@),
    {
        let n = s.unicode_len();
        if n != 10 {
            return None;
        }
        let mut vals: Vec<char> = Vec::new();
        let mut i: usize = 0;
        while i < 10
            invariant
                n == 10,
                s@.len() == 10,
                0 <= i <= 10,
                vals@.len() == i,
                forall|j: int| 0 <= j < i ==> #[trigger] vals@[j] == s@[j],
            decreases 10 - i,
        {
            let c = s.get_char(i);
            vals.push(c);
            i = i + 1;
        }
        let c0 = vals[0] as u32;
        let c1 = vals[1] as u32;
        let c2 = vals[2] as u32;
        let c3 = vals[3] as u32;
        let c5 = vals[5] as u32;
        let c6 = vals[6] as u32;
        let c8 = vals[8] as u32;
        let c9 = vals[9] as u32;
        if !(is_digit_code(c0) && is_digit_code(c1) && is_digit_code(c2) && is_digit_code(c3)
            && vals[4] == '-' && is_digit_code(c5) && is_digit_code(c6) && vals[7] == '-'
            && is_digit_code(c8) && is_digit_code(c9)) {
            return None;
        }
        let year: i32 = (1000 * (c0 - 48) + 100 * (c1 - 48) + 10 * (c2 - 48) + (c3 - 48)) as i32;
        let month: u32 = 10 * (c5 - 48) + (c6 - 48);
        let day: u32 = 10 * (c8 - 48) + (c9 - 48);
        assert(is_iso_shape(s@));
        assert(year == iso_year(s@) && month == iso_month(s@) && day == iso_day(s@));
        Date::from_ymd(year, month, day)
    }

    pub fn is_before(&self, other: &Date) -> (r: bool)
        ensures
            r == self.precedes(*other),
    {
        self.year < other.year || (self.year == other.year && (self.month < other.month || (
        self.month == other.month && self.day < other.day)))
    }
}

} // verus!
