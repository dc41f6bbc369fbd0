//! Calendar dates, held as day numbers of the proleptic Gregorian calendar
//! (January 1 of year 1 is day 1); `chrono` names, formats and parses them.
use chrono::{Datelike, NaiveDate};
use vstd::prelude::*;

use crate::text::{is_word, push_char, push_str};

verus! {

/// Day number of `NaiveDate::MIN` (January 1, -262143).
pub const MIN_DAY: i32 = -95746129;

/// Day number of `NaiveDate::MAX` (December 31, 262142).
pub const MAX_DAY: i32 = 95745399;

/// Whether `n` is the day number of a date that `chrono` represents.
pub open spec fn valid_day(n: int) -> bool {
    MIN_DAY <= n <= MAX_DAY
}

/// A calendar date.
#[derive(Clone, Copy, Debug, PartialEq, Eq, PartialOrd, Ord, Hash, Structural)]
pub struct Date {
    day: i32,
}

impl Date {
    #[verifier::type_invariant]
    spec fn in_range(self) -> bool {
        valid_day(self.day as int)
    }
}

impl View for Date {
    type V = int;

    closed spec fn view(&self) -> int {
        self.day as int
    }
}

/// Weekday of day number `n`, counted from Monday (0) to Sunday (6); day 1
/// (January 1 of year 1) is a Monday.
pub open spec fn weekday_of(n: int) -> int {
    (n - 1) % 7
}

/// The three-letter English name of weekday `w` (Monday is 0), as `%a` writes it.
pub open spec fn weekday_abbrev_text(w: int) -> Seq<char> {
    if w == 0 {
        seq!['M', 'o', 'n']
    } else if w == 1 {
        seq!['T', 'u', 'e']
    } else if w == 2 {
        seq!['W', 'e', 'd']
    } else if w == 3 {
        seq!['T', 'h', 'u']
    } else if w == 4 {
        seq!['F', 'r', 'i']
    } else if w == 5 {
        seq!['S', 'a', 't']
    } else {
        seq!['S', 'u', 'n']
    }
}

/// The text `chrono` writes for the date of day number `n` with the format
/// `%Y-%m-%d`.
pub uninterp spec fn spec_date_text(n: int) -> Seq<char>;

/// The day number of the date that `chrono` reads from `s` with the format
/// `%Y-%m-%d`, if it reads one.
pub uninterp spec fn spec_parse_date(s: Seq<char>) -> Option<int>;

/// The ISO 8601 week-numbering year and week of the date of day number `n`.
pub uninterp spec fn spec_iso_week(n: int) -> (int, int);

/// The day number of the date `year-month-day`, if it exists and `chrono`
/// represents it.
pub uninterp spec fn spec_ymd_day(year: int, month: int, day: int) -> Option<int>;

/// Calls `NaiveDate::from_ymd_opt` and `num_days_from_ce`: the result is named,
/// and a date that `chrono` builds lies in its range.
#[verifier::external_body]
fn chrono_ymd_day(year: i32, month: u32, day: u32) -> (r: Option<i32>)
    ensures
        match spec_ymd_day(year as int, month as int, day as int) {
            Some(n) => r == Some(n as i32) && valid_day(n),
            None => r is None,
        },
{
    NaiveDate::from_ymd_opt(year, month, day).map(|d| d.num_days_from_ce())
}

/// Calls `Datelike::weekday` and `Weekday::num_days_from_monday`: Monday is 0,
/// and day 1 (January 1 of year 1, `chrono`'s day 1) is a Monday.
#[verifier::external_body]
fn chrono_weekday(day: i32) -> (r: u32)
    requires
        valid_day(day as int),
    ensures
        r as int == weekday_of(day as int),
{
    NaiveDate::from_num_days_from_ce_opt(day).unwrap().weekday().num_days_from_monday()
}

/// Calls `NaiveDate::format("%a")`: the abbreviated English weekday name.
#[verifier::external_body]
fn chrono_weekday_abbrev(day: i32) -> (r: String)
    requires
        valid_day(day as int),
    ensures
        r@ == weekday_abbrev_text(weekday_of(day as int)),
{
    NaiveDate::from_num_days_from_ce_opt(day).unwrap().format("%a").to_string()
}

/// The English name of weekday `w` (Monday is 0), as `%A` writes it.
pub open spec fn weekday_name_text(w: int) -> Seq<char> {
    if w == 0 {
        seq!['M', 'o', 'n', 'd', 'a', 'y']
    } else if w == 1 {
        seq!['T', 'u', 'e', 's', 'd', 'a', 'y']
    } else if w == 2 {
        seq!['W', 'e', 'd', 'n', 'e', 's', 'd', 'a', 'y']
    } else if w == 3 {
        seq!['T', 'h', 'u', 'r', 's', 'd', 'a', 'y']
    } else if w == 4 {
        seq!['F', 'r', 'i', 'd', 'a', 'y']
    } else if w == 5 {
        seq!['S', 'a', 't', 'u', 'r', 'd', 'a', 'y']
    } else {
        seq!['S', 'u', 'n', 'd', 'a', 'y']
    }
}

/// Calls `NaiveDate::format("%A")`: the full English weekday name.
#[verifier::external_body]
fn chrono_weekday_name(day: i32) -> (r: String)
    requires
        valid_day(day as int),
    ensures
        r@ == weekday_name_text(weekday_of(day as int)),
{
    NaiveDate::from_num_days_from_ce_opt(day).unwrap().format("%A").to_string()
}

/// The last five characters of `t`: the `%m-%d` that ends a `%Y-%m-%d` text.
pub open spec fn month_day_of(t: Seq<char>) -> Seq<char> {
    t.skip(t.len() - 5)
}

/// Calls `NaiveDate::format("%m-%d")`: the month and the day, each as two
/// digits, with a dash between, which is how `%Y-%m-%d` ends.
#[verifier::external_body]
fn chrono_month_day(day: i32) -> (r: String)
    requires
        valid_day(day as int),
    ensures
        r@ == month_day_of(spec_date_text(day as int)),
{
    NaiveDate::from_num_days_from_ce_opt(day).unwrap().format("%m-%d").to_string()
}

/// A day of the years 1 to 9999, the years `%Y` writes as four digits.
pub open spec fn four_digit_year(d: int) -> bool {
    1 <= d <= 3652059
}

/// The date text `chrono` writes for `d` is one word, which it reads back as
/// `d`.
pub open spec fn date_text_reads_back(d: int) -> bool {
    is_word(spec_date_text(d)) && spec_parse_date(spec_date_text(d)) == Some(d)
}

/// Calls `NaiveDate::format("%Y-%m-%d")`: the result is named. For the years
/// 1 to 9999, `%Y` writes the year as four digits, and `%m` and `%d` the
/// month and day as two: the text is digits and dashes, which
/// `NaiveDate::parse_from_str` with the same format reads back as the date.
#[verifier::external_body]
fn chrono_date_text(day: i32) -> (r: String)
    requires
        valid_day(day as int),
    ensures
        r@ == spec_date_text(day as int),
        four_digit_year(day as int) ==> is_word(r@) && spec_parse_date(r@) == Some(day as int),
{
    NaiveDate::from_num_days_from_ce_opt(day).unwrap().format("%Y-%m-%d").to_string()
}

/// Calls `NaiveDate::parse_from_str(s, "%Y-%m-%d")`: the result is named, and a
/// date that `chrono` reads lies in its range.
#[verifier::external_body]
fn chrono_parse_date(s: &str) -> (r: Option<i32>)
    ensures
        match spec_parse_date(s@) {
            Some(n) => r == Some(n as i32) && valid_day(n),
            None => r is None,
        },
{
    NaiveDate::parse_from_str(s, "%Y-%m-%d").ok().map(|d| d.num_days_from_ce())
}

/// Calls `Datelike::iso_week`, then `IsoWeek::year` and `IsoWeek::week`: the
/// result is named; the week lies between 1 and 53.
#[verifier::external_body]
fn chrono_iso_week(day: i32) -> (r: (i32, u32))
    requires
        valid_day(day as int),
    ensures
        (r.0 as int, r.1 as int) == spec_iso_week(day as int),
        1 <= r.1 <= 53,
{
    let iso = NaiveDate::from_num_days_from_ce_opt(day).unwrap().iso_week();
    (iso.year(), iso.week())
}

impl Date {
    /// The date with day number `n`, when `chrono` represents it.
    pub fn from_day_number(n: i32) -> (r: Option<Date>)
        ensures
            valid_day(n as int) ==> (r matches Some(d) && d@ == n),
            !valid_day(n as int) ==> r is None,
    {
        if MIN_DAY <= n && n <= MAX_DAY {
            Some(Date { day: n })
        } else {
            None
        }
    }

    /// The date `year-month-day`, when it exists.
    pub fn from_ymd(year: i32, month: u32, day: u32) -> (r: Option<Date>)
        ensures
            match spec_ymd_day(year as int, month as int, day as int) {
                Some(n) => r matches Some(d) && d@ == n,
                None => r is None,
            },
    {
        match chrono_ymd_day(year, month, day) {
            Some(n) => Some(Date { day: n }),
            None => None,
        }
    }

    /// The day number (January 1 of year 1 is day 1).
    pub fn day_number(self) -> (r: i32)
        ensures
            r == self@,
            valid_day(r as int),
    {
        proof {
            use_type_invariant(&self);
        }
        self.day
    }

    /// Weekday, counted from Monday (0) to Sunday (6).
    pub fn weekday_from_monday(self) -> (r: u32)
        ensures
            r as int == weekday_of(self@),
            r < 7,
    {
        proof {
            use_type_invariant(&self);
        }
        chrono_weekday(self.day)
    }

    /// The date `days` days later (earlier for a negative `days`).
    pub fn add_days(self, days: i64) -> (r: Date)
        requires
            valid_day(self@ + days),
        ensures
            r@ == self@ + days,
    {
        Date { day: (self.day as i64 + days) as i32 }
    }

    /// Whether the date lies `days` days from this one and `chrono` represents it.
    pub fn can_add_days(self, days: i64) -> (r: bool)
        ensures
            r == valid_day(self@ + days),
    {
        let n = self.day as i128 + days as i128;
        MIN_DAY as i128 <= n && n <= MAX_DAY as i128
    }

    /// Whether this date comes before `other`.
    pub fn before(self, other: Date) -> (r: bool)
        ensures
            r == (self@ < other@),
    {
        self.day < other.day
    }

    /// Whether this date is `other`.
    pub fn same(self, other: Date) -> (r: bool)
        ensures
            r == (self@ == other@),
    {
        self.day == other.day
    }

    /// The date as `%Y-%m-%d`, such as `2025-12-29`.
    pub fn iso_text(self) -> (r: String)
        ensures
            r@ == spec_date_text(self@),
            four_digit_year(self@) ==> date_text_reads_back(self@),
    {
        proof {
            use_type_invariant(&self);
        }
        chrono_date_text(self.day)
    }

    /// The weekday as `%a`, such as `Mon`.
    pub fn weekday_abbrev(self) -> (r: String)
        ensures
            r@ == weekday_abbrev_text(weekday_of(self@)),
    {
        proof {
            use_type_invariant(&self);
        }
        chrono_weekday_abbrev(self.day)
    }

    /// The weekday as `%A`, such as `Monday`.
    pub fn weekday_name(self) -> (r: String)
        ensures
            r@ == weekday_name_text(weekday_of(self@)),
    {
        proof {
            use_type_invariant(&self);
        }
        chrono_weekday_name(self.day)
    }

    /// The month and day as `%m-%d`, such as `12-29`.
    pub fn month_day_text(self) -> (r: String)
        ensures
            r@ == month_day_of(spec_date_text(self@)),
    {
        proof {
            use_type_invariant(&self);
        }
        chrono_month_day(self.day)
    }

    /// The column label of the date in the week table: `%a %m-%d`, such as
    /// `Mon 12-29`.
    pub fn column_label(self) -> (r: String)
        ensures
            r@ == weekday_abbrev_text(weekday_of(self@)) + seq![' '] + month_day_of(
                spec_date_text(self@),
            ),
    {
        let mut r = self.weekday_abbrev();
        push_char(&mut r, ' ');
        let md = self.month_day_text();
        push_str(&mut r, md.as_str());
        r
    }

    /// The title of the date's pane: `%A %Y-%m-%d`, such as
    /// `Monday 2025-12-29`.
    pub fn title_label(self) -> (r: String)
        ensures
            r@ == weekday_name_text(weekday_of(self@)) + seq![' '] + spec_date_text(self@),
    {
        let mut r = self.weekday_name();
        push_char(&mut r, ' ');
        let t = self.iso_text();
        push_str(&mut r, t.as_str());
        r
    }

    /// The ISO 8601 week-numbering year and week number.
    pub fn iso_week(self) -> (r: (i32, u32))
        ensures
            (r.0 as int, r.1 as int) == spec_iso_week(self@),
            1 <= r.1 <= 53,
    {
        proof {
            use_type_invariant(&self);
        }
        chrono_iso_week(self.day)
    }

    /// The date written as `%Y-%m-%d` in `s`, if `s` holds one.
    pub fn parse_iso(s: &str) -> (r: Option<Date>)
        ensures
            match spec_parse_date(s@) {
                Some(n) => r matches Some(d) && d@ == n,
                None => r is None,
            },
    {
        match chrono_parse_date(s) {
            Some(n) => Some(Date { day: n }),
            None => None,
        }
    }
}

} // verus!
