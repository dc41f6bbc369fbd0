//! What the command line asks for, once parsed.
use vstd::prelude::*;

use crate::date::{spec_parse_date, Date};
use crate::text::push_str;

verus! {

/// The date whose ISO week number is asked for: none without `--week-number`,
/// `today` for a bare `--week-number`, else the date given.
pub fn requested_week_number_date(week_number: Option<Option<Date>>, today: Date) -> (r: Option<
    Date,
>)
    ensures
        match week_number {
            None => r is None,
            Some(None) => r == Some(today),
            Some(Some(d)) => r == Some(d),
        },
{
    match week_number {
        None => None,
        Some(Some(date)) => Some(date),
        Some(None) => Some(today),
    }
}

/// The error for a date that is not written `YYYY-MM-DD`.
pub open spec fn date_format_error() -> Seq<char> {
    seq![
        'e',
        'x',
        'p',
        'e',
        'c',
        't',
        'e',
        'd',
        ' ',
        'd',
        'a',
        't',
        'e',
        ' ',
        'i',
        'n',
        ' ',
        'Y',
        'Y',
        'Y',
        'Y',
        '-',
        'M',
        'M',
        '-',
        'D',
        'D',
        ' ',
        'f',
        'o',
        'r',
        'm',
        'a',
        't',
    ]
}

/// Reads a `--week-number` value written `YYYY-MM-DD`.
pub fn parse_date(input: &str) -> (r: Result<Date, String>)
    ensures
        match spec_parse_date(input@) {
            Some(d) => r matches Ok(x) && x@ == d,
            None => r matches Err(e) && e@ == date_format_error(),
        },
{
    match Date::parse_iso(input) {
        Some(d) => Ok(d),
        None => {
            let mut e = String::new();
            push_str(&mut e, "expected date in YYYY-MM-DD format");
            proof {
                reveal_strlit("expected date in YYYY-MM-DD format");
            }
            assert(e@ =~= date_format_error());
            Err(e)
        },
    }
}

} // verus!
