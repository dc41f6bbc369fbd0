//! Durations written as `1d 2h 15m`, where a day is eight working hours.
use vstd::prelude::*;

use crate::text::{
    char_is_ascii, chars_of, decimal, is_digit, is_word, is_ws, lemma_decimal_digits,
    lemma_split_ws_join, lemma_trim_of_trimmed, fits_i64, is_ascii_char, join_with, parse_i64_at,
    parse_i64_spec, push_char, push_decimal, push_str, seqs_of, skip_ws_backward,
    skip_ws_forward, split_whitespace, split_ws, string_of, trim,
};

verus! {

/// Minutes in an hour.
pub const MINUTES_PER_HOUR: i64 = 60;

/// Minutes in a (working) day of eight hours.
pub const MINUTES_PER_DAY: i64 = 480;

/// A non-negative number of minutes.
#[derive(Debug, Clone, Copy, PartialEq, Eq, PartialOrd, Ord, Structural)]
pub struct TimeAmount {
    minutes: i64,
}

/// Why a text is not a duration.
#[derive(Debug, Clone)]
pub enum TimeError {
    Empty,
    InvalidToken(String),
    InvalidNumber(String),
    Negative,
}

/// The content of a [`TimeError`].
pub enum TimeErrorView {
    Empty,
    InvalidToken(Seq<char>),
    InvalidNumber(Seq<char>),
    Negative,
}

impl View for TimeError {
    type V = TimeErrorView;

    open spec fn view(&self) -> TimeErrorView {
        match self {
            TimeError::Empty => TimeErrorView::Empty,
            TimeError::InvalidToken(t) => TimeErrorView::InvalidToken(t@),
            TimeError::InvalidNumber(t) => TimeErrorView::InvalidNumber(t@),
            TimeError::Negative => TimeErrorView::Negative,
        }
    }
}

impl TimeAmount {
    #[verifier::type_invariant]
    spec fn non_negative(self) -> bool {
        self.minutes >= 0
    }
}

impl View for TimeAmount {
    type V = nat;

    closed spec fn view(&self) -> nat {
        self.minutes as nat
    }
}

/// The outcome of reading a duration: its minutes or an error.
pub enum TimeParse {
    Minutes(int),
    Failed(TimeErrorView),
}

/// Adds `x` minutes, read from the word `t`, to the running total `acc`;
/// a product or a total beyond `i64` makes the number invalid.
pub open spec fn add_minutes(t: Seq<char>, acc: int, x: int) -> TimeParse {
    if fits_i64(x) && fits_i64(acc + x) {
        TimeParse::Minutes(acc + x)
    } else {
        TimeParse::Failed(TimeErrorView::InvalidNumber(t))
    }
}

/// What one word `t` of a duration does to the running total `acc`: a number
/// followed by one of the units `d`, `h` or `m`. A word of one character, or
/// one whose last character is not ASCII, is no such word.
pub open spec fn token_step(t: Seq<char>, acc: int) -> TimeParse {
    if t.len() <= 1 || !is_ascii_char(t.last()) {
        TimeParse::Failed(TimeErrorView::InvalidToken(t))
    } else {
        match parse_i64_spec(t.drop_last()) {
            None => TimeParse::Failed(TimeErrorView::InvalidNumber(t)),
            Some(v) => {
                if t.last() == 'd' {
                    add_minutes(t, acc, v * 480)
                } else if t.last() == 'h' {
                    add_minutes(t, acc, v * 60)
                } else if t.last() == 'm' {
                    add_minutes(t, acc, v)
                } else {
                    TimeParse::Failed(TimeErrorView::InvalidToken(t))
                }
            },
        }
    }
}

/// The words `toks`, read in order from the running total `acc`.
pub open spec fn tokens_total(toks: Seq<Seq<char>>, acc: int) -> TimeParse
    decreases toks.len(),
{
    if toks.len() == 0 {
        TimeParse::Minutes(acc)
    } else {
        match token_step(toks[0], acc) {
            TimeParse::Minutes(next) => tokens_total(toks.drop_first(), next),
            other => other,
        }
    }
}

/// What [`TimeAmount::parse`] makes of the text `s`.
pub open spec fn time_parse(s: Seq<char>) -> TimeParse {
    let t = trim(s);
    if t.len() == 0 {
        TimeParse::Failed(TimeErrorView::Empty)
    } else {
        match tokens_total(split_ws(t), 0) {
            TimeParse::Minutes(v) => if v < 0 {
                TimeParse::Failed(TimeErrorView::Negative)
            } else {
                TimeParse::Minutes(v)
            },
            other => other,
        }
    }
}

/// `v` followed by the unit letter `u`.
pub open spec fn unit_text(v: nat, u: char) -> Seq<char> {
    decimal(v).push(u)
}

/// The words that [`TimeAmount::format`] writes for `m` minutes: days, hours
/// (under 8) and minutes (under 60), each only when not zero, and `0m` for zero.
pub open spec fn format_parts(m: nat) -> Seq<Seq<char>> {
    let days = m / 480;
    let rest = m % 480;
    let hours = rest / 60;
    let minutes = rest % 60;
    let p1: Seq<Seq<char>> = if days > 0 {
        seq![unit_text(days, 'd')]
    } else {
        seq![]
    };
    let p2 = if hours > 0 {
        p1.push(unit_text(hours, 'h'))
    } else {
        p1
    };
    if minutes > 0 || p2.len() == 0 {
        p2.push(unit_text(minutes, 'm'))
    } else {
        p2
    }
}

/// The text of `m` minutes, such as `1d 2h 15m`.
pub open spec fn format_text(m: nat) -> Seq<char> {
    join_with(format_parts(m), seq![' '])
}

/// The text of `format!("{:?}", s)` for a string `s`: `s` between double quotes,
/// with the escapes of `char::escape_debug`.
pub uninterp spec fn spec_debug_quoted(s: Seq<char>) -> Seq<char>;

/// Calls std's `Debug` formatting of a string (`format!("{:?}", s)`): the
/// contract only names its result.
#[verifier::external_body]
fn debug_quoted(s: &String) -> (r: String)
    ensures
        r@ == spec_debug_quoted(s@),
{
    format!("{:?}", s)
}

/// The text of `format!("{:?}", err)` for a [`TimeError`].
pub open spec fn time_error_debug_text(e: TimeErrorView) -> Seq<char> {
    match e {
        TimeErrorView::Empty => seq!['E', 'm', 'p', 't', 'y'],
        TimeErrorView::InvalidToken(t) => seq![
            'I',
            'n',
            'v',
            'a',
            'l',
            'i',
            'd',
            'T',
            'o',
            'k',
            'e',
            'n',
            '(',
        ] + spec_debug_quoted(t) + seq![')'],
        TimeErrorView::InvalidNumber(t) => seq![
            'I',
            'n',
            'v',
            'a',
            'l',
            'i',
            'd',
            'N',
            'u',
            'm',
            'b',
            'e',
            'r',
            '(',
        ] + spec_debug_quoted(t) + seq![')'],
        TimeErrorView::Negative => seq!['N', 'e', 'g', 'a', 't', 'i', 'v', 'e'],
    }
}

/// The text of `err.to_string()` for a [`TimeError`].
pub open spec fn time_error_message(e: TimeErrorView) -> Seq<char> {
    match e {
        TimeErrorView::Empty => seq!['e', 'm', 'p', 't', 'y', ' ', 't', 'i', 'm', 'e'],
        TimeErrorView::InvalidToken(t) => seq![
            'i',
            'n',
            'v',
            'a',
            'l',
            'i',
            'd',
            ' ',
            't',
            'o',
            'k',
            'e',
            'n',
            ' ',
            '\'',
        ] + t + seq!['\''],
        TimeErrorView::InvalidNumber(t) => seq![
            'i',
            'n',
            'v',
            'a',
            'l',
            'i',
            'd',
            ' ',
            'n',
            'u',
            'm',
            'b',
            'e',
            'r',
            ' ',
            'i',
            'n',
            ' ',
            '\'',
        ] + t + seq!['\''],
        TimeErrorView::Negative => seq![
            'n',
            'e',
            'g',
            'a',
            't',
            'i',
            'v',
            'e',
            ' ',
            't',
            'i',
            'm',
            'e',
        ],
    }
}

impl TimeError {
    /// The `Debug` text of the error, as `{:?}` writes it.
    pub fn debug_text(&self) -> (r: String)
        ensures
            r@ == time_error_debug_text(self@),
    {
        let mut r = String::new();
        match self {
            TimeError::Empty => {
                push_str(&mut r, "Empty");
                proof {
                    reveal_strlit("Empty");
                }
            },
            TimeError::InvalidToken(t) => {
                push_str(&mut r, "InvalidToken(");
                let q = debug_quoted(t);
                push_str(&mut r, q.as_str());
                push_char(&mut r, ')');
                proof {
                    reveal_strlit("InvalidToken(");
                }
            },
            TimeError::InvalidNumber(t) => {
                push_str(&mut r, "InvalidNumber(");
                let q = debug_quoted(t);
                push_str(&mut r, q.as_str());
                push_char(&mut r, ')');
                proof {
                    reveal_strlit("InvalidNumber(");
                }
            },
            TimeError::Negative => {
                push_str(&mut r, "Negative");
                proof {
                    reveal_strlit("Negative");
                }
            },
        }
        assert(r@ =~= time_error_debug_text(self@));
        r
    }

    /// The message of the error, as `to_string()` writes it.
    pub fn message(&self) -> (r: String)
        ensures
            r@ == time_error_message(self@),
    {
        let mut r = String::new();
        match self {
            TimeError::Empty => {
                push_str(&mut r, "empty time");
                proof {
                    reveal_strlit("empty time");
                }
            },
            TimeError::InvalidToken(t) => {
                push_str(&mut r, "invalid token '");
                push_str(&mut r, t.as_str());
                push_char(&mut r, '\'');
                proof {
                    reveal_strlit("invalid token '");
                }
            },
            TimeError::InvalidNumber(t) => {
                push_str(&mut r, "invalid number in '");
                push_str(&mut r, t.as_str());
                push_char(&mut r, '\'');
                proof {
                    reveal_strlit("invalid number in '");
                }
            },
            TimeError::Negative => {
                push_str(&mut r, "negative time");
                proof {
                    reveal_strlit("negative time");
                }
            },
        }
        assert(r@ =~= time_error_message(self@));
        r
    }
}

/// The outcome of reading a duration, as computed.
pub enum TimeParseResult {
    Parsed(TimeAmount),
    Rejected(TimeError),
}

/// Whether a computed outcome is the outcome `p` of the specification.
pub open spec fn parse_result_matches(r: TimeParseResult, p: TimeParse) -> bool {
    match p {
        TimeParse::Minutes(v) => r matches TimeParseResult::Parsed(t) && t@ == v,
        TimeParse::Failed(e) => r matches TimeParseResult::Rejected(err) && err@ == e,
    }
}

fn token_value(t: &Vec<char>, acc: i64) -> (r: Result<i64, TimeParseResult>)
    ensures
        match token_step(t@, acc as int) {
            TimeParse::Minutes(v) => r == Ok::<i64, TimeParseResult>(v as i64),
            other => r matches Err(e) && parse_result_matches(e, other),
        },
{
    let n = t.len();
    assert(t@.subrange(0, n as int) =~= t@);
    if n <= 1 || !char_is_ascii(t[n - 1]) {
        return Err(TimeParseResult::Rejected(TimeError::InvalidToken(string_of(t, 0, n))));
    }
    assert(t@.subrange(0, n - 1) =~= t@.drop_last());
    let value = match parse_i64_at(t, 0, n - 1) {
        None => {
            return Err(TimeParseResult::Rejected(TimeError::InvalidNumber(string_of(t, 0, n))));
        },
        Some(v) => v,
    };
    let unit = t[n - 1];
    let x: i128 = if unit == 'd' {
        value as i128 * 480
    } else if unit == 'h' {
        value as i128 * 60
    } else if unit == 'm' {
        value as i128
    } else {
        return Err(TimeParseResult::Rejected(TimeError::InvalidToken(string_of(t, 0, n))));
    };
    let total: i128 = acc as i128 + x;
    if x < i64::MIN as i128 || x > i64::MAX as i128 || total < i64::MIN as i128 || total
        > i64::MAX as i128 {
        return Err(TimeParseResult::Rejected(TimeError::InvalidNumber(string_of(t, 0, n))));
    }
    Ok(total as i64)
}

/// Reads the duration written in `s[lo..hi]`.
pub fn parse_time_at(s: &Vec<char>, lo: usize, hi: usize) -> (r: TimeParseResult)
    requires
        lo <= hi <= s.len(),
    ensures
        parse_result_matches(r, time_parse(s@.subrange(lo as int, hi as int))),
{
    let ghost sub = s@.subrange(lo as int, hi as int);
    let a = skip_ws_forward(s, lo, hi);
    let b = skip_ws_backward(s, a, hi);
    assert(s@.subrange(a as int, b as int) == trim(sub));
    if a == b {
        return TimeParseResult::Rejected(TimeError::Empty);
    }
    let toks = split_whitespace(s, a, b);
    let ghost all = seqs_of(toks@);
    let mut acc: i64 = 0;
    let mut i: usize = 0;
    assert(all.len() == toks@.len());
    assert(all.subrange(0, all.len() as int) =~= all);
    while i < toks.len()
        invariant
            i <= toks.len(),
            all == seqs_of(toks@),
            all.len() == toks@.len(),
            sub == s@.subrange(lo as int, hi as int),
            trim(sub).len() > 0,
            split_ws(trim(sub)) == all,
            tokens_total(all, 0) == tokens_total(all.subrange(i as int, all.len() as int), acc as int),
        decreases toks.len() - i,
    {
        let ghost rest = all.subrange(i as int, all.len() as int);
        assert(rest[0] == toks@[i as int]@);
        assert(rest.drop_first() =~= all.subrange(i + 1, all.len() as int));
        match token_value(&toks[i], acc) {
            Ok(v) => {
                acc = v;
            },
            Err(e) => {
                assert(tokens_total(rest, acc as int) == token_step(rest[0], acc as int));
                return e;
            },
        }
        i = i + 1;
    }
    assert(all.subrange(i as int, all.len() as int) =~= seq![]);
    if acc < 0 {
        TimeParseResult::Rejected(TimeError::Negative)
    } else {
        TimeParseResult::Parsed(TimeAmount { minutes: acc })
    }
}

impl TimeAmount {
    /// `minutes` minutes, or `Negative` for a negative number.
    pub fn from_minutes(minutes: i64) -> (r: Result<TimeAmount, TimeError>)
        ensures
            minutes < 0 ==> r matches Err(TimeError::Negative),
            minutes >= 0 ==> (r matches Ok(t) && t@ == minutes),
    {
        if minutes < 0 {
            return Err(TimeError::Negative);
        }
        Ok(TimeAmount { minutes })
    }

    /// The number of minutes.
    pub fn minutes(self) -> (r: i64)
        ensures
            r == self@,
            r >= 0,
    {
        proof {
            use_type_invariant(&self);
        }
        self.minutes
    }

    /// Reads a duration such as `1d 2h 15m` or `90m`: whitespace-separated
    /// words, each a number and a unit, `d` (8 hours), `h` or `m`. A word
    /// that is not a number and a unit is an `InvalidToken`; a number that
    /// does not read, or whose minutes or running total go beyond `i64`, is
    /// an `InvalidNumber`.
    pub fn parse(input: &str) -> (r: Result<TimeAmount, TimeError>)
        ensures
            match time_parse(input@) {
                TimeParse::Minutes(v) => r matches Ok(t) && t@ == v,
                TimeParse::Failed(e) => r matches Err(err) && err@ == e,
            },
    {
        let s = chars_of(input);
        assert(s@.subrange(0, s.len() as int) =~= s@);
        match parse_time_at(&s, 0, s.len()) {
            TimeParseResult::Parsed(t) => Ok(t),
            TimeParseResult::Rejected(e) => Err(e),
        }
    }

    /// The text of the duration: `1d 2h 15m`, each unit only when not zero,
    /// `0m` for zero.
    pub fn format(self) -> (r: String)
        ensures
            r@ == format_text(self@),
    {
        let m = self.minutes();
        let days = m / MINUTES_PER_DAY;
        let remaining = m % MINUTES_PER_DAY;
        let hours = remaining / MINUTES_PER_HOUR;
        let minutes = remaining % MINUTES_PER_HOUR;
        let ghost parts = format_parts(self@);
        let mut r = String::new();
        let mut count: usize = 0;
        if days > 0 {
            push_decimal(&mut r, days as u64);
            push_char(&mut r, 'd');
            count = 1;
        }
        let ghost p1: Seq<Seq<char>> = if days > 0 {
            seq![unit_text(days as nat, 'd')]
        } else {
            seq![]
        };
        assert(r@ =~= join_with(p1, seq![' ']));
        if hours > 0 {
            if count > 0 {
                push_char(&mut r, ' ');
            }
            push_decimal(&mut r, hours as u64);
            push_char(&mut r, 'h');
            count = count + 1;
        }
        let ghost p2: Seq<Seq<char>> = if hours > 0 {
            p1.push(unit_text(hours as nat, 'h'))
        } else {
            p1
        };
        if hours > 0 {
            assert(p2.drop_last() =~= p1);
        }
        assert(r@ =~= join_with(p2, seq![' ']));
        assert(count == p2.len());
        if minutes > 0 || count == 0 {
            if count > 0 {
                push_char(&mut r, ' ');
            }
            push_decimal(&mut r, minutes as u64);
            push_char(&mut r, 'm');
        }
        let ghost p3: Seq<Seq<char>> = if minutes > 0 || p2.len() == 0 {
            p2.push(unit_text(minutes as nat, 'm'))
        } else {
            p2
        };
        if minutes > 0 || count == 0 {
            assert(p3.drop_last() =~= p2);
        }
        assert(p3 == parts);
        assert(r@ =~= join_with(p3, seq![' ']));
        r
    }
}

// ---------------------------------------------------------------------------
// Laws
// ---------------------------------------------------------------------------

proof fn lemma_unit_text(n: nat, u: char)
    requires
        n <= i64::MAX,
        !is_ws(u),
        is_ascii_char(u),
        u != '+' && u != '-',
    ensures
        is_word(unit_text(n, u)),
        unit_text(n, u).len() >= 2,
        unit_text(n, u).last() == u,
        unit_text(n, u).drop_last() == decimal(n),
        parse_i64_spec(decimal(n)) == Some(n as int),
        !is_ws(unit_text(n, u)[0]),
{
    lemma_decimal_digits(n);
    let t = unit_text(n, u);
    assert(t.drop_last() =~= decimal(n));
    assert(is_digit(decimal(n)[0]));
    assert forall|i: int| 0 <= i < t.len() implies !is_ws(#[trigger] t[i]) by {
        if i < t.len() - 1 {
            assert(t[i] == decimal(n)[i]);
            assert(is_digit(decimal(n)[i]));
        }
    }
}

/// A unit letter of the time format.
pub open spec fn is_unit_letter(c: char) -> bool {
    c == 'd' || c == 'h' || c == 'm'
}

/// Digits and unit letters, or spaces between them, starting with a digit
/// and ending with a unit letter.
pub open spec fn time_chars(s: Seq<char>) -> bool {
    &&& s.len() > 0
    &&& is_digit(s[0])
    &&& is_unit_letter(s.last())
    &&& forall|i: int|
        0 <= i < s.len() ==> is_digit(#[trigger] s[i]) || is_unit_letter(s[i]) || s[i] == ' '
}

proof fn lemma_unit_text_chars(n: nat, u: char)
    requires
        is_unit_letter(u),
    ensures
        time_chars(unit_text(n, u)),
{
    lemma_decimal_digits(n);
    let t = unit_text(n, u);
    assert(t[0] == decimal(n)[0]);
    assert forall|i: int| 0 <= i < t.len() implies is_digit(#[trigger] t[i]) || is_unit_letter(t[i])
        || t[i] == ' ' by {
        if i < t.len() - 1 {
            assert(t[i] == decimal(n)[i]);
        }
    }
}

proof fn lemma_join_time_chars(parts: Seq<Seq<char>>)
    requires
        parts.len() > 0,
        forall|k: int| 0 <= k < parts.len() ==> time_chars(#[trigger] parts[k]),
    ensures
        time_chars(join_with(parts, seq![' '])),
    decreases parts.len(),
{
    if parts.len() > 1 {
        let p = parts.drop_last();
        assert forall|k: int| 0 <= k < p.len() implies time_chars(#[trigger] p[k]) by {
            assert(p[k] == parts[k]);
        }
        lemma_join_time_chars(p);
        let a = join_with(p, seq![' ']);
        let l = parts.last();
        assert(time_chars(l));
        let j = a + seq![' '] + l;
        assert(join_with(parts, seq![' ']) == j);
        assert(j[0] == a[0]);
        assert(j.last() == l.last());
        assert forall|i: int| 0 <= i < j.len() implies is_digit(#[trigger] j[i]) || is_unit_letter(
            j[i],
        ) || j[i] == ' ' by {
            if i < a.len() {
                assert(j[i] == a[i]);
            } else if i > a.len() {
                assert(j[i] == l[i - a.len() - 1]);
            }
        }
    } else {
        assert(time_chars(parts[0]));
    }
}

/// The text of a duration is made of digits, unit letters and spaces; it
/// starts with a digit and ends with a unit letter.
pub proof fn lemma_format_text_chars(m: nat)
    ensures
        time_chars(format_text(m)),
{
    let days = m / 480;
    let rest = m % 480;
    let hours = rest / 60;
    let minutes = rest % 60;
    lemma_unit_text_chars(days, 'd');
    lemma_unit_text_chars(hours, 'h');
    lemma_unit_text_chars(minutes, 'm');
    let ps = format_parts(m);
    assert(ps.len() > 0);
    assert forall|k: int| 0 <= k < ps.len() implies time_chars(#[trigger] ps[k]) by {
        assert(ps[k] == unit_text(days, 'd') || ps[k] == unit_text(hours, 'h') || ps[k]
            == unit_text(minutes, 'm'));
    }
    lemma_join_time_chars(ps);
}

/// Reading the text that [`TimeAmount::format`] writes gives back the same
/// number of minutes: `format` and `parse` round-trip.
pub proof fn lemma_format_parse_roundtrip(m: nat)
    requires
        m <= i64::MAX,
    ensures
        time_parse(format_text(m)) == TimeParse::Minutes(m as int),
{
    let days: nat = m / 480;
    let rest: nat = m % 480;
    let hours: nat = rest / 60;
    let minutes: nat = rest % 60;
    let dm: int = (days * 480) as int;
    let hm: int = (hours * 60) as int;
    assert(days * 480 + hours * 60 + minutes == m);
    lemma_unit_text(days, 'd');
    lemma_unit_text(hours, 'h');
    lemma_unit_text(minutes, 'm');
    let parts = format_parts(m);
    assert forall|i: int| 0 <= i < parts.len() implies is_word(#[trigger] parts[i]) by {}
    lemma_split_ws_join(parts);
    let text = format_text(m);
    // The text starts with a digit and ends with a unit letter.
    assert(parts.len() >= 1);
    assert(text.len() > 0 && !is_ws(text[0]) && !is_ws(text.last())) by {
        lemma_join_ends(parts);
    }
    lemma_trim_of_trimmed(text);
    let t_d = unit_text(days, 'd');
    let t_h = unit_text(hours, 'h');
    let t_m = unit_text(minutes, 'm');
    assert(token_step(t_d, 0) == TimeParse::Minutes(dm));
    assert(token_step(t_h, dm) == TimeParse::Minutes(dm + hm));
    assert(token_step(t_m, dm + hm) == TimeParse::Minutes(m as int));
    assert(token_step(t_h, 0) == TimeParse::Minutes(hm));
    assert(token_step(t_m, 0) == TimeParse::Minutes(minutes as int));
    assert(token_step(t_m, hm) == TimeParse::Minutes(hm + minutes));
    assert(token_step(t_m, dm) == TimeParse::Minutes(dm + minutes));
    reveal_with_fuel(tokens_total, 4);
    let e: Seq<Seq<char>> = seq![];
    assert(trim(text) == text);
    assert(split_ws(text) == parts);
    assert(tokens_total(e, m as int) == TimeParse::Minutes(m as int));
    if days > 0 {
        if hours > 0 {
            if minutes > 0 {
                assert(parts =~= seq![t_d, t_h, t_m]);
                assert(parts.drop_first().drop_first().drop_first() =~= e);
            } else {
                assert(parts =~= seq![t_d, t_h]);
                assert(parts.drop_first().drop_first() =~= e);
            }
        } else {
            if minutes > 0 {
                assert(parts =~= seq![t_d, t_m]);
                assert(parts.drop_first().drop_first() =~= e);
            } else {
                assert(parts =~= seq![t_d]);
                assert(parts.drop_first() =~= e);
            }
        }
    } else {
        if hours > 0 {
            if minutes > 0 {
                assert(parts =~= seq![t_h, t_m]);
                assert(parts.drop_first().drop_first() =~= e);
            } else {
                assert(parts =~= seq![t_h]);
                assert(parts.drop_first() =~= e);
            }
        } else {
            assert(parts =~= seq![t_m]);
            assert(parts.drop_first() =~= e);
        }
    }
}

proof fn lemma_join_ends(parts: Seq<Seq<char>>)
    requires
        parts.len() >= 1,
        forall|i: int| 0 <= i < parts.len() ==> is_word(#[trigger] parts[i]),
    ensures
        join_with(parts, seq![' ']).len() > 0,
        join_with(parts, seq![' '])[0] == parts[0][0],
        join_with(parts, seq![' ']).last() == parts.last().last(),
    decreases parts.len(),
{
    if parts.len() > 1 {
        let d = parts.drop_last();
        assert forall|i: int| 0 <= i < d.len() implies is_word(#[trigger] d[i]) by {
            assert(d[i] == parts[i]);
        }
        lemma_join_ends(d);
        assert(is_word(parts.last()));
    } else {
        assert(is_word(parts[0]));
    }
}

} // verus!
