//! Reading the ledger text of a week.
use vstd::prelude::*;

use crate::date::{spec_parse_date, Date};
use crate::ledger::model::{
    day_pos, lemma_with_day_sorted, with_day, Day, DayView, Entry, EntryView, SubItem,
    SubItemView, WeekData, WeekView,
};
use crate::text::{
    chars_of, decimal, ends_with_at, has_prefix, has_suffix, last_index_of, lines_of, push_char,
    push_chars, push_decimal, push_str, rfind_at, seqs_of, skip_ws_backward, skip_ws_forward,
    split_lines, split_whitespace, split_ws, starts_with_at, string_of, trim, trim_end,
};
use crate::time_amount::{
    parse_time_at, time_error_debug_text, time_parse, TimeAmount, TimeParse, TimeParseResult,
};

verus! {

/// An entry or sub-item line, as read.
pub struct ParsedLine {
    pub name: String,
    pub time: Option<TimeAmount>,
    pub checked: bool,
    pub is_sub_item: bool,
    pub time_error: Option<String>,
}

pub struct ParsedLineView {
    pub name: Seq<char>,
    pub time: Option<nat>,
    pub checked: bool,
    pub is_sub_item: bool,
    pub time_error: Option<Seq<char>>,
}

impl View for ParsedLine {
    type V = ParsedLineView;

    open spec fn view(&self) -> ParsedLineView {
        ParsedLineView {
            name: self.name@,
            time: crate::ledger::model::opt_minutes(self.time),
            checked: self.checked,
            is_sub_item: self.is_sub_item,
            time_error: match self.time_error {
                Some(e) => Some(e@),
                None => None,
            },
        }
    }
}

pub open spec fn sub_prefix() -> Seq<char> {
    seq![' ', ' ', '-', ' ']
}

pub open spec fn entry_prefix() -> Seq<char> {
    seq!['-', ' ']
}

pub open spec fn checked_mark() -> Seq<char> {
    seq!['[', 'x', ']']
}

/// Whether the line is a sub-item or an entry, and its text after the marker
/// and the `[x]`, trimmed at the end; whether it had the `[x]`.
pub open spec fn entry_parts(line: Seq<char>) -> Option<(bool, Seq<char>, bool)> {
    let (known, is_sub, content) = if has_prefix(line, sub_prefix()) {
        (true, true, line.skip(4))
    } else if has_prefix(line, entry_prefix()) {
        (true, false, line.skip(2))
    } else {
        (false, false, line)
    };
    if !known {
        None
    } else {
        let w0 = trim_end(content);
        let checked = has_suffix(w0, checked_mark());
        let w1 = if checked {
            trim_end(w0.take(w0.len() - 3))
        } else {
            w0
        };
        Some((is_sub, w1, checked))
    }
}

/// The text after the last `@`, trimmed, when it is not empty.
pub open spec fn time_text_of(w: Seq<char>) -> Option<Seq<char>> {
    match last_index_of(w, '@') {
        Some(p) => {
            let after = trim(w.skip(p + 1));
            if after.len() > 0 {
                Some(after)
            } else {
                None
            }
        },
        None => None,
    }
}

/// The name of the entry: the text before the last `@`, trimmed.
pub open spec fn name_of(w: Seq<char>) -> Seq<char> {
    match last_index_of(w, '@') {
        Some(p) => trim(trim_end(w.take(p))),
        None => trim(w),
    }
}

/// `Invalid time 'text': error`.
pub open spec fn invalid_time_text(after: Seq<char>, err: Seq<char>) -> Seq<char> {
    seq!['I', 'n', 'v', 'a', 'l', 'i', 'd', ' ', 't', 'i', 'm', 'e', ' ', '\''] + after + seq![
        '\'',
        ':',
        ' ',
    ] + err
}

/// What an entry or sub-item line holds: its kind, name, time, `[x]` mark and
/// why its time could not be read; `None` for other lines and empty names.
pub open spec fn parse_entry_spec(line: Seq<char>) -> Option<ParsedLineView> {
    match entry_parts(line) {
        None => None,
        Some((is_sub, w, checked)) => {
            let name = name_of(w);
            let (time, time_error) = match time_text_of(w) {
                Some(a) => match time_parse(a) {
                    TimeParse::Minutes(v) => (Some(v as nat), None),
                    TimeParse::Failed(e) => (
                        None,
                        Some(invalid_time_text(a, time_error_debug_text(e))),
                    ),
                },
                None => (None, None),
            };
            if name.len() == 0 {
                None
            } else {
                Some(
                    ParsedLineView { name, time, checked, is_sub_item: is_sub, time_error },
                )
            }
        },
    }
}

/// The time and time error that the text `w` holds after its last `@`.
pub open spec fn time_fields(w: Seq<char>) -> (Option<nat>, Option<Seq<char>>) {
    match time_text_of(w) {
        Some(a) => match time_parse(a) {
            TimeParse::Minutes(v) => (Some(v as nat), None),
            TimeParse::Failed(e) => (None, Some(invalid_time_text(a, time_error_debug_text(e)))),
        },
        None => (None, None),
    }
}

fn entry_parts_at(s: &Vec<char>, lo: usize, hi: usize) -> (r: Option<(bool, usize, usize, bool)>)
    requires
        lo <= hi <= s.len(),
    ensures
        match entry_parts(s@.subrange(lo as int, hi as int)) {
            Some((is_sub, w, checked)) => r matches Some((rs, a, b, rc)) && rs == is_sub && rc
                == checked && lo <= a <= b <= hi && s@.subrange(a as int, b as int) == w,
            None => r is None,
        },
{
    let ghost line = s@.subrange(lo as int, hi as int);
    let sp = vec![' ', ' ', '-', ' '];
    let ep = vec!['-', ' '];
    assert(sp@ =~= sub_prefix());
    assert(ep@ =~= entry_prefix());
    let (is_sub, start) = if starts_with_at(s, lo, hi, &sp) {
        (true, lo + 4)
    } else if starts_with_at(s, lo, hi, &ep) {
        (false, lo + 2)
    } else {
        return None;
    };
    assert(s@.subrange(start as int, hi as int) =~= line.skip(start - lo));
    let mut end = skip_ws_backward(s, start, hi);
    let mark = vec!['[', 'x', ']'];
    assert(mark@ =~= checked_mark());
    let checked = ends_with_at(s, start, end, &mark);
    if checked {
        assert(s@.subrange(start as int, end - 3) =~= s@.subrange(start as int, end as int).take(
            end - 3 - start,
        ));
        end = skip_ws_backward(s, start, end - 3);
    }
    Some((is_sub, start, end, checked))
}

fn entry_fields_at(s: &Vec<char>, start: usize, end: usize) -> (r: (
    usize,
    usize,
    Option<TimeAmount>,
    Option<String>,
))
    requires
        start <= end <= s.len(),
    ensures
        start <= r.0 <= r.1 <= end,
        s@.subrange(r.0 as int, r.1 as int) == name_of(s@.subrange(start as int, end as int)),
        (crate::ledger::model::opt_minutes(r.2), match r.3 {
            Some(e) => Some(e@),
            None => None,
        }) == time_fields(s@.subrange(start as int, end as int)),
{
    let ghost w = s@.subrange(start as int, end as int);
    let mut time: Option<TimeAmount> = None;
    let mut time_error: Option<String> = None;
    proof {
        crate::text::lemma_last_index_of(w, '@');
    }
    match rfind_at(s, start, end, '@') {
        Some(at) => {
            let ghost p = at - start;
            let b = skip_ws_backward(s, start, at);
            let name_lo = skip_ws_forward(s, start, b);
            let name_hi = skip_ws_backward(s, name_lo, b);
            assert(s@.subrange(start as int, at as int) =~= w.take(p));
            assert(s@.subrange(at + 1, end as int) =~= w.skip(p + 1));
            let a1 = skip_ws_forward(s, at + 1, end);
            let a2 = skip_ws_backward(s, a1, end);
            assert(s@.subrange(a1 as int, a2 as int) == trim(w.skip(p + 1)));
            if a1 < a2 {
                match parse_time_at(s, a1, a2) {
                    TimeParseResult::Parsed(t) => {
                        time = Some(t);
                    },
                    TimeParseResult::Rejected(e) => {
                        let mut msg = String::new();
                        push_str(&mut msg, "Invalid time '");
                        proof {
                            reveal_strlit("Invalid time '");
                        }
                        push_chars(&mut msg, s, a1, a2);
                        push_char(&mut msg, '\'');
                        push_char(&mut msg, ':');
                        push_char(&mut msg, ' ');
                        let d = e.debug_text();
                        push_str(&mut msg, d.as_str());
                        assert(msg@ =~= invalid_time_text(
                            s@.subrange(a1 as int, a2 as int),
                            time_error_debug_text(e@),
                        ));
                        time_error = Some(msg);
                    },
                }
            }
            (name_lo, name_hi, time, time_error)
        },
        None => {
            let name_lo = skip_ws_forward(s, start, end);
            let name_hi = skip_ws_backward(s, name_lo, end);
            (name_lo, name_hi, time, time_error)
        },
    }
}

/// Reads the entry or sub-item line `s[lo..hi]`.
pub fn parse_entry_line_at(s: &Vec<char>, lo: usize, hi: usize) -> (r: Option<ParsedLine>)
    requires
        lo <= hi <= s.len(),
    ensures
        match parse_entry_spec(s@.subrange(lo as int, hi as int)) {
            Some(p) => r matches Some(x) && x@ == p,
            None => r is None,
        },
{
    let ghost line = s@.subrange(lo as int, hi as int);
    let (is_sub, start, end, checked) = match entry_parts_at(s, lo, hi) {
        Some(parts) => parts,
        None => {
            return None;
        },
    };
    let (name_lo, name_hi, time, time_error) = entry_fields_at(s, start, end);
    if name_lo == name_hi {
        return None;
    }
    let name = string_of(s, name_lo, name_hi);
    let r = ParsedLine { name, time, checked, is_sub_item: is_sub, time_error };
    Some(r)
}

/// Reads an entry (`- name @time [x]`) or sub-item (`  - name @time`) line.
pub fn parse_entry_line(line: &str) -> (r: Option<ParsedLine>)
    ensures
        match parse_entry_spec(line@) {
            Some(p) => r matches Some(x) && x@ == p,
            None => r is None,
        },
{
    let s = chars_of(line);
    assert(s@.subrange(0, s@.len() as int) =~= s@);
    parse_entry_line_at(&s, 0, s.len())
}

// ---------------------------------------------------------------------------
// The week
// ---------------------------------------------------------------------------

pub open spec fn week_prefix() -> Seq<char> {
    seq!['#', ' ', 'W', 'e', 'e', 'k', ' ']
}

pub open spec fn day_prefix() -> Seq<char> {
    seq!['#', '#', ' ']
}

/// The date of a header line `prefix date ...`, when `chrono` reads it.
pub open spec fn header_date(line: Seq<char>, prefix: Seq<char>) -> Option<int> {
    if has_prefix(line, prefix) {
        let words = split_ws(line.skip(prefix.len() as int));
        if words.len() > 0 {
            spec_parse_date(words[0])
        } else {
            None
        }
    } else {
        None
    }
}

/// `Line n: msg`.
pub open spec fn line_warning(n: int, msg: Seq<char>) -> Seq<char> {
    seq!['L', 'i', 'n', 'e', ' '] + decimal(n as nat) + seq![':', ' '] + msg
}

/// `Unrecognized line n: line`.
pub open spec fn unrecognized_warning(n: int, line: Seq<char>) -> Seq<char> {
    seq!['U', 'n', 'r', 'e', 'c', 'o', 'g', 'n', 'i', 'z', 'e', 'd', ' ', 'l', 'i', 'n', 'e', ' ']
        + decimal(n as nat) + seq![':', ' '] + line
}

pub open spec fn before_day_message() -> Seq<char> {
    seq![
        'e',
        'n',
        't',
        'r',
        'y',
        ' ',
        'b',
        'e',
        'f',
        'o',
        'r',
        'e',
        ' ',
        'a',
        'n',
        'y',
        ' ',
        'd',
        'a',
        'y',
        ' ',
        'h',
        'e',
        'a',
        'd',
        'e',
        'r',
    ]
}

pub open spec fn orphan_message() -> Seq<char> {
    seq![
        's',
        'u',
        'b',
        '-',
        'i',
        't',
        'e',
        'm',
        ' ',
        'w',
        'i',
        't',
        'h',
        'o',
        'u',
        't',
        ' ',
        'p',
        'a',
        'r',
        'e',
        'n',
        't',
    ]
}

/// Adds a read line to a day: an entry goes at the end and becomes the parent
/// of the sub-items that follow; a sub-item goes under that parent. The flag
/// tells of a sub-item with no parent, which is dropped.
pub open spec fn add_parsed(day: DayView, last: Option<int>, p: ParsedLineView) -> (
    DayView,
    Option<int>,
    bool,
) {
    if p.is_sub_item {
        match last {
            None => (day, last, true),
            Some(i) => if 0 <= i < day.len() {
                (
                    day.update(
                        i,
                        EntryView {
                            subs: day[i].subs.push(SubItemView { name: p.name, time: p.time }),
                            ..day[i]
                        },
                    ),
                    last,
                    false,
                )
            } else {
                (day, last, false)
            },
        }
    } else {
        (
            day.push(
                EntryView { name: p.name, time: p.time, checked: p.checked, subs: seq![] },
            ),
            Some(day.len() as int),
            false,
        )
    }
}

/// What reading a ledger has gathered: the week, the day being read and the
/// index in it of the last entry, the parent of following sub-items.
pub struct ParseState {
    pub week: WeekView,
    pub current_day: Option<int>,
    pub last_entry: Option<int>,
}

/// Reads line number `n` (from 1).
pub open spec fn ledger_step(st: ParseState, n: int, raw: Seq<char>) -> ParseState {
    let line = trim_end(raw);
    if line.len() == 0 {
        st
    } else if header_date(line, week_prefix()) is Some {
        ParseState {
            week: WeekView { week_start: header_date(line, week_prefix())->0, ..st.week },
            ..st
        }
    } else if header_date(line, day_prefix()) is Some {
        let d = header_date(line, day_prefix())->0;
        ParseState {
            week: WeekView { days: with_day(st.week.days, d), ..st.week },
            current_day: Some(d),
            last_entry: None,
        }
    } else if has_prefix(line, seq![';', ';']) {
        st
    } else {
        match parse_entry_spec(line) {
            None => ParseState {
                week: WeekView {
                    warnings: st.week.warnings.push(unrecognized_warning(n, line)),
                    ..st.week
                },
                ..st
            },
            Some(p) => {
                let w1 = match p.time_error {
                    Some(e) => st.week.warnings.push(line_warning(n, e)),
                    None => st.week.warnings,
                };
                match st.current_day {
                    None => ParseState {
                        week: WeekView {
                            warnings: w1.push(line_warning(n, before_day_message())),
                            ..st.week
                        },
                        ..st
                    },
                    Some(d) => {
                        let days1 = with_day(st.week.days, d);
                        let idx = day_pos(st.week.days, d) as int;
                        let (nd, nl, orphan) = add_parsed(days1[idx].1, st.last_entry, p);
                        ParseState {
                            week: WeekView {
                                days: days1.update(idx, (d, nd)),
                                warnings: if orphan {
                                    w1.push(line_warning(n, orphan_message()))
                                } else {
                                    w1
                                },
                                ..st.week
                            },
                            current_day: st.current_day,
                            last_entry: nl,
                        }
                    },
                }
            },
        }
    }
}

/// Reads the lines in order; the last one has number `lines.len()`.
pub open spec fn ledger_fold(lines: Seq<Seq<char>>, st: ParseState) -> ParseState
    decreases lines.len(),
{
    if lines.len() == 0 {
        st
    } else {
        ledger_step(ledger_fold(lines.drop_last(), st), lines.len() as int, lines.last())
    }
}

/// The week that [`parse_ledger`] reads from `content`.
pub open spec fn parse_ledger_spec(content: Seq<char>, default_week_start: int) -> WeekView {
    ledger_fold(
        split_lines(content),
        ParseState {
            week: WeekView { week_start: default_week_start, days: seq![], warnings: seq![] },
            current_day: None,
            last_entry: None,
        },
    ).week
}

fn header_date_at(line: &Vec<char>, n: usize, prefix: &Vec<char>) -> (r: Option<Date>)
    requires
        n <= line.len(),
    ensures
        match header_date(line@.subrange(0, n as int), prefix@) {
            Some(d) => r matches Some(x) && x@ == d,
            None => r is None,
        },
{
    if !starts_with_at(line, 0, n, prefix) {
        return None;
    }
    let ghost l = line@.subrange(0, n as int);
    assert(line@.subrange(prefix.len() as int, n as int) =~= l.skip(prefix.len() as int));
    let words = split_whitespace(line, prefix.len(), n);
    if words.len() == 0 {
        return None;
    }
    assert(seqs_of(words@)[0] == words@[0]@);
    let w = string_of(&words[0], 0, words[0].len());
    assert(words@[0]@.subrange(0, words@[0]@.len() as int) =~= words@[0]@);
    Date::parse_iso(w.as_str())
}

fn push_line_warning(warnings: &mut Vec<String>, n: usize, msg: &str)
    ensures
        final(warnings)@.map_values(|w: String| w@) == old(warnings)@.map_values(|w: String| w@).push(
            line_warning(n as int, msg@),
        ),
{
    let mut t = String::new();
    push_str(&mut t, "Line ");
    proof {
        reveal_strlit("Line ");
    }
    push_decimal(&mut t, n as u64);
    push_char(&mut t, ':');
    push_char(&mut t, ' ');
    push_str(&mut t, msg);
    assert(t@ =~= line_warning(n as int, msg@));
    warnings.push(t);
    assert(warnings@.map_values(|w: String| w@) =~= old(warnings)@.map_values(|w: String| w@).push(
        line_warning(n as int, msg@),
    ));
}

fn add_parsed_exec(day: &mut Day, last: &mut Option<usize>, p: ParsedLine) -> (orphan: bool)
    ensures
        ({
            let (nd, nl, o) = add_parsed(
                old(day)@,
                match *old(last) {
                    Some(i) => Some(i as int),
                    None => None,
                },
                p@,
            );
            &&& final(day)@ == nd
            &&& match *final(last) {
                Some(i) => Some(i as int),
                None => None,
            } == nl
            &&& orphan == o
        }),
{
    let ghost pv = p@;
    if p.is_sub_item {
        match *last {
            None => true,
            Some(i) => {
                if i < day.entries.len() {
                    let ghost before = day.entries@;
                    day.entries[i].sub_items.push(SubItem { name: p.name, time: p.time });
                    assert(day.entries@[i as int]@.subs =~= before[i as int]@.subs.push(
                        SubItemView { name: pv.name, time: pv.time },
                    ));
                    assert(day@ =~= old(day)@.update(
                        i as int,
                        EntryView {
                            subs: old(day)@[i as int].subs.push(
                                SubItemView { name: pv.name, time: pv.time },
                            ),
                            ..old(day)@[i as int]
                        },
                    ));
                }
                false
            },
        }
    } else {
        let e = Entry { name: p.name, time: p.time, checked: p.checked, sub_items: Vec::new() };
        assert(e@.subs =~= Seq::<SubItemView>::empty());
        day.entries.push(e);
        *last = Some(day.entries.len() - 1);
        assert(day@ =~= old(day)@.push(
            EntryView { name: pv.name, time: pv.time, checked: pv.checked, subs: seq![] },
        ));
        false
    }
}

pub open spec fn date_view(d: Option<Date>) -> Option<int> {
    match d {
        Some(x) => Some(x@),
        None => None,
    }
}

pub open spec fn index_view(i: Option<usize>) -> Option<int> {
    match i {
        Some(x) => Some(x as int),
        None => None,
    }
}

fn ledger_step_exec(
    week: &mut WeekData,
    current_day: &mut Option<Date>,
    last_entry: &mut Option<usize>,
    raw: &Vec<char>,
    n: usize,
)
    requires
        old(week).wf(),
    ensures
        final(week).wf(),
        (ParseState {
            week: final(week)@,
            current_day: date_view(*final(current_day)),
            last_entry: index_view(*final(last_entry)),
        }) == ledger_step(
            ParseState {
                week: old(week)@,
                current_day: date_view(*old(current_day)),
                last_entry: index_view(*old(last_entry)),
            },
            n as int,
            raw@,
        ),
{
    let len = skip_ws_backward(raw, 0, raw.len());
    assert(raw@.subrange(0, raw@.len() as int) =~= raw@);
    let ghost line = raw@.subrange(0, len as int);
    if len == 0 {
        return;
    }
    let wp = vec!['#', ' ', 'W', 'e', 'e', 'k', ' '];
    assert(wp@ =~= week_prefix());
    match header_date_at(raw, len, &wp) {
        Some(d) => {
            week.week_start = d;
            return;
        },
        None => {},
    }
    let dp = vec!['#', '#', ' '];
    assert(dp@ =~= day_prefix());
    match header_date_at(raw, len, &dp) {
        Some(d) => {
            *current_day = Some(d);
            week.ensure_day(d);
            *last_entry = None;
            return;
        },
        None => {},
    }
    let cp = vec![';', ';'];
    assert(cp@ =~= seq![';', ';']);
    if starts_with_at(raw, 0, len, &cp) {
        return;
    }
    let parsed = match parse_entry_line_at(raw, 0, len) {
        Some(p) => p,
        None => {
            let mut t = String::new();
            push_str(&mut t, "Unrecognized line ");
            proof {
                reveal_strlit("Unrecognized line ");
            }
            push_decimal(&mut t, n as u64);
            push_char(&mut t, ':');
            push_char(&mut t, ' ');
            push_chars(&mut t, raw, 0, len);
            assert(t@ =~= unrecognized_warning(n as int, line));
            week.warnings.push(t);
            assert(week@.warnings =~= old(week)@.warnings.push(unrecognized_warning(n as int, line)));
            return;
        },
    };
    let ghost pv = parsed@;
    match &parsed.time_error {
        Some(e) => {
            push_line_warning(&mut week.warnings, n, e.as_str());
        },
        None => {},
    }
    let ghost w1 = week@.warnings;
    match *current_day {
        None => {
            push_line_warning(&mut week.warnings, n, "entry before any day header");
            proof {
                reveal_strlit("entry before any day header");
                assert("entry before any day header"@ =~= before_day_message());
            }
        },
        Some(d) => {
            let ghost days0 = week@.days;
            let idx = week.ensure_day(d);
            let ghost days1 = week@.days;
            let ghost day1 = days1[idx as int].1;
            let orphan = add_parsed_exec(&mut week.days[idx].1, last_entry, parsed);
            assert(week@.days =~= days1.update(idx as int, (d@, week@.days[idx as int].1)));
            if orphan {
                push_line_warning(&mut week.warnings, n, "sub-item without parent");
                proof {
                    reveal_strlit("sub-item without parent");
                    assert("sub-item without parent"@ =~= orphan_message());
                }
            }
            proof {
                lemma_with_day_sorted(days0, d@);
                let days2 = week@.days;
                assert forall|a: int, b: int| 0 <= a < b < days2.len() implies days2[a].0
                    < days2[b].0 by {
                    assert(days2[a].0 == days1[a].0);
                    assert(days2[b].0 == days1[b].0);
                }
            }
        },
    }
}

/// Reads the ledger text of a week. Empty lines and total lines (`;;`) are
/// skipped; `# Week date` sets the week's start and `## date` the day that
/// entries go to; other lines are entries, sub-items, or warnings.
pub fn parse_ledger(content: &str, default_week_start: Date) -> (r: WeekData)
    ensures
        r.wf(),
        r@ == parse_ledger_spec(content@, default_week_start@),
{
    let chars = chars_of(content);
    let lines = lines_of(&chars);
    let ghost ls = seqs_of(lines@);
    let mut week = WeekData::new(default_week_start);
    let mut current_day: Option<Date> = None;
    let mut last_entry: Option<usize> = None;
    let ghost init = ParseState {
        week: WeekView { week_start: default_week_start@, days: seq![], warnings: seq![] },
        current_day: None,
        last_entry: None,
    };
    let mut i: usize = 0;
    assert(ls.take(0) =~= Seq::<Seq<char>>::empty());
    while i < lines.len()
        invariant
            i <= lines.len(),
            ls == seqs_of(lines@),
            ls.len() == lines.len(),
            ls == split_lines(content@),
            week.wf(),
            (ParseState {
                week: week@,
                current_day: date_view(current_day),
                last_entry: index_view(last_entry),
            }) == ledger_fold(ls.take(i as int), init),
        decreases lines.len() - i,
    {
        assert(ls[i as int] == lines@[i as int]@);
        ledger_step_exec(&mut week, &mut current_day, &mut last_entry, &lines[i], i + 1);
        assert(ls.take(i + 1).drop_last() =~= ls.take(i as int));
        assert(ls.take(i + 1).last() == ls[i as int]);
        i = i + 1;
    }
    assert(ls.take(i as int) =~= ls);
    week
}

} // verus!
