//! The text of a single day, as edited in place: its entry lines, read back
//! with diagnostics.
use vstd::prelude::*;

use crate::ledger::model::{
    entry_fits, lemma_sub_sum_nonneg, lemma_sub_sum_prefix, mismatch_of, resolve_entry,
    sub_minutes, sub_sum, sub_total_of, Day, DayView, Entry, EntryView, SubItemView,
};
use crate::ledger::parse::{
    add_parsed, index_view, line_warning, orphan_message, parse_entry_line_at,
    parse_entry_spec, unrecognized_warning, ParsedLine,
};
use crate::ledger::render::{
    entries_lines, entry_line, format_minutes, minutes_text, sub_line, sub_lines, terminated,
};
use crate::text::{
    chars_of, has_prefix, join_with, lines_of, push_char, push_chars, push_decimal, push_str,
    seqs_of, skip_ws_backward, skip_ws_forward, split_lines, starts_with_at, trim, trim_end,
};
use crate::time_amount::format_text;

verus! {

/// What reading a day's text has gathered: the day, the index of the last
/// entry (the parent of following sub-items), and the diagnostics.
pub struct DayParseState {
    pub day: DayView,
    pub last_entry: Option<int>,
    pub diagnostics: Seq<Seq<char>>,
}

/// Reads line number `n` (from 1) of a day's text.
pub open spec fn day_line_step(st: DayParseState, n: int, raw: Seq<char>) -> DayParseState {
    let line = trim_end(raw);
    if line.len() == 0 || has_prefix(line, seq![';', ';']) {
        st
    } else {
        match parse_entry_spec(line) {
            None => DayParseState {
                diagnostics: st.diagnostics.push(unrecognized_warning(n, line)),
                ..st
            },
            Some(p) => {
                let d1 = match p.time_error {
                    Some(e) => st.diagnostics.push(line_warning(n, e)),
                    None => st.diagnostics,
                };
                let (nd, nl, orphan) = add_parsed(st.day, st.last_entry, p);
                DayParseState {
                    day: nd,
                    last_entry: nl,
                    diagnostics: if orphan {
                        d1.push(line_warning(n, orphan_message()))
                    } else {
                        d1
                    },
                }
            },
        }
    }
}

pub open spec fn day_fold(lines: Seq<Seq<char>>) -> DayParseState
    decreases lines.len(),
{
    if lines.len() == 0 {
        DayParseState { day: seq![], last_entry: None, diagnostics: seq![] }
    } else {
        day_line_step(day_fold(lines.drop_last()), lines.len() as int, lines.last())
    }
}

/// The day and diagnostics that [`parse_day`] reads from `text`.
pub open spec fn parse_day_spec(text: Seq<char>) -> DayParseState {
    day_fold(split_lines(text))
}

fn day_line_step_exec(
    day: &mut Day,
    last_entry: &mut Option<usize>,
    diagnostics: &mut Vec<String>,
    raw: &Vec<char>,
    n: usize,
)
    ensures
        (DayParseState {
            day: final(day)@,
            last_entry: index_view(*final(last_entry)),
            diagnostics: final(diagnostics)@.map_values(|w: String| w@),
        }) == day_line_step(
            DayParseState {
                day: old(day)@,
                last_entry: index_view(*old(last_entry)),
                diagnostics: old(diagnostics)@.map_values(|w: String| w@),
            },
            n as int,
            raw@,
        ),
{
    let len = skip_ws_backward(raw, 0, raw.len());
    assert(raw@.subrange(0, raw@.len() as int) =~= raw@);
    let ghost line = raw@.subrange(0, len as int);
    if len == 0 {
        return;
    }
    let cp = vec![';', ';'];
    assert(cp@ =~= seq![';', ';']);
    if starts_with_at(raw, 0, len, &cp) {
        return;
    }
    let parsed = match parse_entry_line_at(raw, 0, len) {
        Some(p) => p,
        None => {
            let mut t = String::new();
            push_str(&mut t, "Unrecognized line ");
            proof {
                reveal_strlit("Unrecognized line ");
            }
            push_decimal(&mut t, n as u64);
            push_char(&mut t, ':');
            push_char(&mut t, ' ');
            push_chars(&mut t, raw, 0, len);
            assert(t@ =~= unrecognized_warning(n as int, line));
            diagnostics.push(t);
            assert(diagnostics@.map_values(|w: String| w@) =~= old(diagnostics)@.map_values(
                |w: String| w@,
            ).push(unrecognized_warning(n as int, line)));
            return;
        },
    };
    match &parsed.time_error {
        Some(e) => {
            push_line_warning(diagnostics, n, e.as_str());
        },
        None => {},
    }
    let orphan = add_parsed_to(day, last_entry, parsed);
    if orphan {
        push_line_warning(diagnostics, n, "sub-item without parent");
        proof {
            reveal_strlit("sub-item without parent");
            assert("sub-item without parent"@ =~= orphan_message());
        }
    }
}

fn push_line_warning(warnings: &mut Vec<String>, n: usize, msg: &str)
    ensures
        final(warnings)@.map_values(|w: String| w@) == old(warnings)@.map_values(|w: String| w@).push(
            line_warning(n as int, msg@),
        ),
{
    let mut t = String::new();
    push_str(&mut t, "Line ");
    proof {
        reveal_strlit("Line ");
    }
    push_decimal(&mut t, n as u64);
    push_char(&mut t, ':');
    push_char(&mut t, ' ');
    push_str(&mut t, msg);
    assert(t@ =~= line_warning(n as int, msg@));
    warnings.push(t);
    assert(warnings@.map_values(|w: String| w@) =~= old(warnings)@.map_values(|w: String| w@).push(
        line_warning(n as int, msg@),
    ));
}

fn add_parsed_to(day: &mut Day, last: &mut Option<usize>, p: ParsedLine) -> (orphan: bool)
    ensures
        ({
            let (nd, nl, o) = add_parsed(old(day)@, index_view(*old(last)), p@);
            &&& final(day)@ == nd
            &&& index_view(*final(last)) == nl
            &&& orphan == o
        }),
{
    let ghost pv = p@;
    if p.is_sub_item {
        match *last {
            None => true,
            Some(i) => {
                if i < day.entries.len() {
                    let ghost before = day.entries@;
                    day.entries[i].sub_items.push(
                        crate::ledger::model::SubItem { name: p.name, time: p.time },
                    );
                    assert(day.entries@[i as int]@.subs =~= before[i as int]@.subs.push(
                        SubItemView { name: pv.name, time: pv.time },
                    ));
                    assert(day@ =~= old(day)@.update(
                        i as int,
                        EntryView {
                            subs: old(day)@[i as int].subs.push(
                                SubItemView { name: pv.name, time: pv.time },
                            ),
                            ..old(day)@[i as int]
                        },
                    ));
                }
                false
            },
        }
    } else {
        let e = Entry { name: p.name, time: p.time, checked: p.checked, sub_items: Vec::new() };
        assert(e@.subs =~= Seq::<SubItemView>::empty());
        day.entries.push(e);
        *last = Some(day.entries.len() - 1);
        assert(day@ =~= old(day)@.push(
            EntryView { name: pv.name, time: pv.time, checked: pv.checked, subs: seq![] },
        ));
        false
    }
}

/// Reads the text of one day: entry and sub-item lines; empty lines and
/// total lines (`;;`) are skipped, and every other line, every unreadable
/// time and every sub-item without a parent gives a diagnostic.
pub fn parse_day(text: &str) -> (r: (Day, Vec<String>))
    ensures
        r.0@ == parse_day_spec(text@).day,
        r.1@.map_values(|w: String| w@) == parse_day_spec(text@).diagnostics,
{
    let chars = chars_of(text);
    let lines = lines_of(&chars);
    let ghost ls = seqs_of(lines@);
    let mut day = Day { entries: Vec::new() };
    let mut last_entry: Option<usize> = None;
    let mut diagnostics: Vec<String> = Vec::new();
    let mut i: usize = 0;
    assert(ls.take(0) =~= Seq::<Seq<char>>::empty());
    assert(day@ =~= Seq::<EntryView>::empty());
    assert(diagnostics@.map_values(|w: String| w@) =~= Seq::<Seq<char>>::empty());
    while i < lines.len()
        invariant
            i <= lines.len(),
            ls == seqs_of(lines@),
            ls.len() == lines.len(),
            ls == split_lines(text@),
            (DayParseState {
                day: day@,
                last_entry: index_view(last_entry),
                diagnostics: diagnostics@.map_values(|w: String| w@),
            }) == day_fold(ls.take(i as int)),
        decreases lines.len() - i,
    {
        assert(ls[i as int] == lines@[i as int]@);
        day_line_step_exec(&mut day, &mut last_entry, &mut diagnostics, &lines[i], i + 1);
        assert(ls.take(i + 1).drop_last() =~= ls.take(i as int));
        assert(ls.take(i + 1).last() == ls[i as int]);
        i = i + 1;
    }
    assert(ls.take(i as int) =~= ls);
    (day, diagnostics)
}

/// The text of a day: its entry and sub-item lines joined by line breaks.
pub open spec fn render_day_text(day: DayView) -> Seq<char> {
    join_with(entries_lines(day), seq!['\n'])
}

/// Writes the text of a day for editing: its entry and sub-item lines.
pub fn render_day(day: &Day) -> (r: String)
    ensures
        r@ == render_day_text(day@),
{
    let mut lines_text = String::new();
    let ghost mut lines: Seq<Seq<char>> = seq![];
    let ghost es = day@;
    let mut j: usize = 0;
    assert(es.take(0) =~= Seq::<EntryView>::empty());
    while j < day.entries.len()
        invariant
            j <= day.entries.len(),
            es == day@,
            es.len() == day.entries.len(),
            lines == entries_lines(es.take(j as int)),
            (lines.len() > 0) == (j > 0),
            lines_text@ == join_with(lines, seq!['\n']),
        decreases day.entries.len() - j,
    {
        let e = &day.entries[j];
        assert(e@ == es[j as int]);
        let ghost prev = lines;
        if j > 0 {
            push_char(&mut lines_text, '\n');
        }
        let l = crate::ledger::render::render_entry_line(e);
        push_str(&mut lines_text, l.as_str());
        proof {
            lemma_join_push(lines, entry_line(es[j as int]));
            lines = lines.push(entry_line(es[j as int]));
        }
        let mut m: usize = 0;
        let ghost l1 = lines;
        assert(e@.subs.take(0) =~= Seq::<SubItemView>::empty());
        assert(l1 + sub_lines(e@.subs.take(0)) =~= l1);
        while m < e.sub_items.len()
            invariant
                m <= e.sub_items.len(),
                e@.subs.len() == e.sub_items.len(),
                l1.len() > 0,
                lines == l1 + sub_lines(e@.subs.take(m as int)),
                lines_text@ == join_with(lines, seq!['\n']),
            decreases e.sub_items.len() - m,
        {
            push_char(&mut lines_text, '\n');
            let sl = crate::ledger::render::render_sub_item_line(&e.sub_items[m]);
            push_str(&mut lines_text, sl.as_str());
            proof {
                assert(e@.subs[m as int] == e.sub_items@[m as int]@);
                lemma_join_push(lines, sub_line(e@.subs[m as int]));
                assert(e@.subs.take(m + 1) =~= e@.subs.take(m as int).push(e@.subs[m as int]));
                lines = lines.push(sub_line(e@.subs[m as int]));
                assert(lines =~= l1 + sub_lines(e@.subs.take(m + 1)));
            }
            m = m + 1;
        }
        proof {
            assert(e@.subs.take(m as int) =~= e@.subs);
            assert(es.take(j + 1).drop_last() =~= es.take(j as int));
            assert(es.take(j + 1).last() == es[j as int]);
            assert(lines =~= entries_lines(es.take(j + 1)));
        }
        j = j + 1;
    }
    assert(es.take(j as int) =~= es);
    lines_text
}

proof fn lemma_join_push(lines: Seq<Seq<char>>, l: Seq<char>)
    ensures
        join_with(lines.push(l), seq!['\n']) == if lines.len() == 0 {
            l
        } else {
            join_with(lines, seq!['\n']) + seq!['\n'] + l
        },
{
    assert(lines.push(l).drop_last() =~= lines);
    if lines.len() == 0 {
        assert(lines.push(l) =~= seq![l]);
    }
}

/// `Mismatch: 'name' parent @time vs sub-items @time`.
pub open spec fn mismatch_text(e: EntryView) -> Seq<char> {
    seq!['M', 'i', 's', 'm', 'a', 't', 'c', 'h', ':', ' ', '\''] + trim(e.name) + seq![
        '\'',
        ' ',
        'p',
        'a',
        'r',
        'e',
        'n',
        't',
        ' ',
        '@',
    ] + format_text(e.time->0) + seq![
        ' ',
        'v',
        's',
        ' ',
        's',
        'u',
        'b',
        '-',
        'i',
        't',
        'e',
        'm',
        's',
        ' ',
        '@',
    ] + minutes_text(sub_total_of(e)->0)
}

/// The mismatch diagnostics of the entries, in order.
pub open spec fn mismatch_diagnostics(es: Seq<EntryView>) -> Seq<Seq<char>>
    decreases es.len(),
{
    if es.len() == 0 {
        seq![]
    } else if mismatch_of(es.last()) {
        mismatch_diagnostics(es.drop_last()).push(mismatch_text(es.last()))
    } else {
        mismatch_diagnostics(es.drop_last())
    }
}

/// Every entry's sub-item sum fits in an `i64`.
pub open spec fn day_fits(day: DayView) -> bool {
    forall|j: int| 0 <= j < day.len() ==> entry_fits(#[trigger] day[j])
}

/// `Sub-item times too large to add up`: the diagnostic of a day whose
/// sub-item times sum beyond `i64`.
pub open spec fn too_large_text() -> Seq<char> {
    seq![
        'S', 'u', 'b', '-', 'i', 't', 'e', 'm', ' ', 't', 'i', 'm', 'e', 's', ' ', 't', 'o', 'o',
        ' ', 'l', 'a', 'r', 'g', 'e', ' ', 't', 'o', ' ', 'a', 'd', 'd', ' ', 'u', 'p',
    ]
}

/// The diagnostics of a day's text: those of its lines; when there are none,
/// one saying that the sub-item times do not add up within `i64`, or else
/// one per entry whose time differs from the sum of its sub-items.
pub open spec fn day_diagnostics(text: Seq<char>) -> Seq<Seq<char>> {
    let p = parse_day_spec(text);
    if p.diagnostics.len() > 0 {
        p.diagnostics
    } else if !day_fits(p.day) {
        seq![too_large_text()]
    } else {
        mismatch_diagnostics(p.day)
    }
}

/// Reads a day's text for saving: its diagnostics ([`day_diagnostics`]), and
/// the day when no line has a diagnostic and its sub-item times add up.
pub fn parse_and_diagnostics(text: &str) -> (r: (Option<Day>, Vec<String>))
    ensures
        r.1@.map_values(|w: String| w@) == day_diagnostics(text@),
        parse_day_spec(text@).diagnostics.len() == 0 && day_fits(parse_day_spec(text@).day) ==> (
        r.0 matches Some(d) && d@ == parse_day_spec(text@).day),
        !(parse_day_spec(text@).diagnostics.len() == 0 && day_fits(parse_day_spec(text@).day))
            ==> r.0 is None,
{
    let (day, mut diagnostics) = parse_day(text);
    if diagnostics.len() > 0 {
        return (None, diagnostics);
    }
    if !day_entries_fit(&day) {
        let mut t = String::new();
        push_str(&mut t, "Sub-item times too large to add up");
        proof {
            reveal_strlit("Sub-item times too large to add up");
        }
        assert(t@ =~= too_large_text());
        let mut d: Vec<String> = Vec::new();
        d.push(t);
        assert(d@.map_values(|w: String| w@) =~= seq![too_large_text()]);
        return (None, d);
    }
    let ghost es = day@;
    let mut j: usize = 0;
    assert(es.take(0) =~= Seq::<EntryView>::empty());
    assert(diagnostics@.map_values(|w: String| w@) =~= Seq::<Seq<char>>::empty());
    while j < day.entries.len()
        invariant
            j <= day.entries.len(),
            es == day@,
            es.len() == day.entries.len(),
            day_fits(es),
            diagnostics@.map_values(|w: String| w@) == mismatch_diagnostics(es.take(j as int)),
        decreases day.entries.len() - j,
    {
        let entry = &day.entries[j];
        assert(entry@ == es[j as int]);
        assert(entry_fits(es[j as int]));
        let resolved = resolve_entry(entry);
        let ghost prev = diagnostics@.map_values(|w: String| w@);
        if resolved.mismatch {
            match (entry.time, resolved.sub_total_minutes) {
                (Some(parent), Some(sub_total)) => {
                    let mut t = String::new();
                    push_str(&mut t, "Mismatch: '");
                    let c = chars_of(entry.name.as_str());
                    assert(c@.subrange(0, c@.len() as int) =~= c@);
                    let a = skip_ws_forward(&c, 0, c.len());
                    let b = skip_ws_backward(&c, a, c.len());
                    push_chars(&mut t, &c, a, b);
                    push_str(&mut t, "' parent @");
                    let pf = parent.format();
                    push_str(&mut t, pf.as_str());
                    push_str(&mut t, " vs sub-items @");
                    let sf = format_minutes(sub_total);
                    push_str(&mut t, sf.as_str());
                    proof {
                        reveal_strlit("Mismatch: '");
                        reveal_strlit("' parent @");
                        reveal_strlit(" vs sub-items @");
                    }
                    assert(t@ =~= mismatch_text(es[j as int]));
                    diagnostics.push(t);
                },
                _ => {
                    assert(false);
                },
            }
        }
        proof {
            assert(es.take(j + 1).drop_last() =~= es.take(j as int));
            assert(es.take(j + 1).last() == es[j as int]);
            assert(diagnostics@.map_values(|w: String| w@) =~= mismatch_diagnostics(
                es.take(j + 1),
            ));
        }
        j = j + 1;
    }
    assert(es.take(j as int) =~= es);
    (Some(day), diagnostics)
}

/// Whether [`parse_and_diagnostics`] takes `text`: every entry's sub-item
/// sum fits in an `i64`.
pub fn day_text_fits(text: &str) -> (r: bool)
    ensures
        r == day_fits(parse_day_spec(text@).day),
{
    let (day, _) = parse_day(text);
    day_entries_fit(&day)
}

/// Whether every entry's sub-item sum fits in an `i64`.
pub fn day_entries_fit(day: &Day) -> (r: bool)
    ensures
        r == day_fits(day@),
{
    let mut j: usize = 0;
    while j < day.entries.len()
        invariant
            j <= day.entries.len(),
            day@.len() == day.entries.len(),
            forall|k: int| 0 <= k < j ==> entry_fits(#[trigger] day@[k]),
        decreases day.entries.len() - j,
    {
        assert(day.entries@[j as int]@ == day@[j as int]);
        if !entry_fits_check(&day.entries[j]) {
            return false;
        }
        j = j + 1;
    }
    true
}

/// Whether the sum of an entry's sub-item times fits in an `i64`.
pub fn entry_fits_check(entry: &Entry) -> (r: bool)
    ensures
        r == entry_fits(entry@),
{
    let ghost subs = entry@.subs;
    let mut acc: i128 = 0;
    let mut m: usize = 0;
    while m < entry.sub_items.len()
        invariant
            m <= entry.sub_items.len(),
            subs == entry@.subs,
            subs.len() == entry.sub_items.len(),
            acc == sub_sum(subs.take(m as int)),
            0 <= acc <= i64::MAX,
        decreases entry.sub_items.len() - m,
    {
        assert(subs.take(m + 1).drop_last() =~= subs.take(m as int));
        assert(subs[m as int] == entry.sub_items@[m as int]@);
        match entry.sub_items[m].time {
            Some(t) => {
                acc = acc + t.minutes() as i128;
            },
            None => {},
        }
        m = m + 1;
        if acc > i64::MAX as i128 {
            proof {
                lemma_sub_sum_prefix(subs, m as int);
            }
            return false;
        }
    }
    assert(subs.take(m as int) =~= subs);
    true
}

} // verus!
