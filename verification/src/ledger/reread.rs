//! Reading back what is written: the lines written for a day's entries read
//! back into the same entries.
use vstd::prelude::*;

use crate::date::{
    date_text_reads_back, spec_date_text, spec_parse_date, weekday_abbrev_text, weekday_of,
};
use crate::ledger::day_text::{
    day_fold, day_line_step, parse_day_spec, render_day_text, DayParseState,
};
use crate::ledger::assoc::{assoc_get, keys_of, lemma_assoc_get_found, values_free_of};
use crate::ledger::model::{
    computed_day, computed_days, computed_entry, day_pos, days_fit, entry_fits,
    lemma_day_pos_all_before, lemma_sub_sum_nonneg, sub_total_of, with_day, DayView, EntryView,
    SubItemView, WeekView,
};
use crate::ledger::render::{
    counted_keys, day_item_lines, display_name, first_index, lemma_counted_keys_from,
    lemma_first_index_bound,
};
use crate::ledger::totals::{
    entry_name_free, keys_named, lemma_entry_keys_named, lemma_totals_named, names_free_of,
    task_key_of, totals_of, TotalsView,
};
use crate::text::lemma_split_join_terminated;
use crate::ledger::parse::{
    add_parsed, checked_mark, day_prefix, entry_parts, entry_prefix, header_date, ledger_fold,
    ledger_step, name_of, parse_entry_spec, parse_ledger_spec,
    sub_prefix, time_fields, time_text_of, week_prefix, ParseState, ParsedLineView,
};
use crate::ledger::render::{
    computed_week, date_get, day_block, day_blocks, day_header, day_total_line, entries_lines,
    entry_line, item_label, item_lines, render_lines, render_text, sub_line, sub_lines,
    time_suffix, total_line, week_header, week_item_label, week_total_line,
};
use crate::text::{
    has_prefix, has_suffix, is_word, is_ws, join_with, last_index_of, lemma_last_index_of,
    lemma_last_index_of_append, lemma_split_join, lemma_split_ws_join, lemma_trim_of_trimmed,
    line_piece, split_lines, split_ws, trim, trim_end, whole_line,
};
use crate::time_amount::{
    format_text, is_unit_letter, lemma_format_parse_roundtrip, lemma_format_text_chars,
    time_chars, time_parse, TimeParse,
};

verus! {

/// A name that its line reads back unchanged: not empty, no whitespace at
/// either end, no `@` and no line break in it, and not ending with `[x]`.
pub open spec fn plain_name(n: Seq<char>) -> bool {
    &&& n.len() > 0
    &&& !is_ws(n[0])
    &&& !is_ws(n.last())
    &&& forall|i: int| 0 <= i < n.len() ==> n[i] != '@' && n[i] != '\n'
    &&& !has_suffix(n, checked_mark())
}

/// A time of at most `i64::MAX` minutes, or none.
pub open spec fn time_fits(t: Option<nat>) -> bool {
    t matches Some(m) ==> m <= i64::MAX
}

pub open spec fn plain_entry(e: EntryView) -> bool {
    &&& plain_name(e.name)
    &&& time_fits(e.time)
    &&& forall|k: int|
        0 <= k < e.subs.len() ==> plain_name(#[trigger] e.subs[k].name) && time_fits(
            e.subs[k].time,
        )
}

/// Every entry and sub-item of the day has a plain name and a time that fits.
pub open spec fn plain_day(day: DayView) -> bool {
    forall|j: int| 0 <= j < day.len() ==> plain_entry(#[trigger] day[j])
}

/// A line that the day's reading takes as it is.
pub open spec fn clean_line(l: Seq<char>) -> bool {
    &&& whole_line(l)
    &&& trim_end(l) == l
    &&& !has_prefix(l, seq![';', ';'])
}

/// What reading the lines of `es` gathers.
pub open spec fn read_state(es: Seq<EntryView>) -> DayParseState {
    DayParseState {
        day: es,
        last_entry: if es.len() > 0 {
            Some(es.len() - 1)
        } else {
            None
        },
        diagnostics: seq![],
    }
}

/// The text of a name and its time, as an entry or sub-item line holds it.
proof fn lemma_body(n: Seq<char>, t: Option<nat>)
    requires
        plain_name(n),
        time_fits(t),
    ensures
        ({
            let b = n + time_suffix(t);
            &&& b.len() > 0
            &&& !is_ws(b.last())
            &&& forall|i: int| 0 <= i < b.len() ==> b[i] != '\n'
            &&& !has_suffix(b, checked_mark())
            &&& trim_end(b) == b
            &&& name_of(b) == n
            &&& time_fields(b) == (t, None::<Seq<char>>)
        }),
{
    let b = n + time_suffix(t);
    lemma_trim_of_trimmed(n);
    match t {
        None => {
            assert(b =~= n);
            lemma_last_index_of(n, '@');
            assert(last_index_of(n, '@') is None);
        },
        Some(m) => {
            let f = format_text(m);
            lemma_format_text_chars(m);
            lemma_format_parse_roundtrip(m);
            let h = n + seq![' ', '@'];
            assert(b =~= h + f);
            assert(b.last() == f.last());
            assert forall|i: int| 0 <= i < b.len() implies b[i] != '\n' by {
                if i >= h.len() {
                    assert(b[i] == f[i - h.len()]);
                } else if i >= n.len() {
                } else {
                    assert(b[i] == n[i]);
                }
            }
            if has_suffix(b, checked_mark()) {
                assert(b.subrange(b.len() - 3, b.len() as int)[2] == b.last());
            }
            assert forall|i: int| 0 <= i < f.len() implies f[i] != '@' by {}
            lemma_last_index_of_append(h, f, '@');
            assert(h.last() == '@');
            assert(last_index_of(h, '@') == Some(n.len() + 1int));
            assert(b.skip(n.len() + 2int) =~= f);
            lemma_trim_of_trimmed(f);
            assert(b.take(n.len() + 1int) =~= n.push(' '));
            assert(n.push(' ').drop_last() =~= n);
            assert(trim_end(n.push(' ')) == trim_end(n));
        },
    }
}

/// An entry's line, as `render_entry_line` writes it, reads back with
/// `parse_entry_line` as the entry without its sub-items, with no time error
/// when its name is plain and its time fits in an
/// `i64`.
pub proof fn lemma_entry_line(e: EntryView)
    requires
        plain_name(e.name),
        time_fits(e.time),
    ensures
        clean_line(entry_line(e)),
        parse_entry_spec(entry_line(e)) == Some(
            ParsedLineView {
                name: e.name,
                time: e.time,
                checked: e.checked,
                is_sub_item: false,
                time_error: None,
            },
        ),
{
    lemma_body(e.name, e.time);
    lemma_trim_of_trimmed(e.name);
    let b = e.name + time_suffix(e.time);
    let ck: Seq<char> = if e.checked {
        seq![' ', '[', 'x', ']']
    } else {
        seq![]
    };
    let l = entry_line(e);
    assert(l =~= seq!['-', ' '] + (b + ck));
    let w0 = b + ck;
    assert(l.skip(2) =~= w0);
    assert(!has_prefix(l, sub_prefix())) by {
        if has_prefix(l, sub_prefix()) {
            assert(l.subrange(0, 4)[0] == l[0]);
        }
    }
    assert(l.subrange(0, 2) =~= entry_prefix());
    assert(!has_prefix(l, seq![';', ';'])) by {
        if has_prefix(l, seq![';', ';']) {
            assert(l.subrange(0, 2)[0] == l[0]);
        }
    }
    if e.checked {
        assert(w0.last() == ']');
        assert(w0.subrange(w0.len() - 3, w0.len() as int) =~= checked_mark());
        assert(w0.take(w0.len() - 3) =~= b.push(' '));
        assert(b.push(' ').drop_last() =~= b);
        assert(trim_end(b.push(' ')) == trim_end(b));
    } else {
        assert(w0 =~= b);
    }
    assert(trim_end(w0) == w0);
    assert(entry_parts(l) == Some((false, b, e.checked)));
    assert forall|i: int| 0 <= i < l.len() implies l[i] != '\n' by {
        if i >= 2 && i < 2 + b.len() {
            assert(l[i] == b[i - 2]);
        }
    }
}

/// A sub-item's line, as `render_sub_item_line` writes it, reads back with
/// `parse_entry_line` as the sub-item, when its name is plain and its time
/// fits in an `i64`.
pub proof fn lemma_sub_line(s: SubItemView)
    requires
        plain_name(s.name),
        time_fits(s.time),
    ensures
        clean_line(sub_line(s)),
        parse_entry_spec(sub_line(s)) == Some(
            ParsedLineView {
                name: s.name,
                time: s.time,
                checked: false,
                is_sub_item: true,
                time_error: None,
            },
        ),
{
    lemma_body(s.name, s.time);
    lemma_trim_of_trimmed(s.name);
    let b = s.name + time_suffix(s.time);
    let l = sub_line(s);
    assert(l =~= seq![' ', ' ', '-', ' '] + b);
    assert(l.subrange(0, 4) =~= sub_prefix());
    assert(l.skip(4) =~= b);
    assert(!has_prefix(l, seq![';', ';'])) by {
        if has_prefix(l, seq![';', ';']) {
            assert(l.subrange(0, 2)[0] == l[0]);
        }
    }
    assert(entry_parts(l) == Some((true, b, false)));
    assert(l.last() == b.last());
    assert forall|i: int| 0 <= i < l.len() implies l[i] != '\n' by {
        if i >= 4 {
            assert(l[i] == b[i - 4]);
        }
    }
}

/// Reading an entry's line and the lines of its first `k` sub-items.
proof fn lemma_fold_subs(pre: Seq<Seq<char>>, es: Seq<EntryView>, e: EntryView, k: int)
    requires
        day_fold(pre) == read_state(es),
        plain_entry(e),
        0 <= k <= e.subs.len(),
    ensures
        day_fold(pre.push(entry_line(e)) + sub_lines(e.subs.take(k))) == read_state(
            es.push(EntryView { subs: e.subs.take(k), ..e }),
        ),
    decreases k,
{
    let l = pre.push(entry_line(e));
    if k == 0 {
        assert(sub_lines(e.subs.take(0)) =~= Seq::<Seq<char>>::empty());
        assert(l + sub_lines(e.subs.take(0)) =~= l);
        assert(l.drop_last() =~= pre);
        lemma_entry_line(e);
        assert(e.subs.take(0) =~= Seq::<SubItemView>::empty());
        assert(day_fold(l) == day_line_step(day_fold(pre), l.len() as int, entry_line(e)));
        assert(read_state(es.push(EntryView { subs: e.subs.take(0), ..e })).day =~= es.push(
            EntryView { name: e.name, time: e.time, checked: e.checked, subs: seq![] },
        ));
    } else {
        lemma_fold_subs(pre, es, e, k - 1);
        let s = e.subs[k - 1];
        assert(plain_name(s.name) && time_fits(s.time));
        lemma_sub_line(s);
        let prev = l + sub_lines(e.subs.take(k - 1));
        let cur = l + sub_lines(e.subs.take(k));
        assert(e.subs.take(k) =~= e.subs.take(k - 1).push(s));
        assert(sub_lines(e.subs.take(k)) =~= sub_lines(e.subs.take(k - 1)).push(sub_line(s)));
        assert(cur =~= prev.push(sub_line(s)));
        assert(cur.drop_last() =~= prev);
        assert(day_fold(cur) == day_line_step(day_fold(prev), cur.len() as int, sub_line(s)));
        let d0 = es.push(EntryView { subs: e.subs.take(k - 1), ..e });
        assert(d0.update(
            es.len() as int,
            EntryView {
                subs: d0[es.len() as int].subs.push(SubItemView { name: s.name, time: s.time }),
                ..d0[es.len() as int]
            },
        ) =~= es.push(EntryView { subs: e.subs.take(k), ..e }));
    }
}

/// Reading the lines of a day's entries gathers the entries, with no
/// diagnostic.
proof fn lemma_fold_entries(es: Seq<EntryView>)
    requires
        plain_day(es),
    ensures
        day_fold(entries_lines(es)) == read_state(es),
    decreases es.len(),
{
    if es.len() == 0 {
        assert(read_state(es).day =~= Seq::<EntryView>::empty());
    } else {
        let p = es.drop_last();
        let e = es.last();
        assert(plain_entry(es[es.len() - 1]));
        assert forall|j: int| 0 <= j < p.len() implies plain_entry(#[trigger] p[j]) by {
            assert(p[j] == es[j]);
        }
        lemma_fold_entries(p);
        lemma_fold_subs(entries_lines(p), p, e, e.subs.len() as int);
        assert(e.subs.take(e.subs.len() as int) =~= e.subs);
        assert(p.push(e) =~= es);
        assert(entries_lines(p) + seq![entry_line(e)] =~= entries_lines(p).push(entry_line(e)));
    }
}

/// Every line written for a day's entries is clean.
proof fn lemma_lines_clean(es: Seq<EntryView>)
    requires
        plain_day(es),
    ensures
        forall|i: int|
            0 <= i < entries_lines(es).len() ==> clean_line(#[trigger] entries_lines(es)[i]),
    decreases es.len(),
{
    if es.len() > 0 {
        let p = es.drop_last();
        let e = es.last();
        assert(plain_entry(es[es.len() - 1]));
        assert forall|j: int| 0 <= j < p.len() implies plain_entry(#[trigger] p[j]) by {
            assert(p[j] == es[j]);
        }
        lemma_lines_clean(p);
        lemma_entry_line(e);
        let a = entries_lines(p);
        let sl = sub_lines(e.subs);
        let all = entries_lines(es);
        assert(all == a + seq![entry_line(e)] + sl);
        assert forall|i: int| 0 <= i < all.len() implies clean_line(#[trigger] all[i]) by {
            if i < a.len() {
                assert(all[i] == a[i]);
            } else if i == a.len() {
                assert(all[i] == entry_line(e));
            } else {
                let k = i - a.len() - 1;
                assert(all[i] == sl[k]);
                assert(sl[k] == sub_line(e.subs[k]));
                assert(plain_name(e.subs[k].name) && time_fits(e.subs[k].time));
                lemma_sub_line(e.subs[k]);
            }
        }
    }
}

/// The text of a day, read back, gives the same day and no diagnostic, when
/// every name is plain (not empty, no whitespace at either end, no `@` or
/// line break in it, not ending with `[x]`) and every time fits in an `i64`.
pub proof fn lemma_day_text_roundtrip(day: DayView)
    requires
        plain_day(day),
    ensures
        parse_day_spec(render_day_text(day)).day == day,
        parse_day_spec(render_day_text(day)).diagnostics.len() == 0,
{
    let lines = entries_lines(day);
    lemma_lines_clean(day);
    assert forall|i: int| 0 <= i < lines.len() implies whole_line(#[trigger] lines[i]) by {
        assert(clean_line(lines[i]));
    }
    lemma_split_join(lines);
    assert(split_lines(render_day_text(day)) == lines);
    lemma_fold_entries(day);
}

// ---------------------------------------------------------------------------
// The text of a week
// ---------------------------------------------------------------------------

/// The day of `d` as the week's text holds it: its entries with computed
/// times, or none.
pub open spec fn written_day(w: WeekView, d: int) -> DayView {
    match date_get(computed_days(w.days), d) {
        Some(es) => es,
        None => seq![],
    }
}

/// What reading the text of a week gives: its start, its seven days with
/// their entries (a day outside the seven is not written), and no warning.
pub open spec fn reread_week(w: WeekView) -> WeekView {
    WeekView {
        week_start: w.week_start,
        days: Seq::new(7, |k: int| (w.week_start + k, written_day(w, w.week_start + k))),
        warnings: seq![],
    }
}

/// A line that reading a week's text passes over: a total line, which
/// starts with `;;` and ends with a non-whitespace character.
pub open spec fn skipped_line(l: Seq<char>) -> bool {
    &&& l.len() >= 2
    &&& l[0] == ';'
    &&& l[1] == ';'
    &&& !is_ws(l.last())
    &&& forall|i: int| 0 <= i < l.len() ==> l[i] != '\n'
}

/// A line of a week's text: it splits out whole.
pub open spec fn good_line(l: Seq<char>) -> bool {
    line_piece(l)
}

/// A line starting with `c`, not `-` or a space, holds no entry.
proof fn lemma_no_entry_parts(l: Seq<char>)
    requires
        l.len() > 0,
        l[0] != '-',
        l[0] != ' ',
    ensures
        entry_parts(l) is None,
{
    if has_prefix(l, sub_prefix()) {
        assert(l.subrange(0, 4)[0] == l[0]);
    }
    if has_prefix(l, entry_prefix()) {
        assert(l.subrange(0, 2)[0] == l[0]);
    }
}

/// A line with no whitespace at its end is its own `trim_end`.
proof fn lemma_trim_end_of(l: Seq<char>)
    requires
        l.len() > 0,
        !is_ws(l.last()),
    ensures
        trim_end(l) == l,
{
}

proof fn lemma_skipped_line(l: Seq<char>)
    requires
        skipped_line(l),
    ensures
        good_line(l),
        trim_end(l) == l,
        header_date(l, week_prefix()) is None,
        header_date(l, day_prefix()) is None,
        has_prefix(l, seq![';', ';']),
{
    lemma_trim_end_of(l);
    lemma_no_entry_parts(l);
    if has_prefix(l, week_prefix()) {
        assert(l.subrange(0, 7)[0] == l[0]);
    }
    if has_prefix(l, day_prefix()) {
        assert(l.subrange(0, 3)[0] == l[0]);
    }
    assert(l.subrange(0, 2) =~= seq![';', ';']);
}

/// Reading a skipped line changes nothing.
proof fn lemma_step_skipped(st: ParseState, n: int, l: Seq<char>)
    requires
        skipped_line(l) || l.len() == 0,
    ensures
        ledger_step(st, n, l) == st,
{
    if l.len() > 0 {
        lemma_skipped_line(l);
    }
}

/// Total lines are skipped lines.
proof fn lemma_total_line_skipped(label: Seq<char>, name: Seq<char>, m: int)
    requires
        forall|i: int| 0 <= i < label.len() ==> label[i] != '\n',
        forall|i: int| 0 <= i < name.len() ==> name[i] != '\n',
    ensures
        skipped_line(total_line(label, name, m)),
{
    let f = format_text(m as nat);
    lemma_format_text_chars(m as nat);
    let l = total_line(label, name, m);
    let h = seq![';', ';', ' '] + label + seq![' '] + name + seq![' ', '@'];
    assert(l == h + f);
    assert(l.last() == f.last());
    assert forall|i: int| 0 <= i < l.len() implies l[i] != '\n' by {
        if i >= h.len() {
            assert(l[i] == f[i - h.len()]);
        } else {
            let h1 = seq![';', ';', ' '] + label;
            let h2 = h1 + seq![' '] + name;
            if i < 3 {
            } else if i < h1.len() {
                assert(h[i] == label[i - 3]);
            } else if i == h1.len() {
            } else if i < h2.len() {
                assert(h[i] == name[i - h1.len() - 1]);
            } else {
            }
        }
    }
}

proof fn lemma_day_total_line_skipped(m: int)
    ensures
        skipped_line(day_total_line(m)),
        skipped_line(week_total_line(m)),
{
    let f = format_text(m as nat);
    lemma_format_text_chars(m as nat);
    let l = day_total_line(m);
    let h = seq![';', ';', ' ', 'd', 'a', 'y', '-', 't', 'o', 't', 'a', 'l', ' ', '@'];
    assert(l == h + f);
    assert forall|i: int| 0 <= i < l.len() implies l[i] != '\n' by {
        if i >= h.len() {
            assert(l[i] == f[i - h.len()]);
        }
    }
    let l2 = week_total_line(m);
    let h2 = seq![';', ';', ' ', 'w', 'e', 'e', 'k', '-', 't', 'o', 't', 'a', 'l', ' ', '@'];
    assert(l2 == h2 + f);
    assert forall|i: int| 0 <= i < l2.len() implies l2[i] != '\n' by {
        if i >= h2.len() {
            assert(l2[i] == f[i - h2.len()]);
        }
    }
}

/// The week header reads back as the week's start.
proof fn lemma_week_header(st: ParseState, n: int, d: int)
    requires
        date_text_reads_back(d),
    ensures
        good_line(week_header(d)),
        ledger_step(st, n, week_header(d)) == (ParseState {
            week: WeekView { week_start: d, ..st.week },
            ..st
        }),
{
    let t = spec_date_text(d);
    let l = week_header(d);
    let h = seq!['#', ' ', 'W', 'e', 'e', 'k', ' '];
    assert(l == h + t);
    assert(l.last() == t.last());
    lemma_trim_end_of(l);
    assert(l.subrange(0, 7) =~= week_prefix());
    assert(l.skip(7) =~= t);
    assert(join_with(seq![t], seq![' ']) == t);
    lemma_split_ws_join(seq![t]);
    assert(split_ws(t) == seq![t]);
    lemma_no_entry_parts(l);
    assert forall|i: int| 0 <= i < l.len() implies l[i] != '\n' by {
        if i >= 7 {
            assert(l[i] == t[i - 7]);
        }
    }
}

/// A day header reads back as its date: the day is added, and entries go
/// to it.
proof fn lemma_day_header(st: ParseState, n: int, d: int)
    requires
        date_text_reads_back(d),
    ensures
        good_line(day_header(d)),
        ledger_step(st, n, day_header(d)) == (ParseState {
            week: WeekView { days: with_day(st.week.days, d), ..st.week },
            current_day: Some(d),
            last_entry: None,
        }),
{
    let t = spec_date_text(d);
    let a = weekday_abbrev_text(weekday_of(d));
    let l = day_header(d);
    let h = seq!['#', '#', ' '];
    assert(l == h + t + seq![' '] + a);
    assert(is_word(a));
    assert(l.last() == a.last());
    lemma_trim_end_of(l);
    if has_prefix(l, week_prefix()) {
        assert(l.subrange(0, 7)[1] == l[1]);
    }
    assert(l.subrange(0, 3) =~= day_prefix());
    assert(l.skip(3) =~= t + seq![' '] + a);
    assert(join_with(seq![t, a], seq![' ']) == t + seq![' '] + a) by {
        assert(seq![t, a].drop_last() =~= seq![t]);
        assert(join_with(seq![t], seq![' ']) == t);
        assert(seq![t, a].last() == a);
        assert(seq![t, a].len() == 2);
    }
    lemma_split_ws_join(seq![t, a]);
    lemma_no_entry_parts(l);
    assert forall|i: int| 0 <= i < l.len() implies l[i] != '\n' by {
        if i >= 3 && i < 3 + t.len() {
            assert(l[i] == t[i - 3]);
        } else if i > 3 + t.len() {
            assert(l[i] == a[i - 4 - t.len()]);
        }
    }
}

/// Reading a day's entries: the week holds the days `dd`, then the day `d`
/// with the entries `es` read so far.
pub open spec fn in_day_state(
    ws: int,
    dd: Seq<(int, DayView)>,
    d: int,
    es: Seq<EntryView>,
) -> ParseState {
    ParseState {
        week: WeekView { week_start: ws, days: dd.push((d, es)), warnings: seq![] },
        current_day: Some(d),
        last_entry: read_state(es).last_entry,
    }
}

/// Every day of `dd` comes before `d`.
pub open spec fn dates_before(dd: Seq<(int, DayView)>, d: int) -> bool {
    forall|i: int| 0 <= i < dd.len() ==> dd[i].0 < d
}

proof fn lemma_day_pos_push(dd: Seq<(int, DayView)>, d: int, x: DayView)
    requires
        dates_before(dd, d),
    ensures
        day_pos(dd.push((d, x)), d) == dd.len(),
    decreases dd.len(),
{
    let days = dd.push((d, x));
    if dd.len() > 0 {
        let t = dd.drop_first();
        assert(days.drop_first() =~= t.push((d, x)));
        assert forall|i: int| 0 <= i < t.len() implies t[i].0 < d by {
            assert(t[i] == dd[i + 1]);
        }
        lemma_day_pos_push(t, d, x);
        assert(days[0] == dd[0]);
    }
}

/// An entry or sub-item line read inside the day `d`.
proof fn lemma_step_in_day(
    ws: int,
    dd: Seq<(int, DayView)>,
    d: int,
    es: Seq<EntryView>,
    n: int,
    l: Seq<char>,
    p: ParsedLineView,
)
    requires
        dates_before(dd, d),
        clean_line(l),
        l[0] != '#',
        l[0] != ';',
        parse_entry_spec(l) == Some(p),
        p.time_error is None,
        !add_parsed(es, read_state(es).last_entry, p).2,
    ensures
        ledger_step(in_day_state(ws, dd, d, es), n, l) == (ParseState {
            week: WeekView {
                week_start: ws,
                days: dd.push((d, add_parsed(es, read_state(es).last_entry, p).0)),
                warnings: seq![],
            },
            current_day: Some(d),
            last_entry: add_parsed(es, read_state(es).last_entry, p).1,
        }),
{
    let st = in_day_state(ws, dd, d, es);
    let days = dd.push((d, es));
    if has_prefix(l, week_prefix()) {
        assert(l.subrange(0, 7)[0] == l[0]);
    }
    if has_prefix(l, day_prefix()) {
        assert(l.subrange(0, 3)[0] == l[0]);
    }
    if has_prefix(l, seq![';', ';']) {
        assert(l.subrange(0, 2)[0] == l[0]);
    }
    lemma_day_pos_push(dd, d, es);
    assert(days[dd.len() as int].0 == d);
    assert(with_day(days, d) == days);
    let (nd, nl, orphan) = add_parsed(es, read_state(es).last_entry, p);
    assert(days.update(dd.len() as int, (d, nd)) =~= dd.push((d, nd)));
}

/// Reading an entry's line and the lines of its first `k` sub-items inside
/// the day `d`.
proof fn lemma_ledger_fold_subs(
    pre: Seq<Seq<char>>,
    st0: ParseState,
    ws: int,
    dd: Seq<(int, DayView)>,
    d: int,
    es: Seq<EntryView>,
    e: EntryView,
    k: int,
)
    requires
        ledger_fold(pre, st0) == in_day_state(ws, dd, d, es),
        dates_before(dd, d),
        plain_entry(e),
        0 <= k <= e.subs.len(),
    ensures
        ledger_fold(pre.push(entry_line(e)) + sub_lines(e.subs.take(k)), st0) == in_day_state(
            ws,
            dd,
            d,
            es.push(EntryView { subs: e.subs.take(k), ..e }),
        ),
    decreases k,
{
    let l = pre.push(entry_line(e));
    if k == 0 {
        assert(sub_lines(e.subs.take(0)) =~= Seq::<Seq<char>>::empty());
        assert(l + sub_lines(e.subs.take(0)) =~= l);
        assert(l.drop_last() =~= pre);
        lemma_entry_line(e);
        let pv = ParsedLineView {
            name: e.name,
            time: e.time,
            checked: e.checked,
            is_sub_item: false,
            time_error: None,
        };
        assert(entry_line(e)[0] == '-');
        lemma_step_in_day(ws, dd, d, es, l.len() as int, entry_line(e), pv);
        assert(e.subs.take(0) =~= Seq::<SubItemView>::empty());
        assert(es.push(EntryView { subs: e.subs.take(0), ..e }) =~= es.push(
            EntryView { name: e.name, time: e.time, checked: e.checked, subs: seq![] },
        ));
    } else {
        lemma_ledger_fold_subs(pre, st0, ws, dd, d, es, e, k - 1);
        let s = e.subs[k - 1];
        assert(plain_name(s.name) && time_fits(s.time));
        lemma_sub_line(s);
        let prev = l + sub_lines(e.subs.take(k - 1));
        let cur = l + sub_lines(e.subs.take(k));
        assert(e.subs.take(k) =~= e.subs.take(k - 1).push(s));
        assert(sub_lines(e.subs.take(k)) =~= sub_lines(e.subs.take(k - 1)).push(sub_line(s)));
        assert(cur =~= prev.push(sub_line(s)));
        assert(cur.drop_last() =~= prev);
        let es1 = es.push(EntryView { subs: e.subs.take(k - 1), ..e });
        let pv = ParsedLineView {
            name: s.name,
            time: s.time,
            checked: false,
            is_sub_item: true,
            time_error: None,
        };
        assert(sub_line(s)[0] == ' ');
        lemma_step_in_day(ws, dd, d, es1, cur.len() as int, sub_line(s), pv);
        assert(es1.update(
            es.len() as int,
            EntryView {
                subs: es1[es.len() as int].subs.push(SubItemView { name: s.name, time: s.time }),
                ..es1[es.len() as int]
            },
        ) =~= es.push(EntryView { subs: e.subs.take(k), ..e }));
    }
}

/// Reading the lines of a day's entries inside the day `d`.
proof fn lemma_ledger_fold_entries(
    pre: Seq<Seq<char>>,
    st0: ParseState,
    ws: int,
    dd: Seq<(int, DayView)>,
    d: int,
    es: Seq<EntryView>,
)
    requires
        ledger_fold(pre, st0) == in_day_state(ws, dd, d, seq![]),
        dates_before(dd, d),
        plain_day(es),
    ensures
        ledger_fold(pre + entries_lines(es), st0) == in_day_state(ws, dd, d, es),
    decreases es.len(),
{
    if es.len() == 0 {
        assert(pre + entries_lines(es) =~= pre);
        assert(es =~= Seq::<EntryView>::empty());
    } else {
        let p = es.drop_last();
        let e = es.last();
        assert(plain_entry(es[es.len() - 1]));
        assert forall|j: int| 0 <= j < p.len() implies plain_entry(#[trigger] p[j]) by {
            assert(p[j] == es[j]);
        }
        lemma_ledger_fold_entries(pre, st0, ws, dd, d, p);
        let pre1 = pre + entries_lines(p);
        lemma_ledger_fold_subs(pre1, st0, ws, dd, d, p, e, e.subs.len() as int);
        assert(e.subs.take(e.subs.len() as int) =~= e.subs);
        assert(p.push(e) =~= es);
        assert(pre + entries_lines(es) =~= pre1.push(entry_line(e)) + sub_lines(e.subs));
    }
}

/// Reading skipped and empty lines changes nothing.
proof fn lemma_ledger_fold_skips(pre: Seq<Seq<char>>, q: Seq<Seq<char>>, st0: ParseState)
    requires
        forall|i: int| 0 <= i < q.len() ==> skipped_line(#[trigger] q[i]) || q[i].len() == 0,
    ensures
        ledger_fold(pre + q, st0) == ledger_fold(pre, st0),
    decreases q.len(),
{
    if q.len() == 0 {
        assert(pre + q =~= pre);
    } else {
        let r = q.drop_last();
        assert forall|i: int| 0 <= i < r.len() implies skipped_line(#[trigger] r[i]) || r[i].len()
            == 0 by {
            assert(r[i] == q[i]);
        }
        lemma_ledger_fold_skips(pre, r, st0);
        assert((pre + q).drop_last() =~= pre + r);
        assert((pre + q).last() == q[q.len() - 1]);
        lemma_step_skipped(ledger_fold(pre + r, st0), (pre + q).len() as int, q[q.len() - 1]);
    }
}

/// Total lines of tasks are skipped lines, when every task has a display
/// name and no display name holds a line break.
proof fn lemma_item_lines_skipped(
    label: Seq<char>,
    items: Seq<(Seq<char>, int)>,
    names: Seq<(Seq<char>, Seq<char>)>,
)
    requires
        forall|i: int| 0 <= i < label.len() ==> label[i] != '\n',
        keys_named(items, names),
        values_free_of(names, '\n'),
    ensures
        forall|i: int|
            0 <= i < item_lines(label, items, names).len() ==> skipped_line(
                #[trigger] item_lines(label, items, names)[i],
            ),
{
    let ls = item_lines(label, items, names);
    assert forall|i: int| 0 <= i < ls.len() implies skipped_line(#[trigger] ls[i]) by {
        let key = items[i].0;
        assert(keys_of(names).contains(key));
        lemma_assoc_get_found(names, key);
        let j = choose|j: int| 0 <= j < names.len() && names[j].1 == display_name(names, key);
        let n = display_name(names, key);
        assert forall|x: int| 0 <= x < n.len() implies n[x] != '\n' by {
            assert(names[j].1[x] != '\n');
        }
        lemma_total_line_skipped(label, n, items[i].1);
    }
}

/// Filling in computed times keeps an entry plain when its sums fit.
proof fn lemma_computed_plain(e: EntryView)
    requires
        plain_entry(e),
        entry_fits(e),
    ensures
        plain_entry(computed_entry(e)),
{
    lemma_sub_sum_nonneg(e.subs);
    let c = computed_entry(e);
    assert(c.subs == e.subs);
}

/// The written days of a week are plain, and their names hold no line break.
proof fn lemma_written_days_plain(w: WeekView)
    requires
        forall|i: int| 0 <= i < w.days.len() ==> plain_day(#[trigger] w.days[i].1),
        days_fit(w.days),
    ensures
        forall|i: int|
            0 <= i < computed_days(w.days).len() ==> plain_day(
                #[trigger] computed_days(w.days)[i].1,
            ),
        names_free_of(computed_days(w.days), '\n'),
{
    let cd = computed_days(w.days);
    assert forall|i: int| 0 <= i < cd.len() implies plain_day(#[trigger] cd[i].1) by {
        assert(plain_day(w.days[i].1));
        assert forall|j: int| 0 <= j < cd[i].1.len() implies plain_entry(#[trigger] cd[i].1[j]) by {
            assert(plain_entry(w.days[i].1[j]));
            assert(entry_fits(w.days[i].1[j]));
            lemma_computed_plain(w.days[i].1[j]);
        }
    }
    assert forall|i: int, j: int| 0 <= i < cd.len() && 0 <= j < cd[i].1.len() implies entry_name_free(
        #[trigger] cd[i].1[j],
        '\n',
    ) by {
        assert(plain_day(cd[i].1));
        assert(plain_entry(cd[i].1[j]));
    }
}

/// The day written for `d` is plain.
proof fn lemma_written_day_plain(w: WeekView, d: int)
    requires
        forall|i: int|
            0 <= i < computed_days(w.days).len() ==> plain_day(
                #[trigger] computed_days(w.days)[i].1,
            ),
    ensures
        plain_day(written_day(w, d)),
{
    let cd = computed_days(w.days);
    let keys = cd.map_values(|p: (int, DayView)| p.0);
    lemma_first_index_bound(keys, d);
    let i = first_index(keys, d) as int;
    if i < cd.len() {
        assert(plain_day(cd[i].1));
    }
}

/// The lines of the `k`-th day of the written week after its entries: its
/// totals per task and in all, and an empty line.
pub open spec fn block_rest(w: WeekView, k: int) -> Seq<Seq<char>> {
    let t = totals_of(computed_days(w.days));
    let d = w.week_start + k;
    let items = match date_get(t.per_day_item, d) {
        Some(items) => items,
        None => seq![],
    };
    day_item_lines(counted_keys(written_day(w, d)), items, t.display_names) + seq![
        day_total_line(
            match date_get(t.per_day_total, d) {
                Some(m) => m,
                None => 0,
            },
        ),
        seq![],
    ]
}

/// Every entry of the written days has its task key among the display names.
pub open spec fn entry_keys_named(w: WeekView) -> bool {
    forall|i: int, j: int|
        0 <= i < computed_days(w.days).len() && 0 <= j < computed_days(w.days)[i].1.len()
            ==> keys_of(totals_of(computed_days(w.days)).display_names).contains(
            task_key_of(#[trigger] computed_days(w.days)[i].1[j].name),
        )
}

/// The counted keys of a written day have display names.
proof fn lemma_written_day_keys_named(w: WeekView, d: int)
    requires
        entry_keys_named(w),
    ensures
        forall|i: int|
            0 <= i < counted_keys(written_day(w, d)).len() ==> keys_of(
                totals_of(computed_days(w.days)).display_names,
            ).contains(#[trigger] counted_keys(written_day(w, d))[i]),
{
    let cd = computed_days(w.days);
    let keys = cd.map_values(|p: (int, DayView)| p.0);
    lemma_first_index_bound(keys, d);
    let fi = first_index(keys, d) as int;
    let es = written_day(w, d);
    lemma_counted_keys_from(es);
    assert forall|i: int| 0 <= i < counted_keys(es).len() implies keys_of(
        totals_of(cd).display_names,
    ).contains(#[trigger] counted_keys(es)[i]) by {
        let j = choose|j: int| 0 <= j < es.len() && counted_keys(es)[i] == task_key_of(es[j].name);
        assert(fi < cd.len());
        assert(es == cd[fi].1);
        assert(keys_of(totals_of(cd).display_names).contains(task_key_of(cd[fi].1[j].name)));
    }
}

/// The totals per task of a day are skipped lines, when every key has a
/// display name and no display name holds a line break.
proof fn lemma_day_item_lines_skipped(
    keys: Seq<Seq<char>>,
    items: Seq<(Seq<char>, int)>,
    names: Seq<(Seq<char>, Seq<char>)>,
)
    requires
        forall|i: int| 0 <= i < keys.len() ==> keys_of(names).contains(#[trigger] keys[i]),
        values_free_of(names, '\n'),
    ensures
        forall|i: int|
            0 <= i < day_item_lines(keys, items, names).len() ==> skipped_line(
                #[trigger] day_item_lines(keys, items, names)[i],
            ),
{
    let ls = day_item_lines(keys, items, names);
    assert forall|i: int| 0 <= i < ls.len() implies skipped_line(#[trigger] ls[i]) by {
        let key = keys[i];
        assert(keys_of(names).contains(key));
        lemma_assoc_get_found(names, key);
        let j = choose|j: int| 0 <= j < names.len() && names[j].1 == display_name(names, key);
        let n = display_name(names, key);
        assert forall|x: int| 0 <= x < n.len() implies n[x] != '\n' by {
            assert(names[j].1[x] != '\n');
        }
        let m = match assoc_get(items, key) {
            Some(m) => m,
            None => 0,
        };
        lemma_total_line_skipped(item_label(), n, m);
    }
}

/// The lines of the `k`-th day of the written week are good, and all but its
/// header and entries are skipped.
proof fn lemma_day_block_lines(w: WeekView, k: int)
    requires
        0 <= k < 7,
        date_text_reads_back(w.week_start + k),
        forall|i: int|
            0 <= i < computed_days(w.days).len() ==> plain_day(
                #[trigger] computed_days(w.days)[i].1,
            ),
        values_free_of(totals_of(computed_days(w.days)).display_names, '\n'),
        entry_keys_named(w),
    ensures
        day_block(computed_week(w), totals_of(computed_days(w.days)), k) == seq![
            day_header(w.week_start + k),
        ] + entries_lines(written_day(w, w.week_start + k)) + block_rest(w, k),
        forall|i: int|
            0 <= i < block_rest(w, k).len() ==> skipped_line(#[trigger] block_rest(w, k)[i])
                || block_rest(w, k)[i].len() == 0,
        forall|i: int|
            0 <= i < day_block(computed_week(w), totals_of(computed_days(w.days)), k).len()
                ==> good_line(
                #[trigger] day_block(computed_week(w), totals_of(computed_days(w.days)), k)[i],
            ),
{
    let cw = computed_week(w);
    let t = totals_of(cw.days);
    let d = w.week_start + k;
    let es = written_day(w, d);
    lemma_written_day_plain(w, d);
    let items = match date_get(t.per_day_item, d) {
        Some(items) => items,
        None => seq![],
    };
    let items_lines = day_item_lines(counted_keys(es), items, t.display_names);
    let m = match date_get(t.per_day_total, d) {
        Some(m) => m,
        None => 0,
    };
    let rest = items_lines + seq![day_total_line(m), seq![]];
    lemma_written_day_keys_named(w, d);
    lemma_day_item_lines_skipped(counted_keys(es), items, t.display_names);
    lemma_day_total_line_skipped(m);
    assert forall|i: int| 0 <= i < rest.len() implies skipped_line(#[trigger] rest[i])
        || rest[i].len() == 0 by {
        if i < items_lines.len() {
            assert(rest[i] == items_lines[i]);
        }
    }
    lemma_day_header(ParseState {
        week: WeekView { week_start: 0, days: seq![], warnings: seq![] },
        current_day: None,
        last_entry: None,
    }, 0, d);
    lemma_lines_clean(es);
    let el = entries_lines(es);
    let b = day_block(cw, t, k);
    assert(b == seq![day_header(d)] + el + rest);
    assert forall|i: int| 0 <= i < b.len() implies good_line(#[trigger] b[i]) by {
        if i == 0 {
        } else if i < 1 + el.len() {
            assert(b[i] == el[i - 1]);
            assert(clean_line(el[i - 1]));
        } else {
            assert(b[i] == rest[i - 1 - el.len()]);
            if rest[i - 1 - el.len()].len() > 0 {
                lemma_skipped_line(rest[i - 1 - el.len()]);
            }
        }
    }
}

/// The facts about a week that reading its text back rests on.
pub open spec fn week_writable(w: WeekView) -> bool {
    &&& entry_keys_named(w)
    &&& forall|i: int|
        0 <= i < computed_days(w.days).len() ==> plain_day(#[trigger] computed_days(w.days)[i].1)
    &&& values_free_of(totals_of(computed_days(w.days)).display_names, '\n')
    &&& keys_named(
        totals_of(computed_days(w.days)).per_week_item,
        totals_of(computed_days(w.days)).display_names,
    )
    &&& forall|i: int|
        0 <= i < totals_of(computed_days(w.days)).per_day_item.len() ==> keys_named(
            #[trigger] totals_of(computed_days(w.days)).per_day_item[i].1,
            totals_of(computed_days(w.days)).display_names,
        )
}

/// Reading the `k`-th day of the written week adds that day.
proof fn lemma_ledger_fold_block(pre: Seq<Seq<char>>, st0: ParseState, w: WeekView, k: int)
    requires
        0 <= k < 7,
        week_writable(w),
        date_text_reads_back(w.week_start + k),
        ledger_fold(pre, st0).week == (WeekView {
            week_start: w.week_start,
            days: reread_week(w).days.take(k),
            warnings: seq![],
        }),
    ensures
        ledger_fold(pre + day_block(computed_week(w), totals_of(computed_days(w.days)), k), st0).week
            == (WeekView {
            week_start: w.week_start,
            days: reread_week(w).days.take(k + 1),
            warnings: seq![],
        }),
{
    let ws = w.week_start;
    let cw = computed_week(w);
    let t = totals_of(cw.days);
    let d = ws + k;
    let es = written_day(w, d);
    let dd = reread_week(w).days.take(k);
    lemma_day_block_lines(w, k);
    lemma_written_day_plain(w, d);
    assert(dates_before(dd, d)) by {
        assert forall|i: int| 0 <= i < dd.len() implies dd[i].0 < d by {
            assert(dd[i].0 == ws + i);
        }
    }
    let st = ledger_fold(pre, st0);
    let pre1 = pre.push(day_header(d));
    assert(pre1.drop_last() =~= pre);
    lemma_day_header(st, pre1.len() as int, d);
    lemma_day_pos_all_before(dd, d);
    assert(with_day(dd, d) =~= dd.push((d, Seq::<EntryView>::empty())));
    assert(ledger_fold(pre1, st0) == in_day_state(ws, dd, d, seq![]));
    lemma_ledger_fold_entries(pre1, st0, ws, dd, d, es);
    let pre2 = pre1 + entries_lines(es);
    let rest = block_rest(w, k);
    lemma_ledger_fold_skips(pre2, rest, st0);
    assert(pre + day_block(cw, t, k) =~= pre2 + rest);
    assert(dd.push((d, es)) =~= reread_week(w).days.take(k + 1));
}

/// Reading the first `k` days of the written week.
proof fn lemma_ledger_fold_blocks(pre0: Seq<Seq<char>>, st0: ParseState, w: WeekView, k: nat)
    requires
        k <= 7,
        week_writable(w),
        forall|d: int| w.week_start <= d < w.week_start + 7 ==> #[trigger] date_text_reads_back(d),
        ledger_fold(pre0, st0).week == (WeekView {
            week_start: w.week_start,
            days: seq![],
            warnings: seq![],
        }),
    ensures
        ledger_fold(pre0 + day_blocks(computed_week(w), totals_of(computed_days(w.days)), k), st0).week
            == (WeekView {
            week_start: w.week_start,
            days: reread_week(w).days.take(k as int),
            warnings: seq![],
        }),
    decreases k,
{
    let cw = computed_week(w);
    let t = totals_of(cw.days);
    if k == 0 {
        assert(pre0 + day_blocks(cw, t, 0) =~= pre0);
        assert(reread_week(w).days.take(0) =~= Seq::<(int, DayView)>::empty());
    } else {
        lemma_ledger_fold_blocks(pre0, st0, w, (k - 1) as nat);
        assert(pre0 + day_blocks(cw, t, k) =~= (pre0 + day_blocks(cw, t, (k - 1) as nat))
            + day_block(cw, t, k - 1));
        assert(date_text_reads_back(w.week_start + (k - 1)));
        lemma_ledger_fold_block(pre0 + day_blocks(cw, t, (k - 1) as nat), st0, w, k - 1);
    }
}

/// The lines of the first `k` days of the written week are good.
proof fn lemma_day_blocks_good(w: WeekView, k: nat)
    requires
        k <= 7,
        week_writable(w),
        forall|d: int| w.week_start <= d < w.week_start + 7 ==> #[trigger] date_text_reads_back(d),
    ensures
        forall|i: int|
            0 <= i < day_blocks(computed_week(w), totals_of(computed_days(w.days)), k).len()
                ==> good_line(
                #[trigger] day_blocks(computed_week(w), totals_of(computed_days(w.days)), k)[i],
            ),
    decreases k,
{
    let cw = computed_week(w);
    let t = totals_of(cw.days);
    if k > 0 {
        lemma_day_blocks_good(w, (k - 1) as nat);
        assert(date_text_reads_back(w.week_start + (k - 1)));
        lemma_day_block_lines(w, k - 1);
        let a = day_blocks(cw, t, (k - 1) as nat);
        let b = day_block(cw, t, k - 1);
        let all = day_blocks(cw, t, k);
        assert(all == a + b);
        assert forall|i: int| 0 <= i < all.len() implies good_line(#[trigger] all[i]) by {
            if i < a.len() {
                assert(all[i] == a[i]);
            } else {
                assert(all[i] == b[i - a.len()]);
            }
        }
    }
}

/// The text of a week, read back, gives the week's start, its seven days
/// with their entries and computed times, and no warning. This holds when
/// every name is plain (not empty, no whitespace at either end, no `@` or
/// line break in it, not ending with `[x]`), every time and sub-item sum
/// fits in an `i64`, and `chrono` reads back each date text it writes for
/// the week, as [`crate::ledger::render::render_week`] states for the years
/// 1 to 9999.
pub proof fn lemma_week_text_roundtrip(w: WeekView, default_week_start: int)
    requires
        forall|i: int| 0 <= i < w.days.len() ==> plain_day(#[trigger] w.days[i].1),
        days_fit(w.days),
        forall|d: int| w.week_start <= d < w.week_start + 7 ==> #[trigger] date_text_reads_back(d),
    ensures
        parse_ledger_spec(render_text(w), default_week_start) == reread_week(w),
{
    let ws = w.week_start;
    let cw = computed_week(w);
    let t = totals_of(cw.days);
    lemma_written_days_plain(w);
    lemma_totals_named(cw.days, '\n');
    lemma_entry_keys_named(cw.days);
    assert(week_writable(w));
    let wh = week_header(ws);
    let pre0 = seq![wh, Seq::<char>::empty()];
    let blocks = day_blocks(cw, t, 7);
    let wil = item_lines(week_item_label(), t.per_week_item, t.display_names);
    let tail = seq![week_total_line(t.week_total)] + wil;
    let lines = render_lines(w);
    assert(lines =~= pre0 + blocks + tail + seq![Seq::<char>::empty()]);
    let st0 = ParseState {
        week: WeekView { week_start: default_week_start, days: seq![], warnings: seq![] },
        current_day: None,
        last_entry: None,
    };
    assert(date_text_reads_back(ws + 0));
    lemma_week_header(st0, 1, ws);
    lemma_day_blocks_good(w, 7);
    lemma_item_lines_skipped(week_item_label(), t.per_week_item, t.display_names);
    lemma_day_total_line_skipped(t.week_total);
    assert forall|i: int| 0 <= i < tail.len() implies skipped_line(#[trigger] tail[i]) by {
        if i > 0 {
            assert(tail[i] == wil[i - 1]);
        }
    }
    assert forall|i: int| 0 <= i < lines.len() implies good_line(#[trigger] lines[i]) by {
        if i == 0 {
        } else if i == 1 {
        } else if i < 2 + blocks.len() {
            assert(lines[i] == blocks[i - 2]);
        } else if i < 2 + blocks.len() + tail.len() {
            assert(lines[i] == tail[i - 2 - blocks.len()]);
            lemma_skipped_line(tail[i - 2 - blocks.len()]);
        } else {
        }
    }
    assert forall|i: int| 0 <= i < lines.len() implies line_piece(#[trigger] lines[i]) by {
        assert(good_line(lines[i]));
    }
    lemma_split_join_terminated(lines);
    let body = lines.drop_last();
    assert(body =~= pre0 + blocks + tail);
    assert(split_lines(render_text(w)) == body);
    let one = seq![wh];
    assert(one.drop_last() =~= Seq::<Seq<char>>::empty());
    assert(pre0.drop_last() =~= one);
    assert(ledger_fold(Seq::<Seq<char>>::empty(), st0) == st0);
    assert(ledger_fold(one, st0) == ledger_step(st0, 1, wh));
    lemma_step_skipped(ledger_fold(one, st0), 2, Seq::<char>::empty());
    assert(ledger_fold(pre0, st0) == ledger_step(ledger_fold(one, st0), 2, Seq::<char>::empty()));
    assert(ledger_fold(pre0, st0).week == (WeekView { week_start: ws, days: seq![], warnings: seq![] }));
    lemma_ledger_fold_blocks(pre0, st0, w, 7);
    lemma_ledger_fold_skips(pre0 + blocks, tail, st0);
    assert(reread_week(w).days.take(7) =~= reread_week(w).days);
}

} // verus!
