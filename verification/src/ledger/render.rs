//! Writing the ledger text of a week.
use vstd::prelude::*;

use crate::date::{date_text_reads_back, four_digit_year, spec_date_text, spec_iso_week, valid_day, weekday_abbrev_text, weekday_of, Date};
use crate::ledger::assoc::{
    assoc_get, assoc_lookup, assoc_lookup_name, lemma_assoc_get_minutes, lemma_assoc_get_value,
    minutes_table, names_table, values_nonneg,
};
use crate::ledger::model::{
    computed_day, computed_days, computed_entry, days_fit, effective_of, lemma_sub_sum_nonneg,
    resolve_entry,
    sub_total_of, DayView, Entry, EntryView, LedgerError, SubItem, SubItemView, WeekData,
    WeekView,
};
use crate::ledger::totals::{
    compute_totals, lemma_computed_times_keep_totals, task_key_of, lemma_totals_values_nonneg, lemma_week_total_is_sum_of_days, totals_fit,
    totals_of, TotalsView,
};
use crate::ledger::parse::{parse_entry_spec, parse_ledger_spec, ParsedLineView};
use crate::ledger::reread::{
    lemma_entry_line, lemma_sub_line, lemma_week_text_roundtrip, plain_day, plain_name,
    reread_week, time_fits,
};
use crate::text::{
    chars_eq, chars_of, decimal, join_with, seqs_of, push_char, push_chars, push_decimal, push_str, skip_ws_backward,
    skip_ws_forward, trim,
};
use crate::time_amount::{format_text, TimeAmount};

verus! {

// ---------------------------------------------------------------------------
// Lines of entries
// ---------------------------------------------------------------------------

/// ` @` and the time, when there is one.
pub open spec fn time_suffix(t: Option<nat>) -> Seq<char> {
    match t {
        Some(m) => seq![' ', '@'] + format_text(m),
        None => seq![],
    }
}

/// `- name @time [x]`.
pub open spec fn entry_line(e: EntryView) -> Seq<char> {
    seq!['-', ' '] + trim(e.name) + time_suffix(e.time) + if e.checked {
        seq![' ', '[', 'x', ']']
    } else {
        seq![]
    }
}

/// `  - name @time`.
pub open spec fn sub_line(s: SubItemView) -> Seq<char> {
    seq![' ', ' ', '-', ' '] + trim(s.name) + time_suffix(s.time)
}

pub open spec fn sub_lines(subs: Seq<SubItemView>) -> Seq<Seq<char>> {
    subs.map_values(|s: SubItemView| sub_line(s))
}

/// Each entry's line followed by its sub-items' lines.
pub open spec fn entries_lines(es: Seq<EntryView>) -> Seq<Seq<char>>
    decreases es.len(),
{
    if es.len() == 0 {
        seq![]
    } else {
        entries_lines(es.drop_last()) + seq![entry_line(es.last())] + sub_lines(es.last().subs)
    }
}

/// Lines, each followed by a line break.
pub open spec fn terminated(lines: Seq<Seq<char>>) -> Seq<char>
    decreases lines.len(),
{
    if lines.len() == 0 {
        seq![]
    } else {
        terminated(lines.drop_last()) + lines.last() + seq!['\n']
    }
}

/// Lines joined by line breaks, after a final empty line, end with a line break.
pub proof fn lemma_join_then_empty(lines: Seq<Seq<char>>)
    ensures
        join_with(lines.push(seq![]), seq!['\n']) == terminated(lines),
    decreases lines.len(),
{
    if lines.len() == 0 {
        assert(lines.push(seq![]) =~= seq![seq![]]);
    } else {
        lemma_join_nonempty(lines);
        assert(lines.push(seq![]).drop_last() =~= lines);
        assert(join_with(lines.push(seq![]), seq!['\n']) =~= join_with(lines, seq!['\n']) + seq![
            '\n',
        ]);
    }
}

proof fn lemma_join_nonempty(lines: Seq<Seq<char>>)
    requires
        lines.len() > 0,
    ensures
        join_with(lines, seq!['\n']) + seq!['\n'] == terminated(lines),
    decreases lines.len(),
{
    if lines.len() == 1 {
        assert(lines.drop_last() =~= Seq::<Seq<char>>::empty());
        assert(terminated(lines.drop_last()) == Seq::<char>::empty());
        assert(terminated(lines) =~= lines[0] + seq!['\n']);
    } else {
        lemma_join_nonempty(lines.drop_last());
        assert(join_with(lines, seq!['\n']) + seq!['\n'] =~= (join_with(
            lines.drop_last(),
            seq!['\n'],
        ) + seq!['\n']) + lines.last() + seq!['\n']);
    }
}

/// Adding a line to terminated lines appends it and a line break.
pub proof fn lemma_terminated_push(lines: Seq<Seq<char>>, l: Seq<char>)
    ensures
        terminated(lines.push(l)) == terminated(lines) + l + seq!['\n'],
{
    assert(lines.push(l).drop_last() =~= lines);
}

proof fn lemma_terminated_append(a: Seq<Seq<char>>, b: Seq<Seq<char>>)
    ensures
        terminated(a + b) == terminated(a) + terminated(b),
    decreases b.len(),
{
    if b.len() == 0 {
        assert(a + b =~= a);
    } else {
        lemma_terminated_append(a, b.drop_last());
        assert((a + b).drop_last() =~= a + b.drop_last());
    }
}

fn push_time_suffix(out: &mut String, t: Option<TimeAmount>)
    ensures
        final(out)@ == old(out)@ + time_suffix(
            match t {
                Some(a) => Some(a@),
                None => None,
            },
        ),
{
    match t {
        Some(a) => {
            push_char(out, ' ');
            push_char(out, '@');
            let f = a.format();
            push_str(out, f.as_str());
            assert(out@ =~= old(out)@ + time_suffix(Some(a@)));
        },
        None => {
            assert(out@ =~= old(out)@ + time_suffix(None));
        },
    }
}

fn push_trimmed(out: &mut String, name: &String)
    ensures
        final(out)@ == old(out)@ + trim(name@),
{
    let c = chars_of(name.as_str());
    assert(c@.subrange(0, c@.len() as int) =~= c@);
    let a = skip_ws_forward(&c, 0, c.len());
    let b = skip_ws_backward(&c, a, c.len());
    push_chars(out, &c, a, b);
}

fn push_entry_line(out: &mut String, name: &String, time: Option<TimeAmount>, checked: bool)
    ensures
        final(out)@ == old(out)@ + seq!['-', ' '] + trim(name@) + time_suffix(
            match time {
                Some(a) => Some(a@),
                None => None,
            },
        ) + if checked {
            seq![' ', '[', 'x', ']']
        } else {
            seq![]
        },
{
    push_char(out, '-');
    push_char(out, ' ');
    push_trimmed(out, name);
    push_time_suffix(out, time);
    if checked {
        push_char(out, ' ');
        push_char(out, '[');
        push_char(out, 'x');
        push_char(out, ']');
    }
    assert(out@ =~= old(out)@ + seq!['-', ' '] + trim(name@) + time_suffix(
        match time {
            Some(a) => Some(a@),
            None => None,
        },
    ) + if checked {
        seq![' ', '[', 'x', ']']
    } else {
        seq![]
    });
}

/// The ledger line of an entry: `- name @time [x]`. With a plain name and a
/// time that fits, [`crate::ledger::parse::parse_entry_line`] reads it back
/// as the entry.
pub fn render_entry_line(entry: &Entry) -> (r: String)
    ensures
        r@ == entry_line(entry@),
        plain_name(entry@.name) && time_fits(entry@.time) ==> parse_entry_spec(r@) == Some(
            ParsedLineView {
                name: entry@.name,
                time: entry@.time,
                checked: entry@.checked,
                is_sub_item: false,
                time_error: None,
            },
        ),
{
    let mut r = String::new();
    push_entry_line(&mut r, &entry.name, entry.time, entry.checked);
    assert(r@ =~= entry_line(entry@));
    proof {
        if plain_name(entry@.name) && time_fits(entry@.time) {
            lemma_entry_line(entry@);
        }
    }
    r
}

fn push_sub_line(out: &mut String, sub: &SubItem)
    ensures
        final(out)@ == old(out)@ + sub_line(sub@),
{
    push_char(out, ' ');
    push_char(out, ' ');
    push_char(out, '-');
    push_char(out, ' ');
    push_trimmed(out, &sub.name);
    push_time_suffix(out, sub.time);
    assert(out@ =~= old(out)@ + sub_line(sub@));
}

/// The ledger line of a sub-item: `  - name @time`. With a plain name and
/// a time that fits, [`crate::ledger::parse::parse_entry_line`] reads it back
/// as the sub-item.
pub fn render_sub_item_line(sub: &SubItem) -> (r: String)
    ensures
        r@ == sub_line(sub@),
        plain_name(sub@.name) && time_fits(sub@.time) ==> parse_entry_spec(r@) == Some(
            ParsedLineView {
                name: sub@.name,
                time: sub@.time,
                checked: false,
                is_sub_item: true,
                time_error: None,
            },
        ),
{
    let mut r = String::new();
    push_sub_line(&mut r, sub);
    assert(r@ =~= sub_line(sub@));
    proof {
        if plain_name(sub@.name) && time_fits(sub@.time) {
            lemma_sub_line(sub@);
        }
    }
    r
}

/// Appends the lines of an entry (with its time filled in from its sub-items
/// when it has none) and of its sub-items, each followed by a line break.
fn push_entry_block(out: &mut String, entry: &Entry, Ghost(lines): Ghost<Seq<Seq<char>>>)
    requires
        crate::ledger::model::entry_fits(entry@),
        old(out)@ == terminated(lines),
    ensures
        final(out)@ == terminated(
            lines + seq![entry_line(computed_entry(entry@))] + sub_lines(entry@.subs),
        ),
{
    let resolved = resolve_entry(entry);
    let mut time = entry.time;
    if entry.time.is_none() && resolved.sub_complete {
        match resolved.sub_total_minutes {
            Some(m) => {
                match TimeAmount::from_minutes(m) {
                    Ok(t) => {
                        time = Some(t);
                    },
                    Err(_) => {},
                }
            },
            None => {},
        }
    }
    proof {
        lemma_sub_sum_nonneg(entry@.subs);
    }
    let ghost ce = computed_entry(entry@);
    push_entry_line(out, &entry.name, time, entry.checked);
    assert(ce.name == entry@.name && ce.checked == entry.checked);
    assert(ce.time == match time {
        Some(a) => Some(a@),
        None => None,
    });
    push_char(out, '\n');
    let ghost l1 = lines + seq![entry_line(ce)];
    assert(l1 =~= lines.push(entry_line(ce)));
    proof {
        lemma_terminated_push(lines, entry_line(ce));
    }
    assert(out@ =~= terminated(l1));
    let mut m: usize = 0;
    let ghost subs = entry@.subs;
    assert(subs.take(0) =~= Seq::<SubItemView>::empty());
    assert(l1 + sub_lines(subs.take(0)) =~= l1);
    while m < entry.sub_items.len()
        invariant
            m <= entry.sub_items.len(),
            subs == entry@.subs,
            subs.len() == entry.sub_items.len(),
            out@ == terminated(l1 + sub_lines(subs.take(m as int))),
        decreases entry.sub_items.len() - m,
    {
        let ghost before = l1 + sub_lines(subs.take(m as int));
        push_sub_line(out, &entry.sub_items[m]);
        push_char(out, '\n');
        assert(subs[m as int] == entry.sub_items@[m as int]@);
        assert(l1 + sub_lines(subs.take(m + 1)) =~= before.push(sub_line(subs[m as int])));
        proof {
            lemma_terminated_push(before, sub_line(subs[m as int]));
        }
        assert(out@ =~= terminated(before) + sub_line(subs[m as int]) + seq!['\n']);
        m = m + 1;
    }
    assert(subs.take(m as int) =~= subs);
    assert(ce.subs == subs);
}

// ---------------------------------------------------------------------------
// The week
// ---------------------------------------------------------------------------

/// The index of the first pair whose date is `d`, or the length when none is.
pub open spec fn first_index(keys: Seq<int>, d: int) -> nat
    decreases keys.len(),
{
    if keys.len() == 0 {
        0
    } else if keys[0] == d {
        0
    } else {
        1 + first_index(keys.drop_first(), d)
    }
}

/// The value of the first pair whose date is `d`, if any.
pub open spec fn date_get<X>(s: Seq<(int, X)>, d: int) -> Option<X> {
    let i = first_index(s.map_values(|p: (int, X)| p.0), d) as int;
    if i < s.len() {
        Some(s[i].1)
    } else {
        None
    }
}

pub proof fn lemma_first_index_bound(keys: Seq<int>, d: int)
    ensures
        first_index(keys, d) <= keys.len(),
        first_index(keys, d) < keys.len() ==> keys[first_index(keys, d) as int] == d,
    decreases keys.len(),
{
    if keys.len() > 0 && keys[0] != d {
        lemma_first_index_bound(keys.drop_first(), d);
    }
}

pub(crate) fn date_index<X>(v: &Vec<(Date, X)>, d: Date) -> (r: usize)
    ensures
        r == first_index(v@.map_values(|p: (Date, X)| p.0@), d@),
        r <= v.len(),
{
    let ghost keys = v@.map_values(|p: (Date, X)| p.0@);
    let mut i: usize = 0;
    assert(keys.skip(0) =~= keys);
    while i < v.len()
        invariant
            i <= v.len(),
            keys.len() == v.len(),
            keys == v@.map_values(|p: (Date, X)| p.0@),
            first_index(keys, d@) == i + first_index(keys.skip(i as int), d@),
        decreases v.len() - i,
    {
        assert(keys.skip(i as int)[0] == keys[i as int]);
        if v[i].0.same(d) {
            return i;
        }
        assert(keys.skip(i as int).drop_first() =~= keys.skip(i + 1));
        i = i + 1;
    }
    assert(keys.skip(i as int) =~= Seq::<int>::empty());
    i
}

/// The display name of a task key: the first name written for it, else the key.
pub open spec fn display_name(names: Seq<(Seq<char>, Seq<char>)>, key: Seq<char>) -> Seq<char> {
    match assoc_get(names, key) {
        Some(n) => n,
        None => key,
    }
}

/// `;; label name @time`.
pub open spec fn total_line(label: Seq<char>, name: Seq<char>, minutes: int) -> Seq<char> {
    seq![';', ';', ' '] + label + seq![' '] + name + seq![' ', '@'] + format_text(minutes as nat)
}

pub open spec fn item_label() -> Seq<char> {
    seq!['i', 't', 'e', 'm', '-', 't', 'o', 't', 'a', 'l']
}

pub open spec fn week_item_label() -> Seq<char> {
    seq!['w', 'e', 'e', 'k', '-', 'i', 't', 'e', 'm', '-', 't', 'o', 't', 'a', 'l']
}

/// One total line per task, in the order of the table.
pub open spec fn item_lines(
    label: Seq<char>,
    items: Seq<(Seq<char>, int)>,
    names: Seq<(Seq<char>, Seq<char>)>,
) -> Seq<Seq<char>> {
    items.map_values(|p: (Seq<char>, int)| total_line(label, display_name(names, p.0), p.1))
}

/// `;; day-total @time`.
pub open spec fn day_total_line(minutes: int) -> Seq<char> {
    seq![';', ';', ' ', 'd', 'a', 'y', '-', 't', 'o', 't', 'a', 'l', ' ', '@'] + format_text(
        minutes as nat,
    )
}

/// `;; week-total @time`.
pub open spec fn week_total_line(minutes: int) -> Seq<char> {
    seq![';', ';', ' ', 'w', 'e', 'e', 'k', '-', 't', 'o', 't', 'a', 'l', ' ', '@'] + format_text(
        minutes as nat,
    )
}

/// `# Week date`.
pub open spec fn week_header(d: int) -> Seq<char> {
    seq!['#', ' ', 'W', 'e', 'e', 'k', ' '] + spec_date_text(d)
}

/// `## date Wkd`.
pub open spec fn day_header(d: int) -> Seq<char> {
    seq!['#', '#', ' '] + spec_date_text(d) + seq![' '] + weekday_abbrev_text(weekday_of(d))
}

/// The task keys of the entries that count for a time, each once, in the
/// order of the first entry that counts for it.
pub open spec fn counted_keys(es: Seq<EntryView>) -> Seq<Seq<char>>
    decreases es.len(),
{
    if es.len() == 0 {
        seq![]
    } else {
        let ks = counted_keys(es.drop_last());
        let k = task_key_of(es.last().name);
        if effective_of(es.last()) is Some && !ks.contains(k) {
            ks.push(k)
        } else {
            ks
        }
    }
}

/// The totals per task of a day: one line per key, in the given order, with
/// the key's minutes in `items`.
pub open spec fn day_item_lines(
    keys: Seq<Seq<char>>,
    items: Seq<(Seq<char>, int)>,
    names: Seq<(Seq<char>, Seq<char>)>,
) -> Seq<Seq<char>> {
    keys.map_values(
        |k: Seq<char>|
            total_line(
                item_label(),
                display_name(names, k),
                match assoc_get(items, k) {
                    Some(m) => m,
                    None => 0,
                },
            ),
    )
}

/// The lines of the `k`-th day of the week (0 for Monday): its header, its
/// entries, its totals per task in the order of the tasks' first entries,
/// its total, and an empty line.
pub open spec fn day_block(w: WeekView, t: TotalsView, k: int) -> Seq<Seq<char>> {
    let d = w.week_start + k;
    let es = match date_get(w.days, d) {
        Some(es) => es,
        None => seq![],
    };
    let items = match date_get(t.per_day_item, d) {
        Some(items) => items,
        None => seq![],
    };
    seq![day_header(d)] + entries_lines(es) + day_item_lines(
        counted_keys(es),
        items,
        t.display_names,
    ) + seq![
        day_total_line(
            match date_get(t.per_day_total, d) {
                Some(m) => m,
                None => 0,
            },
        ),
        seq![],
    ]
}

pub open spec fn day_blocks(w: WeekView, t: TotalsView, k: nat) -> Seq<Seq<char>>
    decreases k,
{
    if k == 0 {
        seq![]
    } else {
        day_blocks(w, t, (k - 1) as nat) + day_block(w, t, k - 1)
    }
}

/// The week with every parent time filled in from its sub-items.
pub open spec fn computed_week(w: WeekView) -> WeekView {
    WeekView { days: computed_days(w.days), ..w }
}

/// The lines of the ledger text of a week: its header, its seven days, then
/// the week's total and totals per task, and a final empty line.
pub open spec fn render_lines(w: WeekView) -> Seq<Seq<char>> {
    let cw = computed_week(w);
    let t = totals_of(cw.days);
    seq![week_header(w.week_start), seq![]] + day_blocks(cw, t, 7) + seq![
        week_total_line(t.week_total),
    ] + item_lines(week_item_label(), t.per_week_item, t.display_names) + seq![seq![]]
}

/// The ledger text of a week: its lines joined by line breaks.
pub open spec fn render_text(w: WeekView) -> Seq<char> {
    join_with(render_lines(w), seq!['\n'])
}

fn push_total_line(
    out: &mut String,
    is_week: bool,
    names: &Vec<(String, String)>,
    key: &String,
    minutes: i64,
    Ghost(lines): Ghost<Seq<Seq<char>>>,
)
    requires
        old(out)@ == terminated(lines),
        minutes >= 0,
    ensures
        final(out)@ == terminated(
            lines.push(
                total_line(
                    if is_week {
                        week_item_label()
                    } else {
                        item_label()
                    },
                    display_name(names_table(names@), key@),
                    minutes as int,
                ),
            ),
        ),
{
    let label = if is_week {
        "week-item-total"
    } else {
        "item-total"
    };
    proof {
        reveal_strlit("week-item-total");
        reveal_strlit("item-total");
    }
    push_char(out, ';');
    push_char(out, ';');
    push_char(out, ' ');
    push_str(out, label);
    push_char(out, ' ');
    let key_chars = chars_of(key.as_str());
    match assoc_lookup_name(names, &key_chars) {
        Some(n) => push_str(out, n.as_str()),
        None => push_str(out, key.as_str()),
    }
    push_char(out, ' ');
    push_char(out, '@');
    let t = TimeAmount::from_minutes(minutes);
    match t {
        Ok(a) => {
            let f = a.format();
            push_str(out, f.as_str());
        },
        Err(_) => {},
    }
    push_char(out, '\n');
    let ghost line = total_line(
        if is_week {
            week_item_label()
        } else {
            item_label()
        },
        display_name(names_table(names@), key@),
        minutes as int,
    );
    proof {
        lemma_terminated_push(lines, line);
    }
    assert(out@ =~= terminated(lines.push(line)));
}

fn push_day_total_line(out: &mut String, minutes: i64, Ghost(lines): Ghost<Seq<Seq<char>>>)
    requires
        old(out)@ == terminated(lines),
        minutes >= 0,
    ensures
        final(out)@ == terminated(lines + seq![day_total_line(minutes as int), seq![]]),
{
    push_str(out, ";; day-total @");
    proof {
        reveal_strlit(";; day-total @");
    }
    match TimeAmount::from_minutes(minutes) {
        Ok(a) => {
            let f = a.format();
            push_str(out, f.as_str());
        },
        Err(_) => {},
    }
    push_char(out, '\n');
    push_char(out, '\n');
    let ghost l2 = lines + seq![day_total_line(minutes as int), seq![]];
    assert(l2 =~= lines.push(day_total_line(minutes as int)).push(seq![]));
    proof {
        lemma_terminated_push(lines, day_total_line(minutes as int));
        lemma_terminated_push(lines.push(day_total_line(minutes as int)), seq![]);
    }
    assert(out@ =~= terminated(l2));
}

fn push_day_entries(out: &mut String, day: &crate::ledger::model::Day, Ghost(lines): Ghost<Seq<Seq<char>>>)
    requires
        old(out)@ == terminated(lines),
        forall|j: int| 0 <= j < day@.len() ==> crate::ledger::model::entry_fits(#[trigger] day@[j]),
    ensures
        final(out)@ == terminated(lines + entries_lines(computed_day(day@))),
{
    let ghost es = day@;
    let ghost mut cur = lines;
    let mut j: usize = 0;
    assert(computed_day(es).take(0) =~= Seq::<EntryView>::empty());
    assert(lines + entries_lines(computed_day(es).take(0)) =~= lines);
    while j < day.entries.len()
        invariant
            j <= day.entries.len(),
            day@ == es,
            es.len() == day.entries.len(),
            forall|q: int| 0 <= q < es.len() ==> crate::ledger::model::entry_fits(#[trigger] es[q]),
            cur == lines + entries_lines(computed_day(es).take(j as int)),
            out@ == terminated(cur),
        decreases day.entries.len() - j,
    {
        let ghost prev = cur;
        assert(day.entries@[j as int]@ == es[j as int]);
        assert(crate::ledger::model::entry_fits(es[j as int]));
        push_entry_block(out, &day.entries[j], Ghost(cur));
        proof {
            let ce = computed_entry(es[j as int]);
            let cd = computed_day(es);
            assert(cd.take(j + 1).drop_last() =~= cd.take(j as int));
            assert(cd.take(j + 1).last() == ce);
            assert(ce.subs == es[j as int].subs);
            cur = prev + seq![entry_line(ce)] + sub_lines(es[j as int].subs);
            assert(cur =~= lines + entries_lines(cd.take(j + 1)));
        }
        j = j + 1;
    }
    assert(computed_day(es).take(j as int) =~= computed_day(es));
}

fn push_item_totals(
    out: &mut String,
    is_week: bool,
    items: &Vec<(String, i64)>,
    names: &Vec<(String, String)>,
    Ghost(lines): Ghost<Seq<Seq<char>>>,
)
    requires
        old(out)@ == terminated(lines),
        values_nonneg(minutes_table(items@)),
    ensures
        final(out)@ == terminated(
            lines + item_lines(
                if is_week {
                    week_item_label()
                } else {
                    item_label()
                },
                minutes_table(items@),
                names_table(names@),
            ),
        ),
{
    let ghost its = minutes_table(items@);
    let ghost label = if is_week {
        week_item_label()
    } else {
        item_label()
    };
    let ghost mut cur = lines;
    let mut m: usize = 0;
    assert(lines + item_lines(label, its.take(0), names_table(names@)) =~= lines);
    while m < items.len()
        invariant
            m <= items.len(),
            its == minutes_table(items@),
            its.len() == items.len(),
            values_nonneg(its),
            label == if is_week {
                week_item_label()
            } else {
                item_label()
            },
            cur == lines + item_lines(label, its.take(m as int), names_table(names@)),
            out@ == terminated(cur),
        decreases items.len() - m,
    {
        let ghost prev = cur;
        assert(its[m as int] == (items@[m as int].0@, items@[m as int].1 as int));
        assert(its[m as int].1 >= 0);
        push_total_line(out, is_week, names, &items[m].0, items[m].1, Ghost(cur));
        proof {
            cur = prev.push(
                total_line(label, display_name(names_table(names@), its[m as int].0), its[m as int].1),
            );
            assert(its.take(m + 1) =~= its.take(m as int).push(its[m as int]));
            assert(cur =~= lines + item_lines(label, its.take(m + 1), names_table(names@)));
        }
        m = m + 1;
    }
    assert(its.take(m as int) =~= its);
}

/// Every counted key is the task key of one of the entries.
pub proof fn lemma_counted_keys_from(es: Seq<EntryView>)
    ensures
        forall|i: int|
            0 <= i < counted_keys(es).len() ==> exists|j: int|
                0 <= j < es.len() && #[trigger] counted_keys(es)[i] == task_key_of(es[j].name),
    decreases es.len(),
{
    if es.len() > 0 {
        let p = es.drop_last();
        lemma_counted_keys_from(p);
        let ks = counted_keys(es);
        assert forall|i: int| 0 <= i < ks.len() implies exists|j: int|
            0 <= j < es.len() && #[trigger] ks[i] == task_key_of(es[j].name) by {
            if i < counted_keys(p).len() {
                assert(ks[i] == counted_keys(p)[i]);
                let j = choose|j: int| 0 <= j < p.len() && counted_keys(p)[i] == task_key_of(p[j].name);
                assert(es[j] == p[j]);
            } else {
                assert(ks[i] == task_key_of(es[es.len() - 1].name));
            }
        }
    }
}

/// Filling in computed times keeps which entries count and their keys.
proof fn lemma_counted_keys_computed(es: Seq<EntryView>)
    ensures
        counted_keys(computed_day(es)) == counted_keys(es),
    decreases es.len(),
{
    if es.len() > 0 {
        let c = computed_day(es);
        assert(c.drop_last() =~= computed_day(es.drop_last()));
        lemma_counted_keys_computed(es.drop_last());
        let e = es.last();
        lemma_sub_sum_nonneg(e.subs);
        assert(c.last() == computed_entry(e));
    }
}

/// Whether `k` is one of the keys.
fn contains_chars(v: &Vec<Vec<char>>, k: &Vec<char>) -> (r: bool)
    ensures
        r == seqs_of(v@).contains(k@),
{
    let mut i: usize = 0;
    while i < v.len()
        invariant
            i <= v.len(),
            forall|j: int| 0 <= j < i ==> v@[j]@ != k@,
        decreases v.len() - i,
    {
        if chars_eq(&v[i], k) {
            assert(seqs_of(v@)[i as int] == k@);
            return true;
        }
        i = i + 1;
    }
    assert forall|j: int| 0 <= j < seqs_of(v@).len() implies seqs_of(v@)[j] != k@ by {
        assert(seqs_of(v@)[j] == v@[j]@);
    }
    false
}

/// Writes a day's totals per task, in the order of the tasks' first entries
/// that count for a time.
fn push_day_item_totals(
    out: &mut String,
    day: &crate::ledger::model::Day,
    items: &Vec<(String, i64)>,
    names: &Vec<(String, String)>,
    Ghost(lines): Ghost<Seq<Seq<char>>>,
)
    requires
        old(out)@ == terminated(lines),
        values_nonneg(minutes_table(items@)),
        forall|j: int| 0 <= j < day@.len() ==> crate::ledger::model::entry_fits(#[trigger] day@[j]),
    ensures
        final(out)@ == terminated(
            lines + day_item_lines(counted_keys(day@), minutes_table(items@), names_table(names@)),
        ),
{
    let ghost es = day@;
    let ghost its = minutes_table(items@);
    let ghost nms = names_table(names@);
    let mut seen: Vec<Vec<char>> = Vec::new();
    let ghost mut cur = lines;
    let mut j: usize = 0;
    assert(es.take(0) =~= Seq::<EntryView>::empty());
    assert(seqs_of(seen@) =~= counted_keys(es.take(0)));
    assert(lines + day_item_lines(counted_keys(es.take(0)), its, nms) =~= lines);
    while j < day.entries.len()
        invariant
            j <= day.entries.len(),
            es == day@,
            es.len() == day.entries.len(),
            its == minutes_table(items@),
            nms == names_table(names@),
            values_nonneg(its),
            forall|i: int| 0 <= i < es.len() ==> crate::ledger::model::entry_fits(#[trigger] es[i]),
            seqs_of(seen@) == counted_keys(es.take(j as int)),
            cur == lines + day_item_lines(counted_keys(es.take(j as int)), its, nms),
            out@ == terminated(cur),
        decreases day.entries.len() - j,
    {
        let e = &day.entries[j];
        assert(e@ == es[j as int]);
        assert(es.take(j + 1).drop_last() =~= es.take(j as int));
        assert(es.take(j + 1).last() == es[j as int]);
        let r = resolve_entry(e);
        if r.effective_minutes.is_some() {
            let key = crate::ledger::totals::task_key(e.name.as_str());
            let kc = chars_of(key.as_str());
            if !contains_chars(&seen, &kc) {
                let ghost prev = cur;
                let m: i64 = match assoc_lookup(items, &kc) {
                    Some(m) => m,
                    None => 0,
                };
                proof {
                    lemma_assoc_get_minutes(items@, kc@);
                    lemma_assoc_get_value(its, kc@);
                    if assoc_get(its, kc@) is Some {
                        let i = choose|i: int| 0 <= i < its.len() && its[i].1 == assoc_get(its, kc@)->0;
                        assert(its[i].1 >= 0);
                    }
                }
                assert(m as int == match assoc_get(its, kc@) {
                    Some(v) => v,
                    None => 0,
                });
                push_total_line(out, false, names, &key, m, Ghost(cur));
                let ghost ks = seqs_of(seen@);
                seen.push(kc);
                proof {
                    assert(seqs_of(seen@) =~= ks.push(key@));
                    cur = prev.push(total_line(item_label(), display_name(nms, key@), m as int));
                    assert(day_item_lines(ks.push(key@), its, nms) =~= day_item_lines(ks, its, nms).push(
                        total_line(item_label(), display_name(nms, key@), m as int),
                    ));
                    assert(cur =~= lines + day_item_lines(counted_keys(es.take(j + 1)), its, nms));
                }
            }
        }
        j = j + 1;
    }
    assert(es.take(j as int) =~= es);
}

fn push_day_block(
    out: &mut String,
    week: &WeekData,
    totals: &crate::ledger::totals::Totals,
    k: i64,
    Ghost(lines): Ghost<Seq<Seq<char>>>,
)
    requires
        0 <= k < 7,
        old(out)@ == terminated(lines),
        totals@ == totals_of(computed_week(week@).days),
        days_fit(week@.days),
        valid_day(week@.week_start + 6),
        valid_day(week@.week_start),
        forall|i: int| 0 <= i < totals@.per_day_total.len() ==> (#[trigger] totals@.per_day_total[i]).1 >= 0,
        forall|i: int|
            0 <= i < totals@.per_day_item.len() ==> values_nonneg((#[trigger] totals@.per_day_item[i]).1),
    ensures
        final(out)@ == terminated(lines + day_block(computed_week(week@), totals@, k as int)),
        four_digit_year(week@.week_start + k) ==> date_text_reads_back(week@.week_start + k),
{
    let ghost w = week@;
    let ghost cw = computed_week(w);
    let ghost t = totals@;
    let date = week.week_start.add_days(k);
    let ghost d = date@;
    push_str(out, "## ");
    proof {
        reveal_strlit("## ");
    }
    let dt = date.iso_text();
    push_str(out, dt.as_str());
    push_char(out, ' ');
    let wd = date.weekday_abbrev();
    push_str(out, wd.as_str());
    push_char(out, '\n');
    proof {
        lemma_terminated_push(lines, day_header(d));
    }
    let ghost l1 = lines.push(day_header(d));
    assert(out@ =~= terminated(l1));
    // The day's entries.
    let di = date_index(&week.days, date);
    let ghost dkeys = week.days@.map_values(|p: (Date, crate::ledger::model::Day)| p.0@);
    assert(cw.days.map_values(|p: (int, DayView)| p.0) =~= dkeys);
    proof {
        lemma_first_index_bound(dkeys, d);
    }
    let ghost es_lines: Seq<Seq<char>> = match date_get(cw.days, d) {
        Some(es) => entries_lines(es),
        None => seq![],
    };
    if di < week.days.len() {
        let day = &week.days[di].1;
        assert(day@ == w.days[di as int].1);
        assert(date_get(cw.days, d) == Some(computed_day(day@)));
        assert forall|j: int| 0 <= j < day@.len() implies crate::ledger::model::entry_fits(
            #[trigger] day@[j],
        ) by {
            assert(crate::ledger::model::entry_fits(w.days[di as int].1[j]));
        }
        push_day_entries(out, day, Ghost(l1));
    } else {
        assert(date_get(cw.days, d) is None);
        assert(l1 + es_lines =~= l1);
    }
    let ghost l2 = l1 + es_lines;
    // The day's totals per task.
    let ti = date_index(&totals.per_day_item, date);
    let ghost tkeys = totals.per_day_item@.map_values(|p: (Date, Vec<(String, i64)>)| p.0@);
    assert(t.per_day_item.map_values(|p: (int, Seq<(Seq<char>, int)>)| p.0) =~= tkeys);
    proof {
        lemma_first_index_bound(tkeys, d);
    }
    let ghost d_es: Seq<EntryView> = match date_get(cw.days, d) {
        Some(es) => es,
        None => seq![],
    };
    let ghost d_items: Seq<(Seq<char>, int)> = match date_get(t.per_day_item, d) {
        Some(items) => items,
        None => seq![],
    };
    let ghost it_lines = day_item_lines(counted_keys(d_es), d_items, t.display_names);
    if di < week.days.len() {
        let day = &week.days[di].1;
        proof {
            lemma_counted_keys_computed(day@);
        }
        assert forall|j: int| 0 <= j < day@.len() implies crate::ledger::model::entry_fits(
            #[trigger] day@[j],
        ) by {
            assert(crate::ledger::model::entry_fits(w.days[di as int].1[j]));
        }
        if ti < totals.per_day_item.len() {
            assert(minutes_table(totals.per_day_item@[ti as int].1@) == t.per_day_item[ti as int].1);
            assert(values_nonneg(t.per_day_item[ti as int].1));
            push_day_item_totals(out, day, &totals.per_day_item[ti].1, &totals.display_names, Ghost(l2));
        } else {
            let empty: Vec<(String, i64)> = Vec::new();
            assert(minutes_table(empty@) =~= Seq::<(Seq<char>, int)>::empty());
            push_day_item_totals(out, day, &empty, &totals.display_names, Ghost(l2));
        }
    } else {
        assert(counted_keys(d_es) =~= Seq::<Seq<char>>::empty());
        assert(l2 + it_lines =~= l2);
    }
    let ghost l3 = l2 + it_lines;
    // The day's total.
    let pi = date_index(&totals.per_day_total, date);
    let ghost pkeys = totals.per_day_total@.map_values(|p: (Date, i64)| p.0@);
    assert(t.per_day_total.map_values(|p: (int, int)| p.0) =~= pkeys);
    let day_total = if pi < totals.per_day_total.len() {
        assert(t.per_day_total[pi as int].1 >= 0);
        totals.per_day_total[pi].1
    } else {
        0
    };
    assert(day_total as int == match date_get(t.per_day_total, d) {
        Some(m) => m,
        None => 0,
    });
    push_day_total_line(out, day_total, Ghost(l3));
    assert(l3 + seq![day_total_line(day_total as int), seq![]] =~= lines + day_block(
        cw,
        t,
        k as int,
    ));
}

/// Writes the ledger text of a week: every parent without a time takes the
/// sum of its sub-items, and the totals per day, per task and per week are
/// written after the entries. In a week of the years 1 to 9999 whose names
/// are plain and whose times fit, the text reads back to the same week
/// ([`crate::ledger::reread::lemma_week_text_roundtrip`]).
pub fn render_week(week: &WeekData) -> (r: Result<String, LedgerError>)
    requires
        totals_fit(week@.days),
        valid_day(week@.week_start + 6),
    ensures
        r matches Ok(s) && s@ == render_text(week@),
        forall|d: int|
            week@.week_start <= d < week@.week_start + 7 && four_digit_year(d)
                ==> #[trigger] date_text_reads_back(d),
        (forall|i: int| 0 <= i < week@.days.len() ==> plain_day(#[trigger] week@.days[i].1))
            && days_fit(week@.days) && four_digit_year(week@.week_start) && four_digit_year(
            week@.week_start + 6,
        ) ==> forall|d: int| #[trigger]
            parse_ledger_spec(render_text(week@), d) == reread_week(week@),
{
    let ghost w = week@;
    let ghost cw = computed_week(w);
    proof {
        lemma_computed_times_keep_totals(w.days);
        lemma_totals_values_nonneg(cw.days);
    }
    let totals = compute_totals(week);
    let ghost t = totals_of(cw.days);
    assert(totals@ == t);
    let mut out = String::new();
    let start_number = week.week_start.day_number();
    push_str(&mut out, "# Week ");
    proof {
        reveal_strlit("# Week ");
    }
    let head = week.week_start.iso_text();
    push_str(&mut out, head.as_str());
    push_char(&mut out, '\n');
    push_char(&mut out, '\n');
    let ghost mut lines: Seq<Seq<char>> = seq![week_header(w.week_start), seq![]];
    proof {
        let e: Seq<Seq<char>> = seq![];
        lemma_terminated_push(e, week_header(w.week_start));
        lemma_terminated_push(e.push(week_header(w.week_start)), seq![]);
        assert(e.push(week_header(w.week_start)).push(seq![]) =~= lines);
        assert(terminated(e) == Seq::<char>::empty());
        assert(out@ =~= terminated(lines));
        assert(lines + day_blocks(cw, t, 0) =~= lines);
    }
    let ghost header = lines;
    let mut k: i64 = 0;
    while k < 7
        invariant
            0 <= k <= 7,
            w == week@,
            cw == computed_week(w),
            t == totals_of(cw.days),
            totals@ == t,
            totals_fit(w.days),
            valid_day(w.week_start + 6),
            valid_day(w.week_start),
            forall|i: int| 0 <= i < t.per_day_total.len() ==> (#[trigger] t.per_day_total[i]).1 >= 0,
            forall|i: int|
                0 <= i < t.per_day_item.len() ==> values_nonneg((#[trigger] t.per_day_item[i]).1),
            lines == header + day_blocks(cw, t, k as nat),
            out@ == terminated(lines),
            forall|d: int|
                w.week_start <= d < w.week_start + k && four_digit_year(d)
                    ==> #[trigger] date_text_reads_back(d),
        decreases 7 - k,
    {
        push_day_block(&mut out, week, &totals, k, Ghost(lines));
        proof {
            lines = lines + day_block(cw, t, k as int);
            assert(header + day_blocks(cw, t, (k + 1) as nat) =~= lines);
        }
        k = k + 1;
    }
    // The week's totals.
    let ghost before_week = lines;
    push_str(&mut out, ";; week-total @");
    proof {
        reveal_strlit(";; week-total @");
    }
    match TimeAmount::from_minutes(totals.week_total) {
        Ok(a) => {
            let f = a.format();
            push_str(&mut out, f.as_str());
        },
        Err(_) => {},
    }
    push_char(&mut out, '\n');
    proof {
        lemma_terminated_push(lines, week_total_line(t.week_total));
        lines = lines.push(week_total_line(t.week_total));
    }
    assert(out@ =~= terminated(lines));
    push_item_totals(&mut out, true, &totals.per_week_item, &totals.display_names, Ghost(lines));
    proof {
        lines = lines + item_lines(week_item_label(), t.per_week_item, t.display_names);
        lemma_join_then_empty(lines);
        assert(lines.push(seq![]) =~= render_lines(w));
        if (forall|i: int| 0 <= i < w.days.len() ==> plain_day(#[trigger] w.days[i].1))
            && days_fit(w.days) && four_digit_year(w.week_start) && four_digit_year(
            w.week_start + 6,
        ) {
            assert forall|d: int|
                w.week_start <= d < w.week_start + 7 implies #[trigger] date_text_reads_back(d) by {
                assert(four_digit_year(d));
            }
            lemma_week_text_roundtrip(w, 0);
            assert forall|d: int|
                #[trigger] parse_ledger_spec(render_text(w), d) == reread_week(w) by {
                lemma_week_text_roundtrip(w, d);
            }
        }
    }
    Ok(out)
}

// ---------------------------------------------------------------------------
// Minutes and file names
// ---------------------------------------------------------------------------

/// The text of a number of minutes: as [`TimeAmount::format`] writes it, or
/// `0m` for a negative number.
pub open spec fn minutes_text(minutes: int) -> Seq<char> {
    if minutes < 0 {
        seq!['0', 'm']
    } else {
        format_text(minutes as nat)
    }
}

/// Writes a number of minutes, `0m` when it is negative.
pub fn format_minutes(minutes: i64) -> (r: String)
    ensures
        r@ == minutes_text(minutes as int),
{
    match TimeAmount::from_minutes(minutes) {
        Ok(amount) => amount.format(),
        Err(_) => {
            let mut r = String::new();
            push_char(&mut r, '0');
            push_char(&mut r, 'm');
            assert(r@ =~= seq!['0', 'm']);
            r
        },
    }
}

/// `digits` with zeros in front, up to `width` characters.
pub open spec fn zero_padded(digits: Seq<char>, width: int) -> Seq<char> {
    if digits.len() < width {
        Seq::new((width - digits.len()) as nat, |i: int| '0') + digits
    } else {
        digits
    }
}

/// The text of `format!("{:0width$}", v)`: the sign, then the digits padded
/// with zeros so that sign and digits take `width` characters.
pub open spec fn padded_int(v: int, width: int) -> Seq<char> {
    if v < 0 {
        seq!['-'] + zero_padded(decimal((-v) as nat), width - 1)
    } else {
        zero_padded(decimal(v as nat), width)
    }
}

/// The name of the ledger file of the ISO week of day `n`: `YYYY-Www.ledger`.
pub open spec fn week_file_text(n: int) -> Seq<char> {
    padded_int(spec_iso_week(n).0, 4) + seq!['-', 'W'] + zero_padded(decimal(spec_iso_week(n).1 as nat), 2)
        + seq!['.', 'l', 'e', 'd', 'g', 'e', 'r']
}

fn push_padded(out: &mut String, v: i64, width: usize)
    requires
        1 <= width <= 8,
    ensures
        final(out)@ == old(out)@ + padded_int(v as int, width as int),
{
    let mut digits = String::new();
    let neg = v < 0;
    let m: u64 = if v == i64::MIN {
        9223372036854775808u64
    } else if v < 0 {
        (-v) as u64
    } else {
        v as u64
    };
    push_decimal(&mut digits, m);
    let dc = chars_of(digits.as_str());
    let w = if neg {
        width - 1
    } else {
        width
    };
    if neg {
        push_char(out, '-');
    }
    let ghost mid = out@;
    let mut k: usize = dc.len();
    while k < w
        invariant
            dc.len() <= k <= w || w <= dc.len() == k,
            out@ == mid + Seq::new((k - dc.len()) as nat, |i: int| '0'),
        decreases w - k,
    {
        push_char(out, '0');
        assert(Seq::new((k + 1 - dc.len()) as nat, |i: int| '0') =~= Seq::new(
            (k - dc.len()) as nat,
            |i: int| '0',
        ).push('0'));
        k = k + 1;
    }
    push_str(out, digits.as_str());
    if dc.len() >= w {
        assert(Seq::new(0nat, |i: int| '0') =~= Seq::<char>::empty());
    }
    assert(out@ =~= old(out)@ + padded_int(v as int, width as int));
}

/// The name of the ledger file of the ISO week of `date`: `YYYY-Www.ledger`.
pub fn week_file_name(date: Date) -> (r: String)
    ensures
        r@ == week_file_text(date@),
{
    let (year, week) = date.iso_week();
    let mut r = String::new();
    push_padded(&mut r, year as i64, 4);
    push_char(&mut r, '-');
    push_char(&mut r, 'W');
    push_padded(&mut r, week as i64, 2);
    push_str(&mut r, ".ledger");
    proof {
        reveal_strlit(".ledger");
    }
    assert(r@ =~= week_file_text(date@));
    r
}

} // verus!
