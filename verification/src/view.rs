//! The text that the screens show: the weekly table, the day's details, the
//! warnings overlay and the status line.
use vstd::prelude::*;

use crate::app_state::App;
use crate::date::{valid_day, Date};
use crate::ledger::assoc::{assoc_get, assoc_lookup, lemma_assoc_get_minutes, minutes_table};
use crate::ledger::day_text::day_fits;
use crate::ledger::model::{
    entry_fits, mismatch_of, resolve_entry, sub_total_of, Day, DayView, EntryView, SubItemView,
};
use crate::ledger::render::{
    date_get, entry_line, format_minutes, minutes_text, render_entry_line, render_sub_item_line,
    sub_line,
};
use crate::ledger::totals::TotalsView;
use crate::text::{chars_of, has_prefix, push_str};
use crate::time_amount::format_text;

verus! {

/// A line of the day's details.
#[derive(Debug, Clone)]
pub enum DetailLine {
    /// A line shown as it is.
    Text(String),
    /// The marker of an entry whose time differs from the sum of its
    /// sub-items, with the text that follows it.
    Mismatch(String),
}

pub enum DetailLineView {
    Text(Seq<char>),
    Mismatch(Seq<char>),
}

impl View for DetailLine {
    type V = DetailLineView;

    open spec fn view(&self) -> DetailLineView {
        match self {
            DetailLine::Text(s) => DetailLineView::Text(s@),
            DetailLine::Mismatch(s) => DetailLineView::Mismatch(s@),
        }
    }
}

pub open spec fn no_entries_text() -> Seq<char> {
    seq!['N', 'o', ' ', 'e', 'n', 't', 'r', 'i', 'e', 's']
}

/// ` parent @time vs sub-items @time`.
pub open spec fn mismatch_detail(e: EntryView) -> Seq<char> {
    seq![' ', 'p', 'a', 'r', 'e', 'n', 't', ' ', '@'] + format_text(e.time->0) + seq![
        ' ',
        'v',
        's',
        ' ',
        's',
        'u',
        'b',
        '-',
        'i',
        't',
        'e',
        'm',
        's',
        ' ',
        '@',
    ] + minutes_text(sub_total_of(e)->0)
}

/// An entry's lines: its own, the mismatch marker when its time differs from
/// the sum of its sub-items, then its sub-items'.
pub open spec fn entry_detail(e: EntryView) -> Seq<DetailLineView> {
    seq![DetailLineView::Text(entry_line(e))] + if mismatch_of(e) {
        seq![DetailLineView::Mismatch(mismatch_detail(e))]
    } else {
        seq![]
    } + e.subs.map_values(|s: SubItemView| DetailLineView::Text(sub_line(s)))
}

pub open spec fn entries_detail(es: Seq<EntryView>) -> Seq<DetailLineView>
    decreases es.len(),
{
    if es.len() == 0 {
        seq![]
    } else {
        entries_detail(es.drop_last()) + entry_detail(es.last())
    }
}

/// The details of a day: `No entries` when it has none.
pub open spec fn day_detail(day: Option<DayView>) -> Seq<DetailLineView> {
    match day {
        Some(es) => if es.len() == 0 {
            seq![DetailLineView::Text(no_entries_text())]
        } else {
            entries_detail(es)
        },
        None => seq![DetailLineView::Text(no_entries_text())],
    }
}

fn no_entries_line() -> (r: DetailLine)
    ensures
        r@ == DetailLineView::Text(no_entries_text()),
{
    let mut s = String::new();
    push_str(&mut s, "No entries");
    proof {
        reveal_strlit("No entries");
    }
    assert(s@ =~= no_entries_text());
    DetailLine::Text(s)
}

/// The lines of the day's details pane.
pub fn day_detail_lines(day: Option<&Day>) -> (r: Vec<DetailLine>)
    requires
        day matches Some(d) ==> day_fits(d@),
    ensures
        r@.map_values(|l: DetailLine| l@) == day_detail(
            match day {
                Some(d) => Some(d@),
                None => None,
            },
        ),
{
    let mut r: Vec<DetailLine> = Vec::new();
    let day = match day {
        None => {
            r.push(no_entries_line());
            assert(r@.map_values(|l: DetailLine| l@) =~= day_detail(None));
            return r;
        },
        Some(d) => d,
    };
    if day.entries.len() == 0 {
        r.push(no_entries_line());
        assert(r@.map_values(|l: DetailLine| l@) =~= day_detail(Some(day@)));
        return r;
    }
    let ghost es = day@;
    let mut j: usize = 0;
    assert(es.take(0) =~= Seq::<EntryView>::empty());
    assert(r@.map_values(|l: DetailLine| l@) =~= Seq::<DetailLineView>::empty());
    while j < day.entries.len()
        invariant
            j <= day.entries.len(),
            es == day@,
            es.len() == day.entries.len(),
            day_fits(es),
            r@.map_values(|l: DetailLine| l@) == entries_detail(es.take(j as int)),
        decreases day.entries.len() - j,
    {
        let entry = &day.entries[j];
        assert(entry@ == es[j as int]);
        assert(entry_fits(es[j as int]));
        let ghost prev = r@.map_values(|l: DetailLine| l@);
        let resolved = resolve_entry(entry);
        r.push(DetailLine::Text(render_entry_line(entry)));
        if resolved.mismatch {
            match (entry.time, resolved.sub_total_minutes) {
                (Some(parent), Some(sub_total)) => {
                    let mut s = String::new();
                    push_str(&mut s, " parent @");
                    let pf = parent.format();
                    push_str(&mut s, pf.as_str());
                    push_str(&mut s, " vs sub-items @");
                    let sf = format_minutes(sub_total);
                    push_str(&mut s, sf.as_str());
                    proof {
                        reveal_strlit(" parent @");
                        reveal_strlit(" vs sub-items @");
                    }
                    assert(s@ =~= mismatch_detail(es[j as int]));
                    r.push(DetailLine::Mismatch(s));
                },
                _ => {
                    assert(false);
                },
            }
        }
        let ghost mid = r@.map_values(|l: DetailLine| l@);
        let mut m: usize = 0;
        let ghost subs = entry@.subs;
        assert(subs.take(0) =~= Seq::<SubItemView>::empty());
        assert(mid + subs.take(0).map_values(|s: SubItemView| DetailLineView::Text(sub_line(s)))
            =~= mid);
        while m < entry.sub_items.len()
            invariant
                m <= entry.sub_items.len(),
                subs == entry@.subs,
                subs.len() == entry.sub_items.len(),
                r@.map_values(|l: DetailLine| l@) == mid + subs.take(m as int).map_values(
                    |s: SubItemView| DetailLineView::Text(sub_line(s)),
                ),
            decreases entry.sub_items.len() - m,
        {
            assert(subs[m as int] == entry.sub_items@[m as int]@);
            let ghost pr = r@;
            let line = render_sub_item_line(&entry.sub_items[m]);
            r.push(DetailLine::Text(line));
            assert(r@.map_values(|l: DetailLine| l@) =~= pr.map_values(|l: DetailLine| l@).push(
                DetailLineView::Text(sub_line(subs[m as int])),
            ));
            assert(subs.take(m + 1) =~= subs.take(m as int).push(subs[m as int]));
            m = m + 1;
            assert(r@.map_values(|l: DetailLine| l@) =~= mid + subs.take(m as int).map_values(
                |s: SubItemView| DetailLineView::Text(sub_line(s)),
            ));
        }
        assert(subs.take(m as int) =~= subs);
        assert(es.take(j + 1).drop_last() =~= es.take(j as int));
        assert(es.take(j + 1).last() == es[j as int]);
        assert(r@.map_values(|l: DetailLine| l@) =~= entries_detail(es.take(j + 1)));
        j = j + 1;
    }
    assert(es.take(j as int) =~= es);
    r
}

/// The minutes shown for `key` on day `d`: 0 when the day or the key has none.
pub open spec fn cell_minutes(t: TotalsView, d: int, key: Seq<char>) -> int {
    match date_get(t.per_day_item, d) {
        Some(items) => match assoc_get(items, key) {
            Some(m) => m,
            None => 0,
        },
        None => 0,
    }
}

/// The row of a task: its name, its minutes on each of the seven days from
/// `start`, and its minutes in the week.
pub open spec fn task_row(t: TotalsView, start: int, key: Seq<char>, name: Seq<char>) -> Seq<
    Seq<char>,
> {
    seq![name] + Seq::new(7, |i: int| minutes_text(cell_minutes(t, start + i, key))) + seq![
        minutes_text(
            match assoc_get(t.per_week_item, key) {
                Some(m) => m,
                None => 0,
            },
        ),
    ]
}

/// The last row: `TOTAL`, the minutes of each day and of the week.
pub open spec fn total_row(t: TotalsView, start: int) -> Seq<Seq<char>> {
    seq![seq!['T', 'O', 'T', 'A', 'L']] + Seq::new(
        7,
        |i: int|
            minutes_text(
                match date_get(t.per_day_total, start + i) {
                    Some(m) => m,
                    None => 0,
                },
            ),
    ) + seq![minutes_text(t.week_total)]
}

/// The rows of the weekly table: one per task, then the totals.
pub open spec fn table_rows(
    t: TotalsView,
    start: int,
    tasks: Seq<(Seq<char>, Seq<char>)>,
) -> Seq<Seq<Seq<char>>> {
    tasks.map_values(|p: (Seq<char>, Seq<char>)| task_row(t, start, p.0, p.1)) + seq![
        total_row(t, start),
    ]
}

fn day_cell(totals: &crate::ledger::totals::Totals, date: Date, key: &Vec<char>) -> (r: String)
    ensures
        r@ == minutes_text(cell_minutes(totals@, date@, key@)),
{
    let ghost t = totals@;
    let i = crate::ledger::render::date_index(&totals.per_day_item, date);
    assert(t.per_day_item.map_values(|p: (int, Seq<(Seq<char>, int)>)| p.0) =~= totals.per_day_item@.map_values(
        |p: (Date, Vec<(String, i64)>)| p.0@,
    ));
    let m = if i < totals.per_day_item.len() {
        let items = &totals.per_day_item[i].1;
        assert(items@.map_values(|p: (String, i64)| (p.0@, p.1)) =~= items@.map_values(
            |p: (String, i64)| (p.0@, p.1),
        ));
        match assoc_lookup(items, key) {
            Some(m) => {
                proof {
                    lemma_assoc_get_minutes(items@, key@);
                }
                m
            },
            None => {
                proof {
                    lemma_assoc_get_minutes(items@, key@);
                }
                0
            },
        }
    } else {
        0
    };
    format_minutes(m)
}

/// The cells of the weekly table, row by row.
pub fn week_table_rows(app: &App) -> (r: Vec<Vec<String>>)
    requires
        valid_day(app.week@.week_start + 6),
    ensures
        r@.map_values(|row: Vec<String>| row@.map_values(|c: String| c@)) == table_rows(
            app.totals@,
            app.week@.week_start,
            crate::app_state::tasks_view(app.tasks@),
        ),
{
    let ghost t = app.totals@;
    let ghost start = app.week@.week_start;
    let ghost tasks = crate::app_state::tasks_view(app.tasks@);
    let dates = crate::ledger::model::week_dates(app.week.week_start);
    let mut rows: Vec<Vec<String>> = Vec::new();
    let mut i: usize = 0;
    while i < app.tasks.len()
        invariant
            i <= app.tasks.len(),
            t == app.totals@,
            tasks == crate::app_state::tasks_view(app.tasks@),
            tasks.len() == app.tasks.len(),
            dates.len() == 7,
            forall|k: int| 0 <= k < 7 ==> (#[trigger] dates@[k])@ == start + k,
            rows@.map_values(|row: Vec<String>| row@.map_values(|c: String| c@)) == tasks.take(
                i as int,
            ).map_values(|p: (Seq<char>, Seq<char>)| task_row(t, start, p.0, p.1)),
        decreases app.tasks.len() - i,
    {
        let task = &app.tasks[i];
        let key = chars_of(task.key.as_str());
        let mut row: Vec<String> = Vec::new();
        row.push(task.name.clone());
        let mut k: usize = 0;
        while k < 7
            invariant
                k <= 7,
                dates.len() == 7,
                forall|q: int| 0 <= q < 7 ==> (#[trigger] dates@[q])@ == start + q,
                t == app.totals@,
                row@.len() == k + 1,
                row@[0]@ == task.name@,
                forall|q: int|
                    1 <= q <= k ==> (#[trigger] row@[q])@ == minutes_text(
                        cell_minutes(t, start + q - 1, key@),
                    ),
            decreases 7 - k,
        {
            let cell = day_cell(&app.totals, dates[k], &key);
            row.push(cell);
            k = k + 1;
        }
        let wm = match assoc_lookup(&app.totals.per_week_item, &key) {
            Some(m) => m,
            None => 0,
        };
        proof {
            lemma_assoc_get_minutes(app.totals.per_week_item@, key@);
        }
        row.push(format_minutes(wm));
        let ghost prev = rows@;
        assert(tasks[i as int] == (task.key@, task.name@));
        assert(row@.map_values(|c: String| c@) =~= task_row(t, start, task.key@, task.name@));
        rows.push(row);
        assert(rows@.map_values(|row: Vec<String>| row@.map_values(|c: String| c@)) =~= prev.map_values(
            |row: Vec<String>| row@.map_values(|c: String| c@),
        ).push(task_row(t, start, task.key@, task.name@)));
        assert(tasks.take(i + 1) =~= tasks.take(i as int).push(tasks[i as int]));
        i = i + 1;
        assert(rows@.map_values(|row: Vec<String>| row@.map_values(|c: String| c@)) =~= tasks.take(
            i as int,
        ).map_values(|p: (Seq<char>, Seq<char>)| task_row(t, start, p.0, p.1)));
    }
    let mut total: Vec<String> = Vec::new();
    let mut label = String::new();
    push_str(&mut label, "TOTAL");
    proof {
        reveal_strlit("TOTAL");
    }
    assert(label@ =~= seq!['T', 'O', 'T', 'A', 'L']);
    total.push(label);
    let mut k: usize = 0;
    while k < 7
        invariant
            k <= 7,
            dates.len() == 7,
            forall|q: int| 0 <= q < 7 ==> (#[trigger] dates@[q])@ == start + q,
            t == app.totals@,
            total@.len() == k + 1,
            total@[0]@ == seq!['T', 'O', 'T', 'A', 'L'],
            forall|q: int|
                1 <= q <= k ==> (#[trigger] total@[q])@ == minutes_text(
                    match date_get(t.per_day_total, start + q - 1) {
                        Some(m) => m,
                        None => 0,
                    },
                ),
        decreases 7 - k,
    {
        let p = crate::ledger::render::date_index(&app.totals.per_day_total, dates[k]);
        assert(t.per_day_total.map_values(|p: (int, int)| p.0) =~= app.totals.per_day_total@.map_values(
            |p: (Date, i64)| p.0@,
        ));
        let m = if p < app.totals.per_day_total.len() {
            app.totals.per_day_total[p].1
        } else {
            0
        };
        total.push(format_minutes(m));
        k = k + 1;
    }
    total.push(format_minutes(app.totals.week_total));
    assert(total@.map_values(|c: String| c@) =~= total_row(t, start));
    assert(tasks.take(i as int) =~= tasks);
    rows.push(total);
    assert(rows@.map_values(|row: Vec<String>| row@.map_values(|c: String| c@)) =~= table_rows(
        t,
        start,
        tasks,
    ));
    rows
}

pub open spec fn no_warnings_text() -> Seq<char> {
    seq!['N', 'o', ' ', 'w', 'a', 'r', 'n', 'i', 'n', 'g', 's']
}

/// The lines of the warnings overlay: `* warning` each, or `No warnings`.
pub open spec fn warnings_overlay(ws: Seq<Seq<char>>) -> Seq<Seq<char>> {
    if ws.len() == 0 {
        seq![no_warnings_text()]
    } else {
        ws.map_values(|w: Seq<char>| seq!['*', ' '] + w)
    }
}

/// The lines of the warnings overlay.
pub fn warnings_overlay_lines(warnings: &Vec<String>) -> (r: Vec<String>)
    ensures
        r@.map_values(|s: String| s@) == warnings_overlay(warnings@.map_values(|s: String| s@)),
{
    let ghost ws = warnings@.map_values(|s: String| s@);
    let mut r: Vec<String> = Vec::new();
    if warnings.len() == 0 {
        let mut s = String::new();
        push_str(&mut s, "No warnings");
        proof {
            reveal_strlit("No warnings");
        }
        assert(s@ =~= no_warnings_text());
        r.push(s);
        assert(r@.map_values(|s: String| s@) =~= warnings_overlay(ws));
        return r;
    }
    let mut i: usize = 0;
    while i < warnings.len()
        invariant
            i <= warnings.len(),
            ws == warnings@.map_values(|s: String| s@),
            r@.map_values(|s: String| s@) == ws.take(i as int).map_values(
                |w: Seq<char>| seq!['*', ' '] + w,
            ),
        decreases warnings.len() - i,
    {
        let mut s = String::new();
        push_str(&mut s, "* ");
        push_str(&mut s, warnings[i].as_str());
        proof {
            reveal_strlit("* ");
        }
        assert(s@ =~= seq!['*', ' '] + ws[i as int]);
        let ghost pr = r@;
        r.push(s);
        assert(r@.map_values(|x: String| x@) =~= pr.map_values(|x: String| x@).push(
            seq!['*', ' '] + ws[i as int],
        ));
        assert(ws.take(i + 1) =~= ws.take(i as int).push(ws[i as int]));
        i = i + 1;
        assert(r@.map_values(|s: String| s@) =~= ws.take(i as int).map_values(
            |w: Seq<char>| seq!['*', ' '] + w,
        ));
    }
    assert(ws.take(i as int) =~= ws);
    r
}

/// Whether the status line is shown as an alert: it reports warnings, and
/// there are some.
pub fn status_is_alert(app: &App) -> (r: bool)
    ensures
        r == (has_prefix(app.status@, crate::app_state::warnings_status(0).take(10))
            && app.week@.warnings.len() > 0),
{
    let s = chars_of(app.status.as_str());
    let p = chars_of("Warnings: ");
    proof {
        reveal_strlit("Warnings: ");
        assert(p@ =~= crate::app_state::warnings_status(0).take(10));
        assert(s@.subrange(0, s@.len() as int) =~= s@);
    }
    crate::text::starts_with_at(&s, 0, s.len(), &p) && app.week.warnings.len() > 0
}

} // verus!
