//! Totals per day, per task and per week.
use vstd::prelude::*;

use crate::date::Date;
use crate::ledger::assoc::{
    lemma_assoc_add_keys, lemma_assoc_keep_free, lemma_assoc_keep_keys, values_free_of,
    assoc_add, assoc_add_minutes, assoc_keep, assoc_keep_name, keys_of, keys_sorted,
    lemma_assoc_add_nonneg, lemma_assoc_add_sorted, lemma_assoc_add_within, lemma_assoc_keep_sorted, minutes_table,
    names_table, values_nonneg, values_within,
};
use crate::ledger::model::{
    computed_day, computed_days, computed_entry, days_fit, effective_of, entry_fits, lemma_sub_sum_nonneg, resolve_entry, sub_total_of,
    DayView, EntryView, WeekData,
};
use crate::text::{chars_of, join_with, push_char, push_chars, split_whitespace, split_ws};

verus! {

/// The totals of a week.
#[derive(Debug, Clone)]
pub struct Totals {
    /// Per date (in date order), the minutes per task key (in key order).
    pub per_day_item: Vec<(Date, Vec<(String, i64)>)>,
    /// Per date (in date order), the minutes of the day.
    pub per_day_total: Vec<(Date, i64)>,
    /// Per task key (in key order), the minutes of the week.
    pub per_week_item: Vec<(String, i64)>,
    /// The minutes of the week.
    pub week_total: i64,
    /// Per task key (in key order), the first name written for it.
    pub display_names: Vec<(String, String)>,
}

pub struct TotalsView {
    pub per_day_item: Seq<(int, Seq<(Seq<char>, int)>)>,
    pub per_day_total: Seq<(int, int)>,
    pub per_week_item: Seq<(Seq<char>, int)>,
    pub week_total: int,
    pub display_names: Seq<(Seq<char>, Seq<char>)>,
}

impl View for Totals {
    type V = TotalsView;

    open spec fn view(&self) -> TotalsView {
        TotalsView {
            per_day_item: self.per_day_item@.map_values(
                |p: (Date, Vec<(String, i64)>)| (p.0@, minutes_table(p.1@)),
            ),
            per_day_total: self.per_day_total@.map_values(|p: (Date, i64)| (p.0@, p.1 as int)),
            per_week_item: minutes_table(self.per_week_item@),
            week_total: self.week_total as int,
            display_names: names_table(self.display_names@),
        }
    }
}

/// Lower-case mapping of `str::to_lowercase` (Unicode full case mapping).
pub uninterp spec fn spec_lowercase(s: Seq<char>) -> Seq<char>;

/// Calls `str::to_lowercase`; the result is named.
#[verifier::external_body]
fn lowercase(s: &str) -> (r: String)
    ensures
        r@ == spec_lowercase(s@),
{
    s.to_lowercase()
}

/// The key a task name is counted under: its words joined by single spaces,
/// lower-cased.
pub open spec fn task_key_of(name: Seq<char>) -> Seq<char> {
    spec_lowercase(join_with(split_ws(name), seq![' ']))
}

/// The key a task name is counted under.
pub fn task_key(name: &str) -> (r: String)
    ensures
        r@ == task_key_of(name@),
{
    let c = chars_of(name);
    assert(c@.subrange(0, c@.len() as int) =~= c@);
    let words = split_whitespace(&c, 0, c.len());
    let ghost ws = crate::text::seqs_of(words@);
    let mut joined = String::new();
    let mut i: usize = 0;
    while i < words.len()
        invariant
            i <= words.len(),
            ws == crate::text::seqs_of(words@),
            ws.len() == words.len(),
            joined@ == join_with(ws.take(i as int), seq![' ']),
        decreases words.len() - i,
    {
        assert(ws[i as int] == words@[i as int]@);
        if i > 0 {
            push_char(&mut joined, ' ');
        }
        push_chars(&mut joined, &words[i], 0, words[i].len());
        assert(words@[i as int]@.subrange(0, words@[i as int]@.len() as int) =~= words@[
            i as int]@);
        assert(ws.take(i + 1).drop_last() =~= ws.take(i as int));
        if i == 0 {
            assert(ws.take(1) =~= seq![ws[0]]);
        }
        i = i + 1;
    }
    assert(ws.take(i as int) =~= ws);
    lowercase(joined.as_str())
}

/// What summing a day's entries has gathered so far: the day's minutes per
/// key and in all, and the week's minutes per key and display names.
pub struct EntryAcc {
    pub items: Seq<(Seq<char>, int)>,
    pub total: int,
    pub week_items: Seq<(Seq<char>, int)>,
    pub names: Seq<(Seq<char>, Seq<char>)>,
}

/// Counts one entry: its name is recorded for its key, and the time it counts
/// for, if any, is added to the day's and the week's totals.
pub open spec fn entry_step(a: EntryAcc, e: EntryView) -> EntryAcc {
    let key = task_key_of(e.name);
    let names = assoc_keep(a.names, key, e.name);
    match effective_of(e) {
        Some(m) => EntryAcc {
            items: assoc_add(a.items, key, m),
            total: a.total + m,
            week_items: assoc_add(a.week_items, key, m),
            names,
        },
        None => EntryAcc { names, ..a },
    }
}

pub open spec fn entries_fold(a: EntryAcc, es: Seq<EntryView>) -> EntryAcc
    decreases es.len(),
{
    if es.len() == 0 {
        a
    } else {
        entry_step(entries_fold(a, es.drop_last()), es.last())
    }
}

pub open spec fn empty_totals() -> TotalsView {
    TotalsView {
        per_day_item: seq![],
        per_day_total: seq![],
        per_week_item: seq![],
        week_total: 0,
        display_names: seq![],
    }
}

/// Counts one day.
pub open spec fn day_step(t: TotalsView, d: (int, DayView)) -> TotalsView {
    let a = entries_fold(
        EntryAcc { items: seq![], total: 0, week_items: t.per_week_item, names: t.display_names },
        d.1,
    );
    TotalsView {
        per_day_item: t.per_day_item.push((d.0, a.items)),
        per_day_total: t.per_day_total.push((d.0, a.total)),
        per_week_item: a.week_items,
        week_total: t.week_total + a.total,
        display_names: a.names,
    }
}

/// The totals of the days, counted in order.
pub open spec fn totals_of(days: Seq<(int, DayView)>) -> TotalsView
    decreases days.len(),
{
    if days.len() == 0 {
        empty_totals()
    } else {
        day_step(totals_of(days.drop_last()), days.last())
    }
}

/// Every sum the totals need fits in an `i64`.
pub open spec fn totals_fit(days: Seq<(int, DayView)>) -> bool {
    days_fit(days) && totals_of(days).week_total <= i64::MAX
}

/// The time an entry counts for is never negative.
pub proof fn lemma_effective_nonneg(e: EntryView)
    ensures
        effective_of(e) matches Some(m) ==> m >= 0,
{
    lemma_sub_sum_nonneg(e.subs);
}

proof fn lemma_entries_fold_total(a: EntryAcc, es: Seq<EntryView>, j: int)
    requires
        0 <= j <= es.len(),
    ensures
        a.total <= entries_fold(a, es.take(j)).total <= entries_fold(a, es).total,
    decreases es.len() - j,
{
    if j < es.len() {
        lemma_entries_fold_total(a, es, j + 1);
        assert(es.take(j + 1).drop_last() =~= es.take(j));
        assert(es.take(j + 1).last() == es[j]);
        lemma_effective_nonneg(es[j]);
        lemma_entries_fold_total_start(a, es.take(j));
    } else {
        assert(es.take(j) =~= es);
        lemma_entries_fold_total_start(a, es);
    }
}

proof fn lemma_entries_fold_total_start(a: EntryAcc, es: Seq<EntryView>)
    ensures
        a.total <= entries_fold(a, es).total,
    decreases es.len(),
{
    if es.len() > 0 {
        lemma_entries_fold_total_start(a, es.drop_last());
        lemma_effective_nonneg(es.last());
    }
}

proof fn lemma_totals_week_total(days: Seq<(int, DayView)>, i: int)
    requires
        0 <= i <= days.len(),
    ensures
        0 <= totals_of(days.take(i)).week_total <= totals_of(days).week_total,
    decreases days.len() - i,
{
    if i < days.len() {
        lemma_totals_week_total(days, i + 1);
        assert(days.take(i + 1).drop_last() =~= days.take(i));
        assert(days.take(i + 1).last() == days[i]);
        lemma_totals_nonneg(days.take(i));
        let t = totals_of(days.take(i));
        lemma_entries_fold_total_start(
            EntryAcc {
                items: seq![],
                total: 0,
                week_items: t.per_week_item,
                names: t.display_names,
            },
            days[i].1,
        );
    } else {
        assert(days.take(i) =~= days);
        lemma_totals_nonneg(days);
    }
}

proof fn lemma_totals_nonneg(days: Seq<(int, DayView)>)
    ensures
        totals_of(days).week_total >= 0,
    decreases days.len(),
{
    if days.len() > 0 {
        lemma_totals_nonneg(days.drop_last());
        let t = totals_of(days.drop_last());
        lemma_entries_fold_total_start(
            EntryAcc {
                items: seq![],
                total: 0,
                week_items: t.per_week_item,
                names: t.display_names,
            },
            days.last().1,
        );
    }
}

/// Sums the week: per day and task, per day, per task, in all, and the first
/// name written for each task key.
pub fn compute_totals(week: &WeekData) -> (r: Totals)
    requires
        totals_fit(week@.days),
    ensures
        r@ == totals_of(week@.days),
{
    let ghost days = week@.days;
    let mut per_day_item: Vec<(Date, Vec<(String, i64)>)> = Vec::new();
    let mut per_day_total: Vec<(Date, i64)> = Vec::new();
    let mut per_week_item: Vec<(String, i64)> = Vec::new();
    let mut display_names: Vec<(String, String)> = Vec::new();
    let mut week_total: i64 = 0;
    let ghost total_bound = totals_of(days).week_total;
    let mut i: usize = 0;
    proof {
        lemma_totals_nonneg(days);
        assert(days.take(0) =~= Seq::<(int, DayView)>::empty());
    }
    assert(per_day_item@.map_values(|p: (Date, Vec<(String, i64)>)| (p.0@, minutes_table(p.1@)))
        =~= Seq::<(int, Seq<(Seq<char>, int)>)>::empty());
    assert(per_day_total@.map_values(|p: (Date, i64)| (p.0@, p.1 as int)) =~= Seq::<
        (int, int),
    >::empty());
    assert(minutes_table(per_week_item@) =~= Seq::<(Seq<char>, int)>::empty());
    assert(names_table(display_names@) =~= Seq::<(Seq<char>, Seq<char>)>::empty());
    while i < week.days.len()
        invariant
            i <= week.days.len(),
            days == week@.days,
            days.len() == week.days.len(),
            totals_fit(days),
            total_bound == totals_of(days).week_total,
            (TotalsView {
                per_day_item: per_day_item@.map_values(
                    |p: (Date, Vec<(String, i64)>)| (p.0@, minutes_table(p.1@)),
                ),
                per_day_total: per_day_total@.map_values(|p: (Date, i64)| (p.0@, p.1 as int)),
                per_week_item: minutes_table(per_week_item@),
                week_total: week_total as int,
                display_names: names_table(display_names@),
            }) == totals_of(days.take(i as int)),
            values_within(minutes_table(per_week_item@), week_total as int),
            0 <= week_total <= total_bound,
        decreases week.days.len() - i,
    {
        let ghost t = totals_of(days.take(i as int));
        proof {
            lemma_totals_week_total(days, i + 1);
            assert(days.take(i + 1).drop_last() =~= days.take(i as int));
            assert(days.take(i + 1).last() == days[i as int]);
        }
        let date = week.days[i].0;
        let day = &week.days[i].1;
        let ghost es = days[i as int].1;
        let ghost init = EntryAcc {
            items: seq![],
            total: 0,
            week_items: t.per_week_item,
            names: t.display_names,
        };
        let ghost day_total_bound = entries_fold(init, es).total;
        let mut day_items: Vec<(String, i64)> = Vec::new();
        let mut day_total: i64 = 0;
        let mut j: usize = 0;
        proof {
            lemma_entries_fold_total_start(init, es);
        }
        assert(es.take(0) =~= Seq::<EntryView>::empty());
        assert(minutes_table(day_items@) =~= Seq::<(Seq<char>, int)>::empty());
        while j < day.entries.len()
            invariant
                i < week.days.len(),
                j <= day.entries.len(),
                days == week@.days,
                days.len() == week.days.len(),
                totals_fit(days),
                es == days[i as int].1,
                day@ == es,
                es.len() == day.entries.len(),
                day_total_bound == entries_fold(init, es).total,
                week_total as int + day_total_bound <= total_bound,
                total_bound <= i64::MAX,
                0 <= week_total,
                (EntryAcc {
                    items: minutes_table(day_items@),
                    total: day_total as int,
                    week_items: minutes_table(per_week_item@),
                    names: names_table(display_names@),
                }) == entries_fold(init, es.take(j as int)),
                values_within(minutes_table(day_items@), day_total as int),
                values_within(minutes_table(per_week_item@), week_total + day_total),
                0 <= day_total <= day_total_bound,
            decreases day.entries.len() - j,
        {
            proof {
                lemma_entries_fold_total(init, es, j + 1);
                assert(es.take(j + 1).drop_last() =~= es.take(j as int));
                assert(es.take(j + 1).last() == es[j as int]);
                assert(es[j as int] == day.entries@[j as int]@);
                assert(entry_fits(days[i as int].1[j as int]));
                lemma_effective_nonneg(es[j as int]);
            }
            let entry = &day.entries[j];
            let key_string = task_key(entry.name.as_str());
            let key = chars_of(key_string.as_str());
            assoc_keep_name(&mut display_names, &key, &entry.name);
            let resolved = resolve_entry(entry);
            match resolved.effective_minutes {
                Some(minutes) => {
                    proof {
                        lemma_assoc_add_within(minutes_table(day_items@), key@, minutes as int, day_total as int);
                        lemma_assoc_add_within(
                            minutes_table(per_week_item@),
                            key@,
                            minutes as int,
                            week_total + day_total,
                        );
                    }
                    assoc_add_minutes(&mut day_items, &key, minutes, Ghost(day_total as int));
                    assoc_add_minutes(
                        &mut per_week_item,
                        &key,
                        minutes,
                        Ghost(week_total + day_total),
                    );
                    day_total = day_total + minutes;
                },
                None => {},
            }
            j = j + 1;
        }
        assert(es.take(j as int) =~= es);
        per_day_item.push((date, day_items));
        per_day_total.push((date, day_total));
        week_total = week_total + day_total;
        i = i + 1;
        assert(per_day_item@.map_values(
            |p: (Date, Vec<(String, i64)>)| (p.0@, minutes_table(p.1@)),
        ) =~= totals_of(days.take(i as int)).per_day_item);
        assert(per_day_total@.map_values(|p: (Date, i64)| (p.0@, p.1 as int)) =~= totals_of(
            days.take(i as int),
        ).per_day_total);
    }
    assert(days.take(i as int) =~= days);
    Totals { per_day_item, per_day_total, per_week_item, week_total, display_names }
}

// ---------------------------------------------------------------------------
// Laws
// ---------------------------------------------------------------------------

proof fn lemma_entries_fold_sorted(a: EntryAcc, es: Seq<EntryView>)
    requires
        keys_sorted(keys_of(a.items)),
        keys_sorted(keys_of(a.week_items)),
        keys_sorted(keys_of(a.names)),
    ensures
        keys_sorted(keys_of(entries_fold(a, es).items)),
        keys_sorted(keys_of(entries_fold(a, es).week_items)),
        keys_sorted(keys_of(entries_fold(a, es).names)),
    decreases es.len(),
{
    if es.len() > 0 {
        lemma_entries_fold_sorted(a, es.drop_last());
        let b = entries_fold(a, es.drop_last());
        let e = es.last();
        let key = task_key_of(e.name);
        lemma_assoc_keep_sorted(b.names, key, e.name);
        match effective_of(e) {
            Some(m) => {
                lemma_assoc_add_sorted(b.items, key, m);
                lemma_assoc_add_sorted(b.week_items, key, m);
            },
            None => {},
        }
    }
}

/// The per-task tables of the totals (each day's, the week's and the display
/// names) hold each key once, in the byte order of the keys, as the ordered
/// maps they stand for.
pub proof fn lemma_totals_keys_sorted(days: Seq<(int, DayView)>)
    ensures
        keys_sorted(keys_of(totals_of(days).per_week_item)),
        keys_sorted(keys_of(totals_of(days).display_names)),
        forall|i: int|
            0 <= i < totals_of(days).per_day_item.len() ==> keys_sorted(
                keys_of(#[trigger] totals_of(days).per_day_item[i].1),
            ),
    decreases days.len(),
{
    if days.len() > 0 {
        lemma_totals_keys_sorted(days.drop_last());
        let t = totals_of(days.drop_last());
        let init = EntryAcc {
            items: seq![],
            total: 0,
            week_items: t.per_week_item,
            names: t.display_names,
        };
        assert(keys_of(init.items) =~= Seq::<Seq<char>>::empty());
        lemma_entries_fold_sorted(init, days.last().1);
        let r = totals_of(days);
        assert forall|i: int| 0 <= i < r.per_day_item.len() implies keys_sorted(
            keys_of(#[trigger] r.per_day_item[i].1),
        ) by {
            if i < t.per_day_item.len() {
                assert(r.per_day_item[i] == t.per_day_item[i]);
            }
        }
    } else {
        assert(keys_of(totals_of(days).per_week_item) =~= Seq::<Seq<char>>::empty());
        assert(keys_of(totals_of(days).display_names) =~= Seq::<Seq<char>>::empty());
    }
}

/// The week's total is the sum of the day totals.
pub open spec fn sum_day_totals(s: Seq<(int, int)>) -> int
    decreases s.len(),
{
    if s.len() == 0 {
        0
    } else {
        sum_day_totals(s.drop_last()) + s.last().1
    }
}

/// The week total is the sum of the day totals, and there is one day total
/// (and one table of task totals) per day, in the order of the days.
pub proof fn lemma_week_total_is_sum_of_days(days: Seq<(int, DayView)>)
    ensures
        totals_of(days).week_total == sum_day_totals(totals_of(days).per_day_total),
        totals_of(days).per_day_total.len() == days.len(),
        totals_of(days).per_day_item.len() == days.len(),
        forall|i: int|
            0 <= i < days.len() ==> (#[trigger] totals_of(days).per_day_total[i]).0 == days[i].0
                && totals_of(days).per_day_item[i].0 == days[i].0,
    decreases days.len(),
{
    if days.len() > 0 {
        lemma_week_total_is_sum_of_days(days.drop_last());
        let t = totals_of(days.drop_last());
        let r = totals_of(days);
        assert(r.per_day_total.drop_last() =~= t.per_day_total);
        assert forall|i: int| 0 <= i < days.len() implies (#[trigger] r.per_day_total[i]).0
            == days[i].0 && r.per_day_item[i].0 == days[i].0 by {
            if i < days.len() - 1 {
                assert(r.per_day_total[i] == t.per_day_total[i]);
                assert(r.per_day_item[i] == t.per_day_item[i]);
                assert(days.drop_last()[i] == days[i]);
            }
        }
    }
}

proof fn lemma_computed_entry_counts_the_same(e: EntryView)
    ensures
        effective_of(computed_entry(e)) == effective_of(e),
        computed_entry(e).name == e.name,
        computed_entry(e).subs == e.subs,
{
    lemma_sub_sum_nonneg(e.subs);
}

proof fn lemma_entries_fold_computed(a: EntryAcc, es: Seq<EntryView>)
    ensures
        entries_fold(a, computed_day(es)) == entries_fold(a, es),
    decreases es.len(),
{
    if es.len() > 0 {
        lemma_entries_fold_computed(a, es.drop_last());
        assert(computed_day(es).drop_last() =~= computed_day(es.drop_last()));
        assert(computed_day(es).last() == computed_entry(es.last()));
        lemma_computed_entry_counts_the_same(es.last());
    } else {
        assert(computed_day(es) =~= es);
    }
}

/// Filling in the parents' times from their sub-items changes no total, and
/// leaves every sub-item sum as it was.
pub proof fn lemma_computed_times_keep_totals(days: Seq<(int, DayView)>)
    ensures
        totals_of(computed_days(days)) == totals_of(days),
        days_fit(computed_days(days)) == days_fit(days),
    decreases days.len(),
{
    if days.len() > 0 {
        lemma_computed_times_keep_totals(days.drop_last());
        assert(computed_days(days).drop_last() =~= computed_days(days.drop_last()));
        let t = totals_of(days.drop_last());
        lemma_entries_fold_computed(
            EntryAcc {
                items: seq![],
                total: 0,
                week_items: t.per_week_item,
                names: t.display_names,
            },
            days.last().1,
        );
    } else {
        assert(computed_days(days) =~= days);
    }
    let cd = computed_days(days);
    assert forall|i: int, j: int|
        0 <= i < days.len() && 0 <= j < days[i].1.len() implies entry_fits(
        #[trigger] cd[i].1[j]) == entry_fits(days[i].1[j]) by {
        assert(cd[i].1[j] == computed_entry(days[i].1[j]));
    }
    assert(days_fit(cd) == days_fit(days)) by {
        if days_fit(days) {
            assert forall|i: int, j: int|
                0 <= i < cd.len() && 0 <= j < cd[i].1.len() implies entry_fits(
                #[trigger] cd[i].1[j]) by {
                assert(cd[i].1[j] == computed_entry(days[i].1[j]));
                assert(entry_fits(days[i].1[j]));
            }
        }
        if days_fit(cd) {
            assert forall|i: int, j: int|
                0 <= i < days.len() && 0 <= j < days[i].1.len() implies entry_fits(
                #[trigger] days[i].1[j]) by {
                assert(cd[i].1[j] == computed_entry(days[i].1[j]));
                assert(entry_fits(cd[i].1[j]));
            }
        }
    }
}

proof fn lemma_entries_fold_nonneg(a: EntryAcc, es: Seq<EntryView>)
    requires
        values_nonneg(a.items),
        values_nonneg(a.week_items),
        a.total >= 0,
    ensures
        values_nonneg(entries_fold(a, es).items),
        values_nonneg(entries_fold(a, es).week_items),
        entries_fold(a, es).total >= 0,
    decreases es.len(),
{
    if es.len() > 0 {
        lemma_entries_fold_nonneg(a, es.drop_last());
        let b = entries_fold(a, es.drop_last());
        let e = es.last();
        lemma_effective_nonneg(e);
        match effective_of(e) {
            Some(m) => {
                lemma_assoc_add_nonneg(b.items, task_key_of(e.name), m);
                lemma_assoc_add_nonneg(b.week_items, task_key_of(e.name), m);
            },
            None => {},
        }
    }
}

/// No total is negative.
pub proof fn lemma_totals_values_nonneg(days: Seq<(int, DayView)>)
    ensures
        totals_of(days).week_total >= 0,
        values_nonneg(totals_of(days).per_week_item),
        forall|i: int|
            0 <= i < totals_of(days).per_day_total.len() ==> (#[trigger] totals_of(
                days,
            ).per_day_total[i]).1 >= 0,
        forall|i: int|
            0 <= i < totals_of(days).per_day_item.len() ==> values_nonneg(
                (#[trigger] totals_of(days).per_day_item[i]).1,
            ),
    decreases days.len(),
{
    if days.len() > 0 {
        lemma_totals_values_nonneg(days.drop_last());
        let t = totals_of(days.drop_last());
        let init = EntryAcc {
            items: seq![],
            total: 0,
            week_items: t.per_week_item,
            names: t.display_names,
        };
        lemma_entries_fold_nonneg(init, days.last().1);
        let r = totals_of(days);
        assert forall|i: int| 0 <= i < r.per_day_total.len() implies (
        #[trigger] r.per_day_total[i]).1 >= 0 by {
            if i < t.per_day_total.len() {
                assert(r.per_day_total[i] == t.per_day_total[i]);
            }
        }
        assert forall|i: int| 0 <= i < r.per_day_item.len() implies values_nonneg(
            (#[trigger] r.per_day_item[i]).1,
        ) by {
            if i < t.per_day_item.len() {
                assert(r.per_day_item[i] == t.per_day_item[i]);
            }
        }
    }
}

/// The minutes of the entries that count for a time.
pub open spec fn effective_sum(es: Seq<EntryView>) -> int
    decreases es.len(),
{
    if es.len() == 0 {
        0
    } else {
        effective_sum(es.drop_last()) + match effective_of(es.last()) {
            Some(m) => m,
            None => 0,
        }
    }
}

/// The minutes of the entries of the days that count for a time.
pub open spec fn days_effective_sum(days: Seq<(int, DayView)>) -> int
    decreases days.len(),
{
    if days.len() == 0 {
        0
    } else {
        days_effective_sum(days.drop_last()) + effective_sum(days.last().1)
    }
}

proof fn lemma_entries_fold_total_is_sum(a: EntryAcc, es: Seq<EntryView>)
    ensures
        entries_fold(a, es).total == a.total + effective_sum(es),
    decreases es.len(),
{
    if es.len() > 0 {
        lemma_entries_fold_total_is_sum(a, es.drop_last());
    }
}

/// The week's total is the sum of the times of its entries.
pub proof fn lemma_week_total_is_sum(days: Seq<(int, DayView)>)
    ensures
        totals_of(days).week_total == days_effective_sum(days),
    decreases days.len(),
{
    if days.len() > 0 {
        lemma_week_total_is_sum(days.drop_last());
        let t = totals_of(days.drop_last());
        lemma_entries_fold_total_is_sum(
            EntryAcc {
                items: seq![],
                total: 0,
                week_items: t.per_week_item,
                names: t.display_names,
            },
            days.last().1,
        );
    }
}

proof fn lemma_effective_sum_nonneg_prefix(es: Seq<EntryView>, j: int)
    requires
        0 <= j <= es.len(),
    ensures
        0 <= effective_sum(es.take(j)) <= effective_sum(es),
    decreases es.len() - j,
{
    if j < es.len() {
        lemma_effective_sum_nonneg_prefix(es, j + 1);
        assert(es.take(j + 1).drop_last() =~= es.take(j));
        assert(es.take(j + 1).last() == es[j]);
        lemma_effective_nonneg(es[j]);
        lemma_effective_sum_nonneg(es.take(j));
    } else {
        assert(es.take(j) =~= es);
        lemma_effective_sum_nonneg(es);
    }
}

proof fn lemma_effective_sum_nonneg(es: Seq<EntryView>)
    ensures
        0 <= effective_sum(es),
    decreases es.len(),
{
    if es.len() > 0 {
        lemma_effective_sum_nonneg(es.drop_last());
        lemma_effective_nonneg(es.last());
    }
}

proof fn lemma_days_sum_prefix(days: Seq<(int, DayView)>, i: int)
    requires
        0 <= i <= days.len(),
    ensures
        0 <= days_effective_sum(days.take(i)) <= days_effective_sum(days),
    decreases days.len() - i,
{
    if i < days.len() {
        lemma_days_sum_prefix(days, i + 1);
        assert(days.take(i + 1).drop_last() =~= days.take(i));
        assert(days.take(i + 1).last() == days[i]);
        lemma_effective_sum_nonneg(days[i].1);
        lemma_days_sum_nonneg(days.take(i));
    } else {
        assert(days.take(i) =~= days);
        lemma_days_sum_nonneg(days);
    }
}

proof fn lemma_days_sum_nonneg(days: Seq<(int, DayView)>)
    ensures
        0 <= days_effective_sum(days),
    decreases days.len(),
{
    if days.len() > 0 {
        lemma_days_sum_nonneg(days.drop_last());
        lemma_effective_sum_nonneg(days.last().1);
    }
}

/// Every key of `items` has a display name in `names`.
pub open spec fn keys_named(
    items: Seq<(Seq<char>, int)>,
    names: Seq<(Seq<char>, Seq<char>)>,
) -> bool {
    forall|j: int| 0 <= j < items.len() ==> keys_of(names).contains(#[trigger] items[j].0)
}

/// No entry name of the days holds the character `c`.
pub open spec fn names_free_of(days: Seq<(int, DayView)>, c: char) -> bool {
    forall|i: int, j: int|
        0 <= i < days.len() && 0 <= j < days[i].1.len() ==> entry_name_free(
            #[trigger] days[i].1[j],
            c,
        )
}

pub open spec fn entry_name_free(e: EntryView, c: char) -> bool {
    forall|x: int| 0 <= x < e.name.len() ==> e.name[x] != c
}

proof fn lemma_keys_named_grow(
    items: Seq<(Seq<char>, int)>,
    names: Seq<(Seq<char>, Seq<char>)>,
    names2: Seq<(Seq<char>, Seq<char>)>,
)
    requires
        keys_named(items, names),
        forall|x: Seq<char>| keys_of(names).contains(x) ==> keys_of(names2).contains(x),
    ensures
        keys_named(items, names2),
{
    assert forall|j: int| 0 <= j < items.len() implies keys_of(names2).contains(
        #[trigger] items[j].0,
    ) by {
        assert(keys_of(names).contains(items[j].0));
    }
}

proof fn lemma_keys_named_add(
    items: Seq<(Seq<char>, int)>,
    names: Seq<(Seq<char>, Seq<char>)>,
    key: Seq<char>,
    m: int,
)
    requires
        keys_named(items, names),
        keys_of(names).contains(key),
    ensures
        keys_named(assoc_add(items, key, m), names),
{
    lemma_assoc_add_keys(items, key, m);
    let r = assoc_add(items, key, m);
    assert forall|j: int| 0 <= j < r.len() implies keys_of(names).contains(#[trigger] r[j].0) by {
        assert(keys_of(r)[j] == r[j].0);
        assert(keys_of(r).contains(r[j].0));
        if r[j].0 != key {
            assert(keys_of(items).contains(r[j].0));
            let i = choose|i: int| 0 <= i < keys_of(items).len() && keys_of(items)[i] == r[j].0;
            assert(items[i].0 == r[j].0);
        }
    }
}

proof fn lemma_entries_fold_named(a: EntryAcc, es: Seq<EntryView>, c: char)
    requires
        values_free_of(a.names, c),
        keys_named(a.items, a.names),
        keys_named(a.week_items, a.names),
        forall|j: int| 0 <= j < es.len() ==> entry_name_free(#[trigger] es[j], c),
    ensures
        values_free_of(entries_fold(a, es).names, c),
        keys_named(entries_fold(a, es).items, entries_fold(a, es).names),
        keys_named(entries_fold(a, es).week_items, entries_fold(a, es).names),
        forall|x: Seq<char>|
            keys_of(a.names).contains(x) ==> keys_of(entries_fold(a, es).names).contains(x),
    decreases es.len(),
{
    if es.len() > 0 {
        let p = es.drop_last();
        assert forall|j: int| 0 <= j < p.len() implies entry_name_free(#[trigger] p[j], c) by {
            assert(p[j] == es[j]);
        }
        lemma_entries_fold_named(a, p, c);
        let b = entries_fold(a, p);
        let e = es.last();
        assert(entry_name_free(es[es.len() - 1], c));
        let key = task_key_of(e.name);
        let names = assoc_keep(b.names, key, e.name);
        lemma_assoc_keep_keys(b.names, key, e.name);
        lemma_assoc_keep_free(b.names, key, e.name, c);
        assert(keys_of(names).contains(key));
        lemma_keys_named_grow(b.items, b.names, names);
        lemma_keys_named_grow(b.week_items, b.names, names);
        match effective_of(e) {
            Some(m) => {
                lemma_keys_named_add(b.items, names, key, m);
                lemma_keys_named_add(b.week_items, names, key, m);
            },
            None => {},
        }
    }
}

proof fn lemma_entries_fold_keys(a: EntryAcc, es: Seq<EntryView>)
    ensures
        forall|x: Seq<char>|
            keys_of(a.names).contains(x) ==> keys_of(entries_fold(a, es).names).contains(x),
        forall|j: int|
            0 <= j < es.len() ==> keys_of(entries_fold(a, es).names).contains(
                task_key_of(#[trigger] es[j].name),
            ),
    decreases es.len(),
{
    if es.len() > 0 {
        let p = es.drop_last();
        lemma_entries_fold_keys(a, p);
        let b = entries_fold(a, p);
        let e = es.last();
        lemma_assoc_keep_keys(b.names, task_key_of(e.name), e.name);
        assert(es.drop_last() == p);
        assert(entries_fold(a, es) == entry_step(b, e));
        assert(entries_fold(a, es).names == assoc_keep(b.names, task_key_of(e.name), e.name));
        assert forall|j: int| 0 <= j < es.len() implies keys_of(entries_fold(a, es).names).contains(
            task_key_of(#[trigger] es[j].name),
        ) by {
            if j < p.len() {
                assert(es[j] == p[j]);
                assert(keys_of(b.names).contains(task_key_of(p[j].name)));
            } else {
                assert(es[j] == e);
            }
        }
    }
}

/// Every entry's task key has a display name in the totals.
pub proof fn lemma_entry_keys_named(days: Seq<(int, DayView)>)
    ensures
        forall|i: int, j: int|
            0 <= i < days.len() && 0 <= j < days[i].1.len() ==> keys_of(
                totals_of(days).display_names,
            ).contains(task_key_of(#[trigger] days[i].1[j].name)),
    decreases days.len(),
{
    if days.len() > 0 {
        let p = days.drop_last();
        lemma_entry_keys_named(p);
        let t0 = totals_of(p);
        let d = days.last();
        let a0 = EntryAcc {
            items: seq![],
            total: 0,
            week_items: t0.per_week_item,
            names: t0.display_names,
        };
        lemma_entries_fold_keys(a0, d.1);
        assert(totals_of(days).display_names == entries_fold(a0, d.1).names);
        assert forall|i: int, j: int|
            0 <= i < days.len() && 0 <= j < days[i].1.len() implies keys_of(
            totals_of(days).display_names,
        ).contains(task_key_of(#[trigger] days[i].1[j].name)) by {
            if i < p.len() {
                assert(days[i] == p[i]);
                let x = task_key_of(p[i].1[j].name);
                assert(keys_of(t0.display_names).contains(x));
                assert(keys_of(a0.names).contains(x));
                assert(keys_of(entries_fold(a0, d.1).names).contains(x));
            } else {
                assert(days[i] == d);
                assert(keys_of(entries_fold(a0, d.1).names).contains(task_key_of(d.1[j].name)));
            }
        }
    }
}

/// Every task key of the totals has a display name, and the display names
/// are entry names: none holds `c` when no entry name does.
pub proof fn lemma_totals_named(days: Seq<(int, DayView)>, c: char)
    requires
        names_free_of(days, c),
    ensures
        values_free_of(totals_of(days).display_names, c),
        keys_named(totals_of(days).per_week_item, totals_of(days).display_names),
        forall|i: int|
            0 <= i < totals_of(days).per_day_item.len() ==> keys_named(
                #[trigger] totals_of(days).per_day_item[i].1,
                totals_of(days).display_names,
            ),
    decreases days.len(),
{
    if days.len() > 0 {
        let p = days.drop_last();
        assert forall|i: int, j: int| 0 <= i < p.len() && 0 <= j < p[i].1.len() implies entry_name_free(
            #[trigger] p[i].1[j],
            c,
        ) by {
            assert(p[i] == days[i]);
            assert(entry_name_free(days[i].1[j], c));
        }
        lemma_totals_named(p, c);
        let t0 = totals_of(p);
        let d = days.last();
        let a0 = EntryAcc {
            items: seq![],
            total: 0,
            week_items: t0.per_week_item,
            names: t0.display_names,
        };
        assert forall|j: int| 0 <= j < d.1.len() implies entry_name_free(#[trigger] d.1[j], c) by {
            assert(entry_name_free(days[days.len() - 1].1[j], c));
        }
        lemma_entries_fold_named(a0, d.1, c);
        let a = entries_fold(a0, d.1);
        let t = totals_of(days);
        assert(t.per_day_item == t0.per_day_item.push((d.0, a.items)));
        assert forall|i: int| 0 <= i < t.per_day_item.len() implies keys_named(
            #[trigger] t.per_day_item[i].1,
            t.display_names,
        ) by {
            if i < t0.per_day_item.len() {
                assert(t.per_day_item[i] == t0.per_day_item[i]);
                lemma_keys_named_grow(t0.per_day_item[i].1, t0.display_names, a.names);
            }
        }
    }
}

/// Whether [`compute_totals`] takes the week: every sub-item sum and the
/// week's total fit in an `i64`.
pub fn totals_fit_check(week: &WeekData) -> (r: bool)
    ensures
        r == totals_fit(week@.days),
{
    let ghost days = week@.days;
    proof {
        lemma_week_total_is_sum(days);
    }
    let mut i: usize = 0;
    while i < week.days.len()
        invariant
            i <= week.days.len(),
            days == week@.days,
            days.len() == week.days.len(),
            forall|a: int, b: int|
                0 <= a < i && 0 <= b < days[a].1.len() ==> entry_fits(#[trigger] days[a].1[b]),
        decreases week.days.len() - i,
    {
        let day = &week.days[i].1;
        assert(day@ == days[i as int].1);
        if !crate::ledger::day_text::day_entries_fit(day) {
            return false;
        }
        i = i + 1;
    }
    assert(days_fit(days));
    let mut acc: i128 = 0;
    let mut i: usize = 0;
    assert(days.take(0) =~= Seq::<(int, DayView)>::empty());
    while i < week.days.len()
        invariant
            i <= week.days.len(),
            days == week@.days,
            days.len() == week.days.len(),
            days_fit(days),
            totals_of(days).week_total == days_effective_sum(days),
            acc == days_effective_sum(days.take(i as int)),
            0 <= acc <= i64::MAX,
        decreases week.days.len() - i,
    {
        let day = &week.days[i].1;
        let ghost es = days[i as int].1;
        assert(day@ == es);
        let mut j: usize = 0;
        let ghost base = acc as int;
        assert(es.take(0) =~= Seq::<EntryView>::empty());
        while j < day.entries.len()
            invariant
                j <= day.entries.len(),
                day@ == es,
                es.len() == day.entries.len(),
                i < days.len(),
                es == days[i as int].1,
                days_fit(days),
                base == days_effective_sum(days.take(i as int)),
                days == week@.days,
                totals_of(days).week_total == days_effective_sum(days),
                acc == base + effective_sum(es.take(j as int)),
                0 <= acc <= i64::MAX,
            decreases day.entries.len() - j,
        {
            assert(day.entries@[j as int]@ == es[j as int]);
            assert(entry_fits(days[i as int].1[j as int]));
            proof {
                lemma_effective_nonneg(es[j as int]);
            }
            let resolved = resolve_entry(&day.entries[j]);
            assert(es.take(j + 1).drop_last() =~= es.take(j as int));
            assert(es.take(j + 1).last() == es[j as int]);
            match resolved.effective_minutes {
                Some(m) => {
                    acc = acc + m as i128;
                },
                None => {},
            }
            j = j + 1;
            if acc > i64::MAX as i128 {
                proof {
                    lemma_effective_sum_nonneg_prefix(es, j as int);
                    assert(days.take(i + 1).drop_last() =~= days.take(i as int));
                    assert(days.take(i + 1).last() == days[i as int]);
                    lemma_days_sum_prefix(days, i + 1);
                    assert(days_effective_sum(days.take(i + 1)) == base + effective_sum(es));
                    assert(days_effective_sum(days) >= acc);
                }
                return false;
            }
        }
        assert(es.take(j as int) =~= es);
        assert(days.take(i + 1).drop_last() =~= days.take(i as int));
        assert(days.take(i + 1).last() == days[i as int]);
        i = i + 1;
    }
    assert(days.take(i as int) =~= days);
    true
}

} // verus!
