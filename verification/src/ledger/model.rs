//! The weekly ledger: days of entries, each entry with optional sub-items,
//! and the times computed from them.
use vstd::prelude::*;

use crate::date::{valid_day, weekday_of, Date};
use crate::time_amount::{time_error_message, TimeAmount, TimeError};
use crate::text::push_str;

verus! {

/// A sub-item of an entry: `  - name @time`.
#[derive(Debug, Clone)]
pub struct SubItem {
    pub name: String,
    pub time: Option<TimeAmount>,
}

/// A task line of a day: `- name @time [x]`, with its sub-items.
#[derive(Debug, Clone)]
pub struct Entry {
    pub name: String,
    pub time: Option<TimeAmount>,
    pub checked: bool,
    pub sub_items: Vec<SubItem>,
}

/// The entries of one day, in file order.
#[derive(Debug, Clone)]
pub struct Day {
    pub entries: Vec<Entry>,
}

/// One week of the ledger: the days present, ordered by date with no date
/// twice, and the warnings met while reading it.
#[derive(Debug, Clone)]
pub struct WeekData {
    pub week_start: Date,
    pub days: Vec<(Date, Day)>,
    pub warnings: Vec<String>,
}

/// Why reading or writing a ledger failed.
#[derive(Debug)]
pub enum LedgerError {
    Io(String),
    Time(TimeError),
}

/// What [`resolve_entry`] finds out about an entry.
#[derive(Debug, Clone)]
pub struct EntryResolved {
    pub effective_minutes: Option<i64>,
    pub sub_total_minutes: Option<i64>,
    pub sub_complete: bool,
    pub mismatch: bool,
}

// ---------------------------------------------------------------------------
// Views
// ---------------------------------------------------------------------------

pub struct SubItemView {
    pub name: Seq<char>,
    pub time: Option<nat>,
}

pub struct EntryView {
    pub name: Seq<char>,
    pub time: Option<nat>,
    pub checked: bool,
    pub subs: Seq<SubItemView>,
}

pub type DayView = Seq<EntryView>;

pub struct WeekView {
    pub week_start: int,
    pub days: Seq<(int, DayView)>,
    pub warnings: Seq<Seq<char>>,
}

pub struct ResolvedView {
    pub effective_minutes: Option<int>,
    pub sub_total_minutes: Option<int>,
    pub sub_complete: bool,
    pub mismatch: bool,
}

/// The minutes of an optional duration.
pub open spec fn opt_minutes(t: Option<TimeAmount>) -> Option<nat> {
    match t {
        Some(a) => Some(a@),
        None => None,
    }
}

pub open spec fn opt_int(v: Option<i64>) -> Option<int> {
    match v {
        Some(x) => Some(x as int),
        None => None,
    }
}

impl View for SubItem {
    type V = SubItemView;

    open spec fn view(&self) -> SubItemView {
        SubItemView { name: self.name@, time: opt_minutes(self.time) }
    }
}

impl View for Entry {
    type V = EntryView;

    open spec fn view(&self) -> EntryView {
        EntryView {
            name: self.name@,
            time: opt_minutes(self.time),
            checked: self.checked,
            subs: self.sub_items@.map_values(|s: SubItem| s@),
        }
    }
}

impl View for Day {
    type V = DayView;

    open spec fn view(&self) -> DayView {
        self.entries@.map_values(|e: Entry| e@)
    }
}

impl View for WeekData {
    type V = WeekView;

    open spec fn view(&self) -> WeekView {
        WeekView {
            week_start: self.week_start@,
            days: self.days@.map_values(|p: (Date, Day)| (p.0@, p.1@)),
            warnings: self.warnings@.map_values(|w: String| w@),
        }
    }
}

impl View for EntryResolved {
    type V = ResolvedView;

    open spec fn view(&self) -> ResolvedView {
        ResolvedView {
            effective_minutes: opt_int(self.effective_minutes),
            sub_total_minutes: opt_int(self.sub_total_minutes),
            sub_complete: self.sub_complete,
            mismatch: self.mismatch,
        }
    }
}

/// Days ordered by strictly increasing date.
pub open spec fn days_sorted(days: Seq<(int, DayView)>) -> bool {
    forall|i: int, j: int| 0 <= i < j < days.len() ==> days[i].0 < days[j].0
}

impl WeekData {
    /// The days are ordered by date, with no date twice.
    pub open spec fn wf(&self) -> bool {
        days_sorted(self@.days)
    }
}

// ---------------------------------------------------------------------------
// Resolving an entry against its sub-items
// ---------------------------------------------------------------------------

/// The minutes a sub-item contributes to its parent's sum.
pub open spec fn sub_minutes(s: SubItemView) -> int {
    match s.time {
        Some(t) => t as int,
        None => 0,
    }
}

/// The sum of the times that the sub-items have.
pub open spec fn sub_sum(subs: Seq<SubItemView>) -> int
    decreases subs.len(),
{
    if subs.len() == 0 {
        0
    } else {
        sub_sum(subs.drop_last()) + sub_minutes(subs.last())
    }
}

/// Every sub-item has a time, and there is at least one.
pub open spec fn subs_complete(subs: Seq<SubItemView>) -> bool {
    subs.len() > 0 && forall|i: int| 0 <= i < subs.len() ==> (#[trigger] subs[i]).time is Some
}

/// The sum of the sub-items' times, when every sub-item has one.
pub open spec fn sub_total_of(e: EntryView) -> Option<int> {
    if subs_complete(e.subs) {
        Some(sub_sum(e.subs))
    } else {
        None
    }
}

/// The time an entry counts for: its own, else the sum of its sub-items.
pub open spec fn effective_of(e: EntryView) -> Option<int> {
    match e.time {
        Some(t) => Some(t as int),
        None => sub_total_of(e),
    }
}

/// The entry's own time and the sum of its sub-items both exist and differ.
pub open spec fn mismatch_of(e: EntryView) -> bool {
    e.time is Some && sub_total_of(e) is Some && e.time->0 as int != sub_total_of(e)->0
}

pub open spec fn resolved_of(e: EntryView) -> ResolvedView {
    ResolvedView {
        effective_minutes: effective_of(e),
        sub_total_minutes: sub_total_of(e),
        sub_complete: sub_total_of(e) is Some,
        mismatch: mismatch_of(e),
    }
}

/// An entry whose own time and whose sub-items' times all exist is a
/// mismatch exactly when its time differs from the sum of the sub-items,
/// above it or below it; an entry missing either is never one.
pub proof fn lemma_mismatch_exactly_when_times_differ(e: EntryView)
    ensures
        e.time is Some && subs_complete(e.subs) ==> (resolved_of(e).mismatch <==> e.time->0
            as int != sub_sum(e.subs)),
        e.time is Some && subs_complete(e.subs) && (e.time->0 as int) < sub_sum(e.subs)
            ==> resolved_of(e).mismatch,
        e.time is None || !subs_complete(e.subs) ==> !resolved_of(e).mismatch,
        resolved_of(e).sub_total_minutes == if subs_complete(e.subs) {
            Some(sub_sum(e.subs))
        } else {
            None
        },
{
}

/// The sum of an entry's sub-item times fits in an `i64`.
pub open spec fn entry_fits(e: EntryView) -> bool {
    sub_sum(e.subs) <= i64::MAX
}

pub proof fn lemma_sub_sum_prefix(subs: Seq<SubItemView>, i: int)
    requires
        0 <= i <= subs.len(),
    ensures
        0 <= sub_sum(subs.take(i)) <= sub_sum(subs),
    decreases subs.len() - i,
{
    if i < subs.len() {
        lemma_sub_sum_prefix(subs, i + 1);
        assert(subs.take(i + 1).drop_last() =~= subs.take(i));
        assert(subs.take(i + 1).last() == subs[i]);
        lemma_sub_sum_nonneg(subs.take(i));
    } else {
        assert(subs.take(i) =~= subs);
        lemma_sub_sum_nonneg(subs);
    }
}

pub proof fn lemma_sub_sum_nonneg(subs: Seq<SubItemView>)
    ensures
        sub_sum(subs) >= 0,
    decreases subs.len(),
{
    if subs.len() > 0 {
        lemma_sub_sum_nonneg(subs.drop_last());
    }
}

/// Compares an entry's time with the sum of its sub-items: the sum when all
/// sub-items have a time, the time the entry counts for, and whether the two
/// disagree.
pub fn resolve_entry(entry: &Entry) -> (r: EntryResolved)
    requires
        entry_fits(entry@),
    ensures
        r@ == resolved_of(entry@),
        r.mismatch <==> (entry@.time matches Some(t) && r.sub_total_minutes matches Some(s) && t
            as int != s as int),
        subs_complete(entry@.subs) ==> r.sub_total_minutes == Some(sub_sum(entry@.subs) as i64),
        !subs_complete(entry@.subs) ==> r.sub_total_minutes is None,
{
    let ghost subs = entry@.subs;
    let mut sub_complete = entry.sub_items.len() > 0;
    let mut sub_total: i64 = 0;
    let mut i: usize = 0;
    while i < entry.sub_items.len()
        invariant
            i <= entry.sub_items.len(),
            subs == entry@.subs,
            subs.len() == entry.sub_items.len(),
            entry_fits(entry@),
            sub_total == sub_sum(subs.take(i as int)),
            sub_complete == (subs.len() > 0 && forall|k: int|
                0 <= k < i ==> (#[trigger] subs[k]).time is Some),
        decreases entry.sub_items.len() - i,
    {
        proof {
            lemma_sub_sum_prefix(subs, i + 1);
            assert(subs.take(i + 1).drop_last() =~= subs.take(i as int));
        }
        match entry.sub_items[i].time {
            Some(t) => {
                sub_total = sub_total + t.minutes();
            },
            None => {
                sub_complete = false;
            },
        }
        i = i + 1;
    }
    assert(subs.take(i as int) =~= subs);
    let sub_total_minutes = if sub_complete {
        Some(sub_total)
    } else {
        None
    };
    let parent_minutes = match entry.time {
        Some(t) => Some(t.minutes()),
        None => None,
    };
    let mismatch = match (parent_minutes, sub_total_minutes) {
        (Some(p), Some(s)) => p != s,
        _ => false,
    };
    let effective_minutes = match parent_minutes {
        Some(p) => Some(p),
        None => sub_total_minutes,
    };
    EntryResolved {
        effective_minutes,
        sub_total_minutes,
        sub_complete: sub_total_minutes.is_some(),
        mismatch,
    }
}

// ---------------------------------------------------------------------------
// Filling in parent times
// ---------------------------------------------------------------------------

/// An entry without a time takes the sum of its sub-items, when they all have one.
pub open spec fn computed_entry(e: EntryView) -> EntryView {
    if e.time is None && sub_total_of(e) is Some {
        EntryView { time: Some(sub_total_of(e)->0 as nat), ..e }
    } else {
        e
    }
}

pub open spec fn computed_day(d: DayView) -> DayView {
    d.map_values(|e: EntryView| computed_entry(e))
}

pub open spec fn computed_days(days: Seq<(int, DayView)>) -> Seq<(int, DayView)> {
    days.map_values(|p: (int, DayView)| (p.0, computed_day(p.1)))
}

/// Filling in computed times twice is filling them in once: a second save
/// changes nothing more.
pub proof fn lemma_computed_times_idempotent(days: Seq<(int, DayView)>)
    ensures
        computed_days(computed_days(days)) == computed_days(days),
{
    assert forall|i: int, j: int|
        0 <= i < days.len() && 0 <= j < days[i].1.len() implies computed_entry(
        computed_entry(#[trigger] days[i].1[j]),
    ) == computed_entry(days[i].1[j]) by {
        let e = days[i].1[j];
        let c = computed_entry(e);
        assert(c.subs == e.subs);
    }
    assert forall|i: int| 0 <= i < days.len() implies computed_day(
        computed_day(#[trigger] days[i].1),
    ) =~= computed_day(days[i].1) by {}
    assert(computed_days(computed_days(days)) =~= computed_days(days));
}

/// Every entry's sub-item sum fits in an `i64`.
pub open spec fn days_fit(days: Seq<(int, DayView)>) -> bool {
    forall|i: int, j: int|
        0 <= i < days.len() && 0 <= j < days[i].1.len() ==> entry_fits(#[trigger] days[i].1[j])
}

fn fill_entry_time(entry: &mut Entry)
    requires
        entry_fits(old(entry)@),
    ensures
        final(entry)@ == computed_entry(old(entry)@),
{
    let resolved = resolve_entry(entry);
    if entry.time.is_none() && resolved.sub_complete {
        match resolved.sub_total_minutes {
            Some(minutes) => {
                match TimeAmount::from_minutes(minutes) {
                    Ok(t) => {
                        entry.time = Some(t);
                    },
                    Err(_) => {},
                }
            },
            None => {},
        }
    }
    proof {
        lemma_sub_sum_nonneg(old(entry)@.subs);
    }
    assert(final(entry)@.subs =~= old(entry)@.subs);
}

/// Gives every entry without a time, whose sub-items all have one, the sum of
/// its sub-items.
pub fn apply_computed_times(week: &mut WeekData) -> (r: Result<(), LedgerError>)
    requires
        days_fit(old(week)@.days),
    ensures
        r is Ok,
        final(week)@ == (WeekView { days: computed_days(old(week)@.days), ..old(week)@ }),
{
    let ghost start = week@;
    let mut i: usize = 0;
    while i < week.days.len()
        invariant
            i <= week.days.len(),
            week.days.len() == start.days.len(),
            days_fit(start.days),
            week.week_start == old(week).week_start,
            week.warnings@ == old(week).warnings@,
            start == old(week)@,
            forall|k: int|
                0 <= k < i ==> (#[trigger] week@.days[k]) == (
                start.days[k].0,
                computed_day(start.days[k].1),
            ),
            forall|k: int| i <= k < week.days.len() ==> (#[trigger] week@.days[k]) == start.days[k],
        decreases week.days.len() - i,
    {
        let n = week.days[i].1.entries.len();
        let ghost day0 = start.days[i as int].1;
        assert(week@.days[i as int] == start.days[i as int]);
        let mut j: usize = 0;
        while j < n
            invariant
                i < week.days.len(),
                j <= n,
                n == week.days@[i as int].1.entries.len(),
                day0 == start.days[i as int].1,
                day0.len() == n,
                days_fit(start.days),
                week.days.len() == start.days.len(),
                week@.days[i as int].0 == start.days[i as int].0,
                week.week_start == old(week).week_start,
                week.warnings@ == old(week).warnings@,
                start == old(week)@,
                forall|k: int|
                    0 <= k < i ==> (#[trigger] week@.days[k]) == (
                    start.days[k].0,
                    computed_day(start.days[k].1),
                ),
                forall|k: int|
                    i < k < week.days.len() ==> (#[trigger] week@.days[k]) == start.days[k],
                forall|k: int|
                    0 <= k < j ==> (#[trigger] week.days@[i as int].1@[k]) == computed_entry(
                        day0[k],
                    ),
                forall|k: int|
                    j <= k < n ==> (#[trigger] week.days@[i as int].1@[k]) == day0[k],
            decreases n - j,
        {
            assert(entry_fits(start.days[i as int].1[j as int]));
            let ghost ej = week.days@[i as int].1.entries@[j as int];
            assert(week.days@[i as int].1@[j as int] == ej@);
            let ghost prev = week.days@;
            let ghost prevw = week@.days;
            let ghost preve = week.days@[i as int].1@;
            let ghost preves = week.days@[i as int].1.entries@;
            fill_entry_time(&mut week.days[i].1.entries[j]);
            assert(week.days@[i as int].1.entries@ == preves.update(
                j as int,
                week.days@[i as int].1.entries@[j as int],
            ));
            let ghost ii = i as int;
            assert forall|k: int| 0 <= k < n && k != j implies (#[trigger] week.days@[ii].1@[k])
                == preve[k] by {}
            assert(week.days@[i as int].1@[j as int] == computed_entry(day0[j as int]));
            assert forall|k: int| 0 <= k < week.days.len() && k != i implies week.days@[k]
                == prev[k] by {}
            assert forall|k: int| 0 <= k < week.days.len() && k != i implies (
            #[trigger] week@.days[k]) == prevw[k] by {
                assert(prevw[k] == (prev[k].0@, prev[k].1@));
            }
            j = j + 1;
        }
        assert(week.days@[i as int].1@ =~= computed_day(day0));
        i = i + 1;
    }
    assert(week@.days =~= computed_days(start.days));
    Ok(())
}

// ---------------------------------------------------------------------------
// The days of a week
// ---------------------------------------------------------------------------

/// The number of days in `days` whose date comes before `d`: where a day for
/// `d` is, or would be inserted.
pub open spec fn day_pos(days: Seq<(int, DayView)>, d: int) -> nat
    decreases days.len(),
{
    if days.len() > 0 && days[0].0 < d {
        1 + day_pos(days.drop_first(), d)
    } else {
        0
    }
}

/// `days` with an empty day for `d`, unless it has one.
pub open spec fn with_day(days: Seq<(int, DayView)>, d: int) -> Seq<(int, DayView)> {
    let p = day_pos(days, d) as int;
    if p < days.len() && days[p].0 == d {
        days
    } else {
        days.insert(p, (d, Seq::<EntryView>::empty()))
    }
}

proof fn lemma_day_pos_bound(days: Seq<(int, DayView)>, d: int)
    ensures
        day_pos(days, d) <= days.len(),
    decreases days.len(),
{
    if days.len() > 0 && days[0].0 < d {
        lemma_day_pos_bound(days.drop_first(), d);
    }
}

/// In ordered days, those before `day_pos` come before `d` and the others do not.
pub proof fn lemma_day_pos_sorted(days: Seq<(int, DayView)>, d: int)
    requires
        days_sorted(days),
    ensures
        day_pos(days, d) <= days.len(),
        forall|i: int| 0 <= i < day_pos(days, d) ==> days[i].0 < d,
        forall|i: int| day_pos(days, d) <= i < days.len() ==> days[i].0 >= d,
    decreases days.len(),
{
    if days.len() > 0 && days[0].0 < d {
        let t = days.drop_first();
        assert(days_sorted(t));
        lemma_day_pos_sorted(t, d);
        assert forall|i: int| 0 <= i < day_pos(days, d) implies days[i].0 < d by {
            if i > 0 {
                assert(days[i] == t[i - 1]);
            }
        }
        assert forall|i: int| day_pos(days, d) <= i < days.len() implies days[i].0 >= d by {
            assert(days[i] == t[i - 1]);
        }
    } else if days.len() > 0 {
        assert forall|i: int| 0 <= i < days.len() implies days[i].0 >= d by {
            if i > 0 {
                assert(days[0].0 < days[i].0);
            }
        }
    }
}

/// Adding a day keeps the days ordered and holds a day for `d`.
pub proof fn lemma_with_day_sorted(days: Seq<(int, DayView)>, d: int)
    requires
        days_sorted(days),
    ensures
        days_sorted(with_day(days, d)),
        day_pos(days, d) < with_day(days, d).len(),
        with_day(days, d)[day_pos(days, d) as int].0 == d,
{
    lemma_day_pos_sorted(days, d);
    let p = day_pos(days, d) as int;
    if !(p < days.len() && days[p].0 == d) {
        let r = days.insert(p, (d, Seq::<EntryView>::empty()));
        days.insert_ensures(p, (d, Seq::<EntryView>::empty()));
        assert forall|i: int, j: int| 0 <= i < j < r.len() implies r[i].0 < r[j].0 by {
            if j < p {
            } else if j == p {
            } else if i < p {
                assert(r[j] == days[j - 1]);
            } else if i == p {
                assert(r[j] == days[j - 1]);
            } else {
                assert(r[i] == days[i - 1]);
                assert(r[j] == days[j - 1]);
            }
        }
    }
}

/// `days` with `x` as the day of `d`, in place of the day it had or
/// inserted where it belongs.
pub open spec fn put_day(days: Seq<(int, DayView)>, d: int, x: DayView) -> Seq<(int, DayView)> {
    let p = day_pos(days, d) as int;
    if p < days.len() && days[p].0 == d {
        days.update(p, (d, x))
    } else {
        days.insert(p, (d, x))
    }
}

/// In ordered days, a day for `d` stands at `day_pos(days, d)`.
pub proof fn lemma_day_pos_finds(days: Seq<(int, DayView)>, d: int, i: int)
    requires
        days_sorted(days),
        0 <= i < days.len(),
        days[i].0 == d,
    ensures
        day_pos(days, d) == i,
{
    lemma_day_pos_sorted(days, d);
    let q = day_pos(days, d) as int;
    if q < i {
        assert(days[q].0 < days[i].0);
    }
}

/// Putting a day keeps the days ordered, and the day put stands at `day_pos`.
pub proof fn lemma_put_day_sorted(days: Seq<(int, DayView)>, d: int, x: DayView)
    requires
        days_sorted(days),
    ensures
        days_sorted(put_day(days, d, x)),
        day_pos(days, d) < put_day(days, d, x).len(),
        put_day(days, d, x)[day_pos(days, d) as int] == (d, x),
        day_pos(put_day(days, d, x), d) == day_pos(days, d),
{
    lemma_with_day_sorted(days, d);
    let w = with_day(days, d);
    let r = put_day(days, d, x);
    let p = day_pos(days, d) as int;
    lemma_day_pos_sorted(days, d);
    days.insert_ensures(p, (d, x));
    days.insert_ensures(p, (d, Seq::<EntryView>::empty()));
    assert(r.len() == w.len());
    assert forall|i: int| 0 <= i < r.len() implies #[trigger] r[i].0 == w[i].0 by {
        if i == p {
        } else if p < days.len() && days[p].0 == d {
        } else if i < p {
        } else {
            assert(r[i] == days[i - 1]);
            assert(w[i] == days[i - 1]);
        }
    }
    assert forall|i: int, j: int| 0 <= i < j < r.len() implies r[i].0 < r[j].0 by {
        assert(r[i].0 == w[i].0);
        assert(r[j].0 == w[j].0);
    }
    lemma_day_pos_finds(r, d, p);
}

/// Filling in computed times keeps the days ordered.
pub proof fn lemma_computed_days_sorted(days: Seq<(int, DayView)>)
    requires
        days_sorted(days),
    ensures
        days_sorted(computed_days(days)),
{
    let c = computed_days(days);
    assert forall|i: int, j: int| 0 <= i < j < c.len() implies c[i].0 < c[j].0 by {
        assert(c[i].0 == days[i].0);
        assert(c[j].0 == days[j].0);
    }
}

impl WeekData {
    /// An empty week starting at `week_start`.
    pub fn new(week_start: Date) -> (r: WeekData)
        ensures
            r@.week_start == week_start@,
            r@.days == Seq::<(int, DayView)>::empty(),
            r@.warnings == Seq::<Seq<char>>::empty(),
            r.wf(),
    {
        let r = WeekData { week_start, days: Vec::new(), warnings: Vec::new() };
        assert(r@.days =~= Seq::<(int, DayView)>::empty());
        assert(r@.warnings =~= Seq::<Seq<char>>::empty());
        r
    }

    /// Where the day for `date` is, or would be inserted.
    fn day_index(&self, date: Date) -> (i: usize)
        ensures
            i == day_pos(self@.days, date@),
            i <= self.days.len(),
    {
        let ghost days0 = self@.days;
        let mut i: usize = 0;
        assert(days0.skip(0) =~= days0);
        while i < self.days.len() && self.days[i].0.before(date)
            invariant
                i <= self.days.len(),
                days0 == self@.days,
                days0.len() == self.days.len(),
                day_pos(days0, date@) == i + day_pos(days0.skip(i as int), date@),
            decreases self.days.len() - i,
        {
            assert(days0.skip(i as int).drop_first() =~= days0.skip(i + 1));
            i = i + 1;
        }
        if i < self.days.len() {
            assert(days0.skip(i as int)[0] == days0[i as int]);
        }
        i
    }

    /// Makes `day` the day of `date`, and gives back the day it replaced.
    pub fn put_day(&mut self, date: Date, day: Day) -> (prev: Option<Day>)
        requires
            old(self).wf(),
        ensures
            final(self).wf(),
            final(self)@ == (WeekView { days: put_day(old(self)@.days, date@, day@), ..old(self)@ }),
            ({
                let days = old(self)@.days;
                let p = day_pos(days, date@) as int;
                match prev {
                    Some(x) => p < days.len() && days[p] == (date@, x@),
                    None => !(p < days.len() && days[p].0 == date@),
                }
            }),
    {
        let ghost days0 = self@.days;
        proof {
            lemma_put_day_sorted(days0, date@, day@);
        }
        let i = self.day_index(date);
        if i < self.days.len() && self.days[i].0.same(date) {
            let (_, old_day) = self.days.remove(i);
            self.days.insert(i, (date, day));
            assert(self@.days =~= put_day(days0, date@, day@));
            Some(old_day)
        } else {
            self.days.insert(i, (date, day));
            assert(self@.days =~= put_day(days0, date@, day@));
            None
        }
    }

    /// Undoes [`WeekData::put_day`]: gives `date` back the day `prev` it had,
    /// or removes its day when it had none.
    pub fn restore_day(&mut self, date: Date, prev: Option<Day>)
        requires
            old(self).wf(),
            day_pos(old(self)@.days, date@) < old(self)@.days.len(),
            old(self)@.days[day_pos(old(self)@.days, date@) as int].0 == date@,
        ensures
            final(self).wf(),
            final(self)@ == (WeekView {
                days: match prev {
                    Some(x) => old(self)@.days.update(
                        day_pos(old(self)@.days, date@) as int,
                        (date@, x@),
                    ),
                    None => old(self)@.days.remove(day_pos(old(self)@.days, date@) as int),
                },
                ..old(self)@
            }),
    {
        let ghost days0 = self@.days;
        let i = self.day_index(date);
        let _ = self.days.remove(i);
        match prev {
            Some(x) => {
                self.days.insert(i, (date, x));
                assert(self@.days =~= days0.update(i as int, (date@, x@)));
                assert forall|a: int, b: int| 0 <= a < b < self@.days.len() implies self@.days[a].0
                    < self@.days[b].0 by {
                    assert(self@.days[a].0 == days0[a].0);
                    assert(self@.days[b].0 == days0[b].0);
                }
            },
            None => {
                assert(self@.days =~= days0.remove(i as int));
                assert forall|a: int, b: int| 0 <= a < b < self@.days.len() implies self@.days[a].0
                    < self@.days[b].0 by {
                    if a >= i {
                        assert(self@.days[a] == days0[a + 1]);
                    } else {
                        assert(self@.days[a] == days0[a]);
                    }
                    if b >= i {
                        assert(self@.days[b] == days0[b + 1]);
                    } else {
                        assert(self@.days[b] == days0[b]);
                    }
                }
            },
        }
    }

    /// The position of the day for `date`, added empty when missing.
    pub fn ensure_day(&mut self, date: Date) -> (idx: usize)
        ensures
            final(self)@ == (WeekView { days: with_day(old(self)@.days, date@), ..old(self)@ }),
            idx == day_pos(old(self)@.days, date@),
            idx < final(self).days.len(),
            final(self)@.days[idx as int].0 == date@,
            old(self).wf() ==> final(self).wf(),
    {
        let ghost days0 = self@.days;
        let mut i: usize = 0;
        assert(days0.skip(0) =~= days0);
        while i < self.days.len() && self.days[i].0.before(date)
            invariant
                i <= self.days.len(),
                days0 == self@.days,
                days0.len() == self.days.len(),
                day_pos(days0, date@) == i + day_pos(days0.skip(i as int), date@),
            decreases self.days.len() - i,
        {
            assert(days0.skip(i as int).drop_first() =~= days0.skip(i + 1));
            i = i + 1;
        }
        if i < self.days.len() {
            assert(days0.skip(i as int)[0] == days0[i as int]);
        }
        assert(day_pos(days0, date@) == i);
        proof {
            if old(self).wf() {
                lemma_with_day_sorted(days0, date@);
            }
        }
        if i < self.days.len() && self.days[i].0.same(date) {
            i
        } else {
            let day = Day { entries: Vec::new() };
            assert(day@ =~= Seq::<EntryView>::empty());
            self.days.insert(i, (date, day));
            assert(self@.days =~= with_day(days0, date@));
            i
        }
    }

    /// The day for `date`, added empty when missing.
    pub fn day_mut(&mut self, date: Date) -> (r: &mut Day)
        ensures
            ({
                let days1 = with_day(old(self)@.days, date@);
                let p = day_pos(old(self)@.days, date@) as int;
                &&& p < days1.len()
                &&& (*r)@ == days1[p].1
                &&& final(self)@.week_start == old(self)@.week_start
                &&& final(self)@.warnings == old(self)@.warnings
                &&& final(self)@.days.len() == days1.len()
                &&& final(self)@.days[p] == (date@, (*final(r))@)
                &&& forall|k: int|
                    0 <= k < days1.len() && k != p ==> #[trigger] final(self)@.days[k] == days1[k]
            }),
    {
        let i = self.ensure_day(date);
        &mut self.days[i].1
    }

    /// The index of the day for `date`, if present.
    pub fn find_day(&self, date: Date) -> (r: Option<usize>)
        requires
            self.wf(),
        ensures
            match r {
                Some(i) => i < self.days.len() && self@.days[i as int].0 == date@,
                None => forall|i: int| 0 <= i < self.days.len() ==> self@.days[i].0 != date@,
            },
    {
        let mut i: usize = 0;
        while i < self.days.len()
            invariant
                i <= self.days.len(),
                forall|k: int| 0 <= k < i ==> self@.days[k].0 != date@,
            decreases self.days.len() - i,
        {
            if self.days[i].0.same(date) {
                return Some(i);
            }
            i = i + 1;
        }
        None
    }
}

/// The Monday on or before `date`: the first day of its week.
pub fn week_start_for(date: Date) -> (r: Date)
    requires
        valid_day(date@ - weekday_of(date@)),
    ensures
        r@ == date@ - weekday_of(date@),
{
    let back = date.weekday_from_monday();
    date.add_days(-(back as i64))
}

/// The Monday on or before a date is a Monday, at most six days earlier.
pub proof fn lemma_week_start_is_monday(n: int)
    ensures
        weekday_of(n - weekday_of(n)) == 0,
        n - 6 <= n - weekday_of(n) <= n,
{
}

/// The seven dates of the week starting at `week_start`.
pub fn week_dates(week_start: Date) -> (r: Vec<Date>)
    requires
        valid_day(week_start@ + 6),
    ensures
        r.len() == 7,
        forall|i: int| 0 <= i < 7 ==> (#[trigger] r@[i])@ == week_start@ + i,
{
    let mut r: Vec<Date> = Vec::new();
    let mut k: i64 = 0;
    let start_number = week_start.day_number();
    while k < 7
        invariant
            0 <= k <= 7,
            r.len() == k,
            valid_day(week_start@ + 6),
            valid_day(week_start@),
            forall|i: int| 0 <= i < k ==> (#[trigger] r@[i])@ == week_start@ + i,
        decreases 7 - k,
    {
        r.push(week_start.add_days(k));
        k = k + 1;
    }
    r
}

/// A week whose seven days are all present and empty.
pub fn empty_week(week_start: Date) -> (r: WeekData)
    requires
        valid_day(week_start@ + 6),
    ensures
        r.wf(),
        r@.week_start == week_start@,
        r@.warnings == Seq::<Seq<char>>::empty(),
        r@.days.len() == 7,
        forall|i: int|
            0 <= i < 7 ==> (#[trigger] r@.days[i]) == (
                week_start@ + i,
                Seq::<EntryView>::empty(),
            ),
{
    let mut week = WeekData::new(week_start);
    let dates = week_dates(week_start);
    let mut k: usize = 0;
    while k < 7
        invariant
            k <= 7,
            dates.len() == 7,
            forall|i: int| 0 <= i < 7 ==> (#[trigger] dates@[i])@ == week_start@ + i,
            week.wf(),
            week@.week_start == week_start@,
            week@.warnings == Seq::<Seq<char>>::empty(),
            week@.days.len() == k,
            forall|i: int|
                0 <= i < k ==> (#[trigger] week@.days[i]) == (
                    week_start@ + i,
                    Seq::<EntryView>::empty(),
                ),
        decreases 7 - k,
    {
        let ghost before = week@.days;
        proof {
            lemma_day_pos_sorted(before, week_start@ + k);
            assert(day_pos(before, week_start@ + k) == k) by {
                lemma_day_pos_all_before(before, week_start@ + k);
            }
        }
        week.ensure_day(dates[k]);
        assert(week@.days =~= before.push((week_start@ + k, Seq::<EntryView>::empty())));
        k = k + 1;
    }
    week
}

pub proof fn lemma_day_pos_all_before(days: Seq<(int, DayView)>, d: int)
    requires
        forall|i: int| 0 <= i < days.len() ==> days[i].0 < d,
    ensures
        day_pos(days, d) == days.len(),
    decreases days.len(),
{
    if days.len() > 0 {
        let t = days.drop_first();
        assert forall|i: int| 0 <= i < t.len() implies t[i].0 < d by {
            assert(t[i] == days[i + 1]);
        }
        lemma_day_pos_all_before(t, d);
    }
}

impl LedgerError {
    /// The message of the error, as `to_string()` writes it.
    pub fn message(&self) -> (r: String)
        ensures
            match self {
                LedgerError::Io(m) => r@ == seq!['i', 'o', ' ', 'e', 'r', 'r', 'o', 'r', ':', ' ']
                    + m@,
                LedgerError::Time(e) => r@ == seq![
                    't',
                    'i',
                    'm',
                    'e',
                    ' ',
                    'e',
                    'r',
                    'r',
                    'o',
                    'r',
                    ':',
                    ' ',
                ] + time_error_message(e@),
            },
    {
        let mut r = String::new();
        match self {
            LedgerError::Io(m) => {
                push_str(&mut r, "io error: ");
                push_str(&mut r, m.as_str());
                proof {
                    reveal_strlit("io error: ");
                }
            },
            LedgerError::Time(e) => {
                push_str(&mut r, "time error: ");
                let t = e.message();
                push_str(&mut r, t.as_str());
                proof {
                    reveal_strlit("time error: ");
                }
            },
        }
        assert(match self {
            LedgerError::Io(m) => r@ =~= seq!['i', 'o', ' ', 'e', 'r', 'r', 'o', 'r', ':', ' '] + m@,
            LedgerError::Time(e) => r@ =~= seq![
                't',
                'i',
                'm',
                'e',
                ' ',
                'e',
                'r',
                'r',
                'o',
                'r',
                ':',
                ' ',
            ] + time_error_message(e@),
        });
        r
    }
}

} // verus!
