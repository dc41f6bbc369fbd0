//! The state of the weekly overview: the week shown, its totals, the selected
//! day and task, the status line and the open screens, and what each key does.
use vstd::prelude::*;

use crate::config::{join_path, path_join};
use crate::day_pane::{edit_entered, edit_key_effect, DayPane};
use crate::date::{valid_day, Date};
use crate::ledger::assoc::names_table;
use crate::ledger::model::{apply_computed_times, computed_days, lemma_computed_days_sorted, WeekData, WeekView};
use crate::ledger::render::{week_file_name, week_file_text};
use crate::ledger::totals::{
    compute_totals, lemma_computed_times_keep_totals, totals_fit, totals_of, Totals,
};
use crate::scroll_state::{effective_page, max_offset_for, ScrollState};
use crate::text::{decimal, push_decimal, push_str};

verus! {

/// A task row of the overview: its key and the name shown for it.
#[derive(Debug, Clone)]
pub struct TaskDisplay {
    pub key: String,
    pub name: String,
}

/// A screen of the interface.
#[derive(Clone, Copy, Debug, PartialEq, Eq, Structural)]
pub enum Screen {
    Main,
    Warnings(ScrollState),
}

/// The modifier keys held with a character key.
#[derive(Clone, Copy, Debug, PartialEq, Eq, Structural)]
pub enum Modifiers {
    /// None.
    Plain,
    /// Shift alone.
    Shift,
    /// Control alone.
    Control,
    /// Any other combination.
    Other,
}

/// A key press, as the screens tell keys apart. An arrow to the left or
/// right carries whether the word-jump modifier was held with it.
#[derive(Clone, Copy, Debug, PartialEq, Eq, Structural)]
pub enum Key {
    Char { c: char, mods: Modifiers },
    Esc,
    Left { word: bool },
    Right { word: bool },
    Up,
    Down,
    PageUp,
    PageDown,
    Home,
    End,
    Backspace,
    Delete,
    Enter,
    Tab,
    Other,
}

/// What the caller is to do after a key.
#[derive(Clone, Copy, Debug, PartialEq, Eq, Structural)]
pub enum KeyOutcome {
    /// Nothing more.
    Continue,
    /// Leave the program.
    Quit,
    /// Write the week, whose computed times are filled in, to its file, then
    /// call [`App::after_save`].
    Save,
    /// Write the week, into which the edited day went, to its file, then call
    /// [`App::finish_day_save`].
    SaveDay,
    /// Move to the previous (-1) or next (1) week: see [`App::plan_week_shift`].
    ShiftWeek(i64),
}

/// How to move to another week.
#[derive(Debug, Clone)]
pub struct WeekShift {
    /// The first day of the week to show.
    pub week_start: Date,
    /// Its ledger file.
    pub file_path: String,
    /// Whether the week is shown even when its file does not exist (it is
    /// the current week); otherwise a missing file leaves the view as it is.
    pub load_even_if_missing: bool,
}

pub struct App {
    pub week: WeekData,
    pub file_path: String,
    pub ledger_dir: String,
    pub tasks: Vec<TaskDisplay>,
    pub selected_day: usize,
    pub selected_task: usize,
    pub totals: Totals,
    pub status: String,
    pub screen_stack: Vec<Screen>,
    pub day_pane: DayPane,
}

/// The tasks of the overview: one per task key, in key order, with its name.
pub open spec fn tasks_view(tasks: Seq<TaskDisplay>) -> Seq<(Seq<char>, Seq<char>)> {
    tasks.map_values(|t: TaskDisplay| (t.key@, t.name@))
}

/// `Warnings: n`.
pub open spec fn warnings_status(n: nat) -> Seq<char> {
    seq!['W', 'a', 'r', 'n', 'i', 'n', 'g', 's', ':', ' '] + decimal(n)
}

pub open spec fn saved_status() -> Seq<char> {
    seq!['S', 'a', 'v', 'e', 'd']
}

/// The number of lines of the warnings overlay: one per warning, or one line
/// saying there is none.
pub open spec fn warnings_lines(n: nat) -> usize {
    if n == 0 {
        1
    } else {
        n as usize
    }
}

/// Whether the key is the character `ch` with no modifier.
pub open spec fn is_plain_char(key: Key, ch: char) -> bool {
    key matches Key::Char { c, mods } && c == ch && mods == Modifiers::Plain
}

/// The selection moved on a key of the main screen, as `(day, task)`.
pub open spec fn main_selection(day: usize, task: usize, ntasks: nat, key: Key) -> (usize, usize) {
    match key {
        Key::Left { .. } => if day == 0 {
            (day, task)
        } else {
            ((day - 1) as usize, task)
        },
        Key::Right { .. } => if day == 6 {
            (day, task)
        } else if day + 1 <= 6 {
            ((day + 1) as usize, task)
        } else {
            (6, task)
        },
        Key::Up => (day, if task > 0 {
            (task - 1) as usize
        } else {
            0
        }),
        Key::Down => if ntasks == 0 {
            (day, task)
        } else if task + 1 <= ntasks - 1 {
            (day, (task + 1) as usize)
        } else {
            (day, (ntasks - 1) as usize)
        },
        _ => (day, task),
    }
}

/// What a key does on the main screen.
pub open spec fn main_outcome(day: usize, key: Key) -> KeyOutcome {
    match key {
        Key::Char { c, mods } => if c == 'q' {
            KeyOutcome::Quit
        } else if c == 's' && mods == Modifiers::Plain {
            KeyOutcome::Save
        } else {
            KeyOutcome::Continue
        },
        Key::Esc => KeyOutcome::Quit,
        Key::Left { .. } => if day == 0 {
            KeyOutcome::ShiftWeek(-1i64)
        } else {
            KeyOutcome::Continue
        },
        Key::Right { .. } => if day == 6 {
            KeyOutcome::ShiftWeek(1i64)
        } else {
            KeyOutcome::Continue
        },
        _ => KeyOutcome::Continue,
    }
}

/// Whether a key closes the warnings overlay.
pub open spec fn closes_overlay(key: Key) -> bool {
    match key {
        Key::Char { c, mods } => (c == 'w' && mods == Modifiers::Plain) || c == 'q',
        Key::Esc => true,
        _ => false,
    }
}

/// The overlay's scroll state after a key.
pub open spec fn overlay_scrolled(s: ScrollState, key: Key, lines: usize) -> ScrollState {
    match key {
        Key::Up => s.scrolled(-1i32, lines),
        Key::Down => s.scrolled(1i32, lines),
        Key::PageUp => s.paged_up(lines),
        Key::PageDown => s.paged_down(lines),
        Key::Home => ScrollState { offset: 0, ..s },
        Key::End => ScrollState { offset: max_offset_for(s.page_size, lines), ..s },
        _ => s,
    }
}

fn build_tasks(totals: &Totals) -> (r: Vec<TaskDisplay>)
    ensures
        tasks_view(r@) == names_table(totals.display_names@),
{
    let mut r: Vec<TaskDisplay> = Vec::new();
    let mut i: usize = 0;
    while i < totals.display_names.len()
        invariant
            i <= totals.display_names.len(),
            tasks_view(r@) == names_table(totals.display_names@).take(i as int),
        decreases totals.display_names.len() - i,
    {
        let ghost prev = r@;
        let key = totals.display_names[i].0.clone();
        let name = totals.display_names[i].1.clone();
        assert(key@ == totals.display_names@[i as int].0@);
        assert(name@ == totals.display_names@[i as int].1@);
        r.push(TaskDisplay { key, name });
        assert(tasks_view(r@) =~= tasks_view(prev).push(names_table(totals.display_names@)[i as int]));
        assert(names_table(totals.display_names@).take(i + 1) =~= names_table(totals.display_names@).take(i as int).push(names_table(totals.display_names@)[i as int]));
        i = i + 1;
        assert(tasks_view(r@) =~= names_table(totals.display_names@).take(i as int));
    }
    assert(names_table(totals.display_names@).take(i as int) =~= names_table(
        totals.display_names@,
    ));
    r
}

pub(crate) fn warnings_status_text(n: usize) -> (r: String)
    ensures
        r@ == warnings_status(n as nat),
{
    let mut s = String::new();
    push_str(&mut s, "Warnings: ");
    proof {
        reveal_strlit("Warnings: ");
    }
    push_decimal(&mut s, n as u64);
    assert(s@ =~= warnings_status(n as nat));
    s
}

/// The ledger file of the week of `date` in `ledger_dir`.
pub fn week_file_path(ledger_dir: &str, date: Date) -> (r: String)
    ensures
        r@ == join_path(ledger_dir@, week_file_text(date@)),
{
    let name = week_file_name(date);
    path_join(ledger_dir, name.as_str())
}

/// Every field of the overview but the week, the day pane and the status
/// is as it was.
pub open spec fn same_view_state(a: App, b: App) -> bool {
    &&& b.file_path@ == a.file_path@
    &&& b.ledger_dir@ == a.ledger_dir@
    &&& b.tasks@ == a.tasks@
    &&& b.totals@ == a.totals@
    &&& b.selected_day == a.selected_day
    &&& b.selected_task == a.selected_task
    &&& b.screen_stack@ == a.screen_stack@
}

/// Every field of the overview but the day pane and the status is as it was.
pub open spec fn same_overview(a: App, b: App) -> bool {
    same_view_state(a, b) && b.week@ == a.week@
}

/// The overview of `b` is that of `a` refreshed: totals and tasks
/// recomputed, the selected task kept in range, the overlay clamped.
pub open spec fn overview_refreshed(a: App, b: App) -> bool {
    &&& b.in_step()
    &&& b.week@ == a.week@
    &&& b.file_path@ == a.file_path@
    &&& b.ledger_dir@ == a.ledger_dir@
    &&& b.selected_day == a.selected_day
    &&& b.selected_task == if a.selected_task >= b.tasks.len() {
        if b.tasks.len() > 0 {
            (b.tasks.len() - 1) as usize
        } else {
            0
        }
    } else {
        a.selected_task
    }
    &&& b.screens().len() == a.screens().len()
    &&& forall|i: int|
        0 <= i < a.screens().len() - 1 ==> b.screens()[i] == a.screens()[i]
    &&& a.screens().len() >= 1 ==> b.screens().last() == match a.screens().last() {
        Screen::Warnings(s) => Screen::Warnings(
            s.clamped(warnings_lines(a.week@.warnings.len())),
        ),
        Screen::Main => Screen::Main,
    }
}

/// `b` is `a` after [`App::refresh`]: the overview refreshed, the status
/// the warning count, and the day pane as it was.
pub open spec fn refreshed(a: App, b: App) -> bool {
    &&& overview_refreshed(a, b)
    &&& b.day_pane == a.day_pane
    &&& b.status@ == warnings_status(a.week@.warnings.len())
}

/// What a key does on the main screen: `b` is `a` after it, and `r` what
/// the caller is to do.
pub open spec fn main_key_effect(a: App, b: App, key: Key, r: KeyOutcome) -> bool {
    let (d, t) = main_selection(a.selected_day, a.selected_task, a.tasks.len() as nat, key);
    &&& r == main_outcome(a.selected_day, key)
    &&& b.selected_day == d
    &&& b.selected_task == t
    &&& b.file_path@ == a.file_path@
    &&& b.ledger_dir@ == a.ledger_dir@
    &&& b.tasks@ == a.tasks@
    &&& b.totals@ == a.totals@
    &&& b.week@ == if is_plain_char(key, 's') {
        WeekView { days: computed_days(a.week@.days), ..a.week@ }
    } else {
        a.week@
    }
    &&& b.screens() == if is_plain_char(key, 'w') {
        a.screens().push(Screen::Warnings(ScrollState { offset: 0, page_size: 5 }))
    } else {
        a.screens()
    }
    &&& if is_plain_char(key, 'e') {
        edit_entered(a, b)
    } else {
        b.status@ == a.status@ && b.day_pane == a.day_pane
    }
}

/// What a key does on the warnings overlay, whose scroll state is `s`.
pub open spec fn overlay_key_effect(
    a: App,
    b: App,
    s: ScrollState,
    key: Key,
    r: KeyOutcome,
) -> bool {
    &&& r == KeyOutcome::Continue
    &&& b.week@ == a.week@
    &&& b.file_path@ == a.file_path@
    &&& b.ledger_dir@ == a.ledger_dir@
    &&& b.tasks@ == a.tasks@
    &&& b.totals@ == a.totals@
    &&& b.status@ == a.status@
    &&& b.day_pane == a.day_pane
    &&& b.selected_day == a.selected_day
    &&& b.selected_task == a.selected_task
    &&& b.screens() == if closes_overlay(key) {
        if a.screens().len() > 1 {
            a.screens().drop_last()
        } else {
            a.screens()
        }
    } else {
        a.screens().drop_last().push(
            Screen::Warnings(overlay_scrolled(s, key, warnings_lines(a.week@.warnings.len()))),
        )
    }
}

/// On the warnings overlay, Down shows the next line, stopping at the last
/// full page, and Up the line before, stopping at the first: Down never
/// moves up and Up never moves down.
pub proof fn lemma_overlay_arrows(s: ScrollState, lines: usize)
    ensures
        ({
            let page: int = if s.page_size >= 1 {
                s.page_size as int
            } else {
                1
            };
            let last: int = if lines > page {
                lines - page
            } else {
                0
            };
            &&& overlay_scrolled(s, Key::Down, lines).offset == if s.offset + 1 >= last {
                last
            } else {
                s.offset + 1
            }
            &&& overlay_scrolled(s, Key::Up, lines).offset == if s.offset == 0 {
                0
            } else if s.offset - 1 >= last {
                last
            } else {
                s.offset - 1
            }
            &&& s.offset <= last ==> overlay_scrolled(s, Key::Down, lines).offset >= s.offset
            &&& overlay_scrolled(s, Key::Up, lines).offset <= s.offset
        }),
{
    crate::scroll_state::lemma_scrolled_offset(s, 1i32, lines);
    crate::scroll_state::lemma_scrolled_offset(s, -1i32, lines);
}

/// After a refresh the selected task is the old one when it is still in
/// range, else the last task: the smaller of the old index and the last
/// index, and 0 when there is no task.
pub proof fn lemma_refresh_keeps_task_selection(a: App, b: App)
    requires
        overview_refreshed(a, b),
    ensures
        b.tasks.len() > 0 ==> b.selected_task == if a.selected_task < b.tasks.len() - 1 {
            a.selected_task as int
        } else {
            b.tasks.len() - 1
        },
        b.tasks.len() > 0 ==> b.selected_task < b.tasks.len(),
        b.tasks.len() == 0 ==> b.selected_task == 0,
{
}

impl App {
    /// The screens form a non-empty stack, the week's last day exists, its
    /// days are ordered, and its totals fit in an `i64`.
    pub open spec fn wf(&self) -> bool {
        &&& self.screen_stack@.len() >= 1
        &&& valid_day(self.week@.week_start + 6)
        &&& self.week.wf()
        &&& totals_fit(self.week@.days)
    }

    /// The date of the selected day: the week's day `selected_day`, or its
    /// first day when the selection lies past the week.
    pub open spec fn selected_day_of(&self) -> int {
        if self.selected_day < 7 {
            self.week@.week_start + self.selected_day
        } else {
            self.week@.week_start
        }
    }

    /// The screens, bottom first.
    pub open spec fn screens(&self) -> Seq<Screen> {
        self.screen_stack@
    }

    /// The totals and the task list are those of the week.
    pub open spec fn in_step(&self) -> bool {
        &&& self.totals@ == totals_of(self.week@.days)
        &&& tasks_view(self.tasks@) == self.totals@.display_names
    }

    /// The overview of a week, on the main screen.
    pub fn new(week: WeekData, file_path: String, ledger_dir: String) -> (r: App)
        requires
            totals_fit(week@.days),
            valid_day(week@.week_start + 6),
            week.wf(),
        ensures
            r.wf(),
            r.in_step(),
            r.day_pane is View,
            r.week@ == week@,
            r.file_path@ == file_path@,
            r.ledger_dir@ == ledger_dir@,
            r.selected_day == 0,
            r.selected_task == 0,
            r.status@ == warnings_status(week@.warnings.len()),
            r.screens() == seq![Screen::Main],
    {
        let totals = compute_totals(&week);
        let tasks = build_tasks(&totals);
        let status = warnings_status_text(week.warnings.len());
        let mut screen_stack: Vec<Screen> = Vec::new();
        screen_stack.push(Screen::Main);
        let r = App {
            week,
            file_path,
            ledger_dir,
            tasks,
            selected_day: 0,
            selected_task: 0,
            totals,
            status,
            screen_stack,
            day_pane: DayPane::View,
        };
        assert(r.screen_stack@ =~= seq![Screen::Main]);
        r
    }

    /// The number of lines of the warnings overlay.
    pub fn warnings_line_count(&self) -> (r: usize)
        ensures
            r == warnings_lines(self.week@.warnings.len()),
    {
        if self.week.warnings.len() == 0 {
            1
        } else {
            self.week.warnings.len()
        }
    }

    /// Recomputes the totals and tasks of the week, keeps the selected task in
    /// range, resets the status to the warning count and clamps the overlay.
    pub fn refresh(&mut self)
        requires
            totals_fit(old(self).week@.days),
        ensures
            refreshed(*old(self), *final(self)),
            old(self).selected_task < final(self).tasks.len() ==> final(self).selected_task
                == old(self).selected_task,
            old(self).selected_task >= final(self).tasks.len() && final(self).tasks.len() > 0
                ==> final(self).selected_task + 1 == final(self).tasks.len(),
    {
        self.totals = compute_totals(&self.week);
        self.tasks = build_tasks(&self.totals);
        if self.selected_task >= self.tasks.len() {
            self.selected_task = if self.tasks.len() > 0 {
                self.tasks.len() - 1
            } else {
                0
            };
        }
        self.status = warnings_status_text(self.week.warnings.len());
        let line_count = self.warnings_line_count();
        let n = self.screen_stack.len();
        if n > 0 {
            match self.screen_stack[n - 1] {
                Screen::Warnings(s) => {
                    let mut st = s;
                    st.clamp(line_count);
                    self.screen_stack.set(n - 1, Screen::Warnings(st));
                },
                Screen::Main => {},
            }
        }
    }

    /// The selected date: the week's day `selected_day`, or its first day when
    /// the selection lies past the week.
    pub fn selected_date(&self) -> (r: Date)
        requires
            valid_day(self.week@.week_start + 6),
        ensures
            r@ == self.selected_day_of(),
    {
        let dates = crate::ledger::model::week_dates(self.week.week_start);
        if self.selected_day < dates.len() {
            dates[self.selected_day]
        } else {
            self.week.week_start
        }
    }

    /// Whether the warnings overlay is open.
    pub fn showing_warnings(&self) -> (r: bool)
        ensures
            r == (self.screens().len() > 0 && self.screens().last() is Warnings),
    {
        let n = self.screen_stack.len();
        n > 0 && match self.screen_stack[n - 1] {
            Screen::Warnings(_) => true,
            Screen::Main => false,
        }
    }

    /// Sets the page size of the open warnings overlay, if any.
    pub fn set_warnings_page_size(&mut self, page_size: usize)
        ensures
            final(self).week@ == old(self).week@,
            final(self).screens().len() == old(self).screens().len(),
            forall|i: int|
                0 <= i < old(self).screens().len() - 1 ==> final(self).screens()[i] == old(
                    self,
                ).screens()[i],
            old(self).screens().len() >= 1 ==> final(self).screens().last() == match old(
                self,
            ).screens().last() {
                Screen::Warnings(s) => Screen::Warnings(
                    s.with_page_size(page_size, warnings_lines(old(self).week@.warnings.len())),
                ),
                Screen::Main => Screen::Main,
            },
    {
        let line_count = self.warnings_line_count();
        let n = self.screen_stack.len();
        if n > 0 {
            match self.screen_stack[n - 1] {
                Screen::Warnings(s) => {
                    let mut st = s;
                    st.set_page_size(page_size, line_count);
                    self.screen_stack.set(n - 1, Screen::Warnings(st));
                },
                Screen::Main => {},
            }
        }
    }

    /// The first visible line of the open warnings overlay, 0 when closed.
    pub fn warnings_scroll(&self) -> (r: usize)
        ensures
            r == if self.screens().len() > 0 && self.screens().last() is Warnings {
                self.screens().last()->Warnings_0.offset
            } else {
                0
            },
    {
        let n = self.screen_stack.len();
        if n > 0 {
            match self.screen_stack[n - 1] {
                Screen::Warnings(s) => s.offset,
                Screen::Main => 0,
            }
        } else {
            0
        }
    }

    /// Handles a key: in the day editor, see [`App::handle_edit_key`];
    /// otherwise on the screen on top: on the main screen, moves the
    /// selection, opens the warnings overlay or the day editor, or asks to
    /// quit, save or change week; on the warnings overlay, scrolls it or
    /// closes it.
    pub fn handle_key(&mut self, key: Key) -> (r: KeyOutcome)
        requires
            old(self).wf(),
        ensures
            final(self).wf(),
            old(self).day_pane is Edit ==> edit_key_effect(*old(self), *final(self), key, r),
            old(self).day_pane is View && old(self).screens().last() is Main ==> main_key_effect(
                *old(self),
                *final(self),
                key,
                r,
            ),
            old(self).day_pane is View ==> (old(self).screens().last() matches Screen::Warnings(s)
                ==> overlay_key_effect(*old(self), *final(self), s, key, r)),
    {
        if self.is_editing() {
            return self.handle_edit_key(key);
        }
        let n = self.screen_stack.len();
        match self.screen_stack[n - 1] {
            Screen::Main => self.handle_main_key(key),
            Screen::Warnings(s) => {
                self.handle_warnings_key(key, s);
                KeyOutcome::Continue
            },
        }
    }

    fn handle_main_key(&mut self, key: Key) -> (r: KeyOutcome)
        requires
            old(self).wf(),
            old(self).day_pane is View,
            old(self).screens().last() is Main,
        ensures
            final(self).wf(),
            main_key_effect(*old(self), *final(self), key, r),
    {
        match key {
            Key::Char { c, mods } => {
                if c == 'q' {
                    KeyOutcome::Quit
                } else if c == 's' && mods == Modifiers::Plain {
                    let ghost days0 = self.week@.days;
                    proof {
                        lemma_computed_times_keep_totals(days0);
                        lemma_computed_days_sorted(days0);
                    }
                    let _ = apply_computed_times(&mut self.week);
                    KeyOutcome::Save
                } else if c == 'w' && mods == Modifiers::Plain {
                    self.screen_stack.push(
                        Screen::Warnings(ScrollState { offset: 0, page_size: 5 }),
                    );
                    KeyOutcome::Continue
                } else if c == 'e' && mods == Modifiers::Plain {
                    self.enter_day_edit_mode();
                    KeyOutcome::Continue
                } else {
                    KeyOutcome::Continue
                }
            },
            Key::Esc => KeyOutcome::Quit,
            Key::Left { .. } => {
                if self.selected_day == 0 {
                    KeyOutcome::ShiftWeek(-1)
                } else {
                    self.selected_day = self.selected_day - 1;
                    KeyOutcome::Continue
                }
            },
            Key::Right { .. } => {
                if self.selected_day == 6 {
                    KeyOutcome::ShiftWeek(1)
                } else {
                    self.selected_day = if self.selected_day < 6 {
                        self.selected_day + 1
                    } else {
                        6
                    };
                    KeyOutcome::Continue
                }
            },
            Key::Up => {
                self.selected_task = if self.selected_task > 0 {
                    self.selected_task - 1
                } else {
                    0
                };
                KeyOutcome::Continue
            },
            Key::Down => {
                if self.tasks.len() > 0 {
                    self.selected_task = if self.selected_task < self.tasks.len() - 1 {
                        self.selected_task + 1
                    } else {
                        self.tasks.len() - 1
                    };
                }
                KeyOutcome::Continue
            },
            _ => KeyOutcome::Continue,
        }
    }

    fn handle_warnings_key(&mut self, key: Key, s: ScrollState)
        requires
            old(self).wf(),
            old(self).screens().last() == Screen::Warnings(s),
        ensures
            final(self).wf(),
            overlay_key_effect(*old(self), *final(self), s, key, KeyOutcome::Continue),
    {
        let line_count = self.warnings_line_count();
        let n = self.screen_stack.len();
        let close = match key {
            Key::Char { c, mods } => (c == 'w' && mods == Modifiers::Plain) || c == 'q',
            Key::Esc => true,
            _ => false,
        };
        if close {
            if n > 1 {
                self.screen_stack.pop();
                assert(self.screen_stack@ =~= old(self).screens().drop_last());
            }
            return;
        }
        let mut st = s;
        match key {
            Key::Up => st.scroll_by(-1, line_count),
            Key::Down => st.scroll_by(1, line_count),
            Key::PageUp => {
                st.page_up(line_count);
            },
            Key::PageDown => {
                st.page_down(line_count);
            },
            Key::Home => {
                st.home();
            },
            Key::End => {
                st.end(line_count);
            },
            _ => {},
        }
        self.screen_stack.set(n - 1, Screen::Warnings(st));
        assert(self.screen_stack@ =~= old(self).screens().drop_last().push(
            Screen::Warnings(overlay_scrolled(s, key, line_count)),
        ));
    }

    /// Where a week shift in `direction` (-1 or 1) goes: the week before or
    /// after the one shown, its file in the ledger directory, and whether it
    /// is shown even without a file (when it is the week of `current_week_start`).
    pub fn plan_week_shift(&self, direction: i64, current_week_start: Date) -> (r: WeekShift)
        requires
            direction == -1 || direction == 1,
            valid_day(self.week@.week_start + 7 * direction),
        ensures
            r.week_start@ == self.week@.week_start + 7 * direction,
            r.file_path@ == join_path(self.ledger_dir@, week_file_text(r.week_start@)),
            r.load_even_if_missing == (r.week_start@ == current_week_start@),
    {
        let candidate = self.week.week_start.add_days(7 * direction);
        let file_path = week_file_path(self.ledger_dir.as_str(), candidate);
        WeekShift {
            week_start: candidate,
            file_path,
            load_even_if_missing: candidate.same(current_week_start),
        }
    }

    /// Shows another week, reached in `direction`: its first day is selected
    /// when moving forward, its last when moving back; the rest of the
    /// overview is refreshed for the new week and the day pane stays.
    pub fn show_week(&mut self, week: WeekData, file_path: String, direction: i64)
        requires
            totals_fit(week@.days),
            valid_day(week@.week_start + 6),
            week.wf(),
            old(self).wf(),
        ensures
            final(self).wf(),
            final(self).in_step(),
            final(self).week@ == week@,
            final(self).file_path@ == file_path@,
            final(self).selected_day == if direction < 0 {
                6usize
            } else {
                0usize
            },
            final(self).status@ == warnings_status(week@.warnings.len()),
            final(self).day_pane == old(self).day_pane,
            overview_refreshed(
                (App { week: week, file_path: file_path, selected_day: final(self).selected_day, ..*old(self) }),
                *final(self),
            ),
    {
        self.week = week;
        self.file_path = file_path;
        self.refresh();
        self.selected_day = if direction < 0 {
            6
        } else {
            0
        };
    }

    /// After a save: totals recomputed, the selection and the overlay kept in
    /// range, and the status `Saved`.
    pub fn after_save(&mut self)
        requires
            totals_fit(old(self).week@.days),
            old(self).wf(),
        ensures
            final(self).wf(),
            final(self).in_step(),
            final(self).week@ == old(self).week@,
            final(self).status@ == saved_status(),
            overview_refreshed(*old(self), *final(self)),
            final(self).day_pane == old(self).day_pane,
    {
        self.refresh();
        let mut s = String::new();
        push_str(&mut s, "Saved");
        proof {
            reveal_strlit("Saved");
        }
        assert(s@ =~= saved_status());
        self.status = s;
    }
}

} // verus!
