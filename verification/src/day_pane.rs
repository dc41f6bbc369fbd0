//! The day pane: the selected day shown as ledger lines, or edited in place
//! with its diagnostics listed below the text.
use vstd::prelude::*;

use edit_core::{Action, Buffer, Editor, Viewport};

use crate::app_state::{
    overlay_scrolled, overview_refreshed, same_overview, same_view_state, warnings_lines,
    warnings_status, App, Key, KeyOutcome, Modifiers,
};
use crate::ledger::day_text::{
    day_diagnostics, day_fits, mismatch_diagnostics,
    parse_and_diagnostics, parse_day_spec, render_day, render_day_text,
};
use crate::ledger::model::{
    computed_days, day_pos, days_sorted, lemma_computed_days_sorted, lemma_day_pos_finds,
    lemma_put_day_sorted, put_day, DayView, WeekView,
};
use crate::ledger::reread::{lemma_day_text_roundtrip, plain_day};
use crate::ledger::totals::{lemma_computed_times_keep_totals, totals_fit, totals_fit_check};
use crate::scroll_state::{sat_sub, ScrollState};
use crate::text::{newline_split, push_str};

verus! {

#[verifier::external_type_specification]
#[verifier::external_body]
pub struct ExEditor(Editor);

#[verifier::external_type_specification]
#[verifier::external_body]
pub struct ExViewport(Viewport);

/// The text an editor holds: the lines of its buffer joined by line breaks.
pub uninterp spec fn editor_text(e: Editor) -> Seq<char>;

/// The height and width of the editor's viewport: the rows and columns of
/// text it shows.
pub uninterp spec fn editor_view_size(e: Editor) -> (int, int);

/// The height and width of a viewport: the rows and columns of text it shows.
pub uninterp spec fn viewport_size(v: Viewport) -> (int, int);

/// The row and column of the editor's cursor.
pub uninterp spec fn editor_cursor(e: Editor) -> (int, int);

/// The first row and first column of text the editor's viewport shows.
pub uninterp spec fn editor_offsets(e: Editor) -> (int, int);

/// The index in the joined text of the place `(row, col)`, first brought
/// into the lines: the last row at most, and the end of its row at most.
pub open spec fn place_index(lines: Seq<Seq<char>>, row: int, col: int) -> int {
    let (r, c) = clamped_place(lines, row, col);
    rows_length(lines, r) + c
}

/// The place `(row, col)` brought into the lines: the last row at most, and
/// the end of its row at most.
pub open spec fn clamped_place(lines: Seq<Seq<char>>, row: int, col: int) -> (int, int) {
    let r = if row < lines.len() {
        row
    } else {
        lines.len() - 1
    };
    let c = if col < lines[r].len() {
        col
    } else {
        lines[r].len() as int
    };
    (r, c)
}

/// A cursor that stands in the lines: on one of them, at most at its end.
pub open spec fn place_in(lines: Seq<Seq<char>>, place: (int, int)) -> bool {
    0 <= place.0 < lines.len() && 0 <= place.1 <= lines[place.0].len()
}

/// A viewport offset scrolled just enough to show `pos` in `size` rows (or
/// columns); with no room at all it moves to `pos`.
pub open spec fn scrolled_to(offset: int, pos: int, size: int) -> int {
    if size == 0 || pos < offset {
        pos
    } else if pos >= offset + size {
        pos + 1 - size
    } else {
        offset
    }
}

/// Where an editing step leaves the cursor, as an index in the new text,
/// from the clamped place `(r, c)` at index `p` in the lines `lines` of the
/// text `t`: a step left (or Backspace) goes one back and a step right one
/// on, through line breaks and not past either end; an insertion goes past
/// what it inserted; Delete stays; up and down go to the same column of the
/// row above or below, at most to its end, and stay on the first or last
/// row. Word moves are left open here.
pub open spec fn moved_cursor(
    lines: Seq<Seq<char>>,
    t: Seq<char>,
    r: int,
    c: int,
    p: int,
    a: EditAction,
    new_index: int,
) -> bool {
    match a {
        EditAction::MoveLeft | EditAction::DeleteBackward => new_index == if p > 0 {
            p - 1
        } else {
            p
        },
        EditAction::MoveRight => new_index == if p < t.len() {
            p + 1
        } else {
            p
        },
        EditAction::Insert(_) | EditAction::Newline => new_index == p + 1,
        EditAction::DeleteForward => new_index == p,
        EditAction::MoveUp => new_index == if r == 0 {
            p
        } else {
            place_index(lines, r - 1, c)
        },
        EditAction::MoveDown => new_index == if r + 1 >= lines.len() {
            p
        } else {
            place_index(lines, r + 1, c)
        },
        _ => true,
    }
}

/// One editing step from `e` to `e2`: the text is edited at the cursor, the
/// cursor ends in the text where [`moved_cursor`] says, the viewport keeps
/// its size and scrolls to the cursor.
pub open spec fn editor_stepped(e: Editor, e2: Editor, a: EditAction) -> bool {
    let lines = newline_split(editor_text(e));
    let lines2 = newline_split(editor_text(e2));
    let (r, c) = clamped_place(lines, editor_cursor(e).0, editor_cursor(e).1);
    let size = editor_view_size(e);
    &&& editor_text(e2) == edited_text(editor_text(e), cursor_index(e), a)
    &&& place_in(lines2, editor_cursor(e2))
    &&& moved_cursor(lines, editor_text(e), r, c, cursor_index(e), a, cursor_index(e2))
    &&& editor_view_size(e2) == size
    &&& editor_offsets(e2) == (
        scrolled_to(editor_offsets(e).0, editor_cursor(e2).0, size.0),
        scrolled_to(editor_offsets(e).1, editor_cursor(e2).1, size.1),
    )
}

/// The length of the first `r` rows, each with its line break.
pub open spec fn rows_length(lines: Seq<Seq<char>>, r: int) -> int
    decreases r,
{
    if r <= 0 {
        0
    } else {
        rows_length(lines, r - 1) + lines[r - 1].len() + 1
    }
}

/// The index in the editor's text of its cursor.
pub open spec fn cursor_index(e: Editor) -> int {
    place_index(newline_split(editor_text(e)), editor_cursor(e).0, editor_cursor(e).1)
}

/// The text after an editing step at index `p`: a character or a line break
/// is inserted there, Backspace removes the character before it, Delete the
/// one after it, and the moves leave the text as it is.
pub open spec fn edited_text(t: Seq<char>, p: int, a: EditAction) -> Seq<char> {
    match a {
        EditAction::Insert(c) => t.insert(p, c),
        EditAction::Newline => t.insert(p, '\n'),
        EditAction::DeleteBackward => if p > 0 {
            t.remove(p - 1)
        } else {
            t
        },
        EditAction::DeleteForward => if p < t.len() {
            t.remove(p)
        } else {
            t
        },
        _ => t,
    }
}

/// A row cut to the columns `[col, col + width)`.
pub open spec fn cut_row(l: Seq<char>, col: int, width: int) -> Seq<char> {
    let n = l.len() as int;
    let a = if col < n {
        col
    } else {
        n
    };
    let b = if col + width < n {
        col + width
    } else {
        n
    };
    if width <= 0 || a >= b {
        Seq::empty()
    } else {
        l.subrange(a, b)
    }
}

/// The part of the lines a viewport with offsets `offs` and size `size`
/// shows: at most `size.0` rows from row `offs.0`, each cut to `size.1`
/// columns from column `offs.1`.
pub open spec fn visible_rows(
    lines: Seq<Seq<char>>,
    offs: (int, int),
    size: (int, int),
) -> Seq<Seq<char>> {
    let start = offs.0;
    if size.0 <= 0 || start < 0 || start >= lines.len() {
        Seq::empty()
    } else {
        let end = if start + size.0 < lines.len() {
            start + size.0
        } else {
            lines.len() as int
        };
        Seq::new((end - start) as nat, |i: int| cut_row(lines[start + i], offs.1, size.1))
    }
}

/// `Editor::new(Buffer::from_text(text), viewport)`. `Buffer::from_text`
/// splits the text at every line break, which gives at least one line, and
/// `Buffer::as_text` joins the lines with line breaks again: the editor holds
/// `text`, with the cursor at row 0, column 0. It keeps the viewport's size
/// and scrolls it to the cursor, which puts both offsets at 0.
#[verifier::external_body]
fn editor_new(text: &str, viewport: Viewport) -> (r: Editor)
    ensures
        editor_text(r) == text@,
        editor_cursor(r) == (0int, 0int),
        editor_view_size(r) == viewport_size(viewport),
        editor_offsets(r) == (0int, 0int),
{
    Editor::new(Buffer::from_text(text), viewport)
}

/// `Viewport::new(height, width)`: a viewport of that size at the top left
/// corner.
#[verifier::external_body]
fn viewport_new(height: usize, width: usize) -> (r: Viewport)
    ensures
        viewport_size(r) == (height as int, width as int),
{
    Viewport::new(height, width)
}

/// `editor.buffer().as_text()`: the text the editor holds.
#[verifier::external_body]
fn editor_text_of(editor: &Editor) -> (r: String)
    ensures
        r@ == editor_text(*editor),
{
    editor.buffer().as_text()
}

/// `Editor::viewport`: the editor's viewport, of the editor's size, scrolled
/// as the cursor moved.
#[verifier::external_body]
fn editor_viewport(editor: &Editor) -> (r: Viewport)
    ensures
        viewport_size(r) == editor_view_size(*editor),
{
    editor.viewport()
}

/// `Editor::apply`. It first brings the cursor into the buffer, then: the
/// moves change only the cursor; `Insert` and `Newline` insert the
/// character or a line break at the cursor (a line break splits the line)
/// and put the cursor after it; `DeleteBackward` removes the character
/// before the cursor, or at the start of a row the line break that joins it
/// to the row above, and the cursor goes back one; `DeleteForward` removes
/// the character at the cursor, or at the end of a row the line break to
/// the row below, and the cursor stays; nothing at the start or end of the
/// text. `move_left` and `move_right` step one character, across a line
/// break at a row's start or end; `move_up` and `move_down` keep the
/// column, at most the new row's length. Last it brings the cursor into the
/// buffer again and scrolls the viewport to it (`ensure_cursor_visible`).
/// Where the word moves land (they scan for whitespace and identifier
/// characters) is not stated, only that the cursor stays in the text.
#[verifier::external_body]
fn editor_apply(editor: &mut Editor, action: EditAction)
    ensures
        editor_stepped(*old(editor), *final(editor), action),
{
    editor.apply(
        match action {
            EditAction::MoveLeft => Action::MoveLeft,
            EditAction::MoveRight => Action::MoveRight,
            EditAction::MoveWordLeft => Action::MoveWordLeft,
            EditAction::MoveWordRight => Action::MoveWordRight,
            EditAction::MoveUp => Action::MoveUp,
            EditAction::MoveDown => Action::MoveDown,
            EditAction::Insert(c) => Action::Insert(c),
            EditAction::DeleteBackward => Action::DeleteBackward,
            EditAction::DeleteForward => Action::DeleteForward,
            EditAction::Newline => Action::Newline,
        },
    )
}

/// `Editor::set_viewport` with `Viewport::new(height, width)`, whose offsets
/// are zero: it stores the viewport, then only moves the viewport's offsets
/// to the cursor, so the editor shows that many rows and columns, and the
/// buffer and the cursor stay as they are.
#[verifier::external_body]
fn editor_set_viewport(editor: &mut Editor, height: usize, width: usize)
    ensures
        editor_text(*final(editor)) == editor_text(*old(editor)),
        editor_cursor(*final(editor)) == editor_cursor(*old(editor)),
        editor_view_size(*final(editor)) == (height as int, width as int),
        editor_offsets(*final(editor)) == (
            scrolled_to(0, editor_cursor(*old(editor)).0, height as int),
            scrolled_to(0, editor_cursor(*old(editor)).1, width as int),
        ),
{
    editor.set_viewport(Viewport::new(height, width))
}

/// `Editor::visible_lines`: the buffer's rows from the viewport's first row,
/// at most its height of them, each cut from its first column to at most its
/// width of characters. Every change of the editor scrolls the viewport to
/// the cursor, which stays in the buffer, so a viewport of at least one row
/// shows at least one.
#[verifier::external_body]
fn editor_visible_lines_of(editor: &Editor) -> (r: Vec<String>)
    ensures
        r@.map_values(|l: String| l@) == visible_rows(
            newline_split(editor_text(*editor)),
            editor_offsets(*editor),
            editor_view_size(*editor),
        ),
        editor_view_size(*editor).0 >= 1 ==> r.len() >= 1,
{
    editor.visible_lines()
}

/// `Editor::cursor_screen_pos`: the cursor's row and column less the
/// viewport's offsets (saturating). Every change of the editor scrolls the
/// viewport to the cursor, so the place lies inside a viewport of at least
/// one row or column.
#[verifier::external_body]
fn editor_cursor_pos(editor: &Editor) -> (r: (usize, usize))
    ensures
        r.0 as int == sat_sub(editor_cursor(*editor).0, editor_offsets(*editor).0),
        r.1 as int == sat_sub(editor_cursor(*editor).1, editor_offsets(*editor).1),
        editor_view_size(*editor).0 >= 1 ==> (r.0 as int) < editor_view_size(*editor).0,
        editor_view_size(*editor).1 >= 1 ==> (r.1 as int) < editor_view_size(*editor).1,
{
    editor.cursor_screen_pos()
}

/// An editing step of the day editor.
#[derive(Clone, Copy, Debug, PartialEq, Eq, Structural)]
pub enum EditAction {
    MoveLeft,
    MoveRight,
    MoveWordLeft,
    MoveWordRight,
    MoveUp,
    MoveDown,
    Insert(char),
    DeleteBackward,
    DeleteForward,
    Newline,
}

/// The editor of a day, with the diagnostics of its text.
pub struct DayEditState {
    pub editor: Editor,
    pub diagnostics: Vec<String>,
    pub diagnostics_scroll: ScrollState,
}

/// The day pane: showing the selected day, or editing it.
pub enum DayPane {
    View,
    Edit(DayEditState),
}

/// Which of the two the day pane is.
#[derive(Clone, Copy, Debug, PartialEq, Eq, Structural)]
pub enum DayPaneKind {
    View,
    Edit,
}

// ---------------------------------------------------------------------------
// Specifications
// ---------------------------------------------------------------------------

pub open spec fn diag_view(v: Seq<String>) -> Seq<Seq<char>> {
    v.map_values(|w: String| w@)
}

/// Whether the editor can take the text: every entry's sub-item sum fits in
/// an `i64`.
pub open spec fn day_text_ok(t: Seq<char>) -> bool {
    day_fits(parse_day_spec(t).day)
}

/// The day a text gives for saving: none when a line has a diagnostic.
pub open spec fn edit_day_of(t: Seq<char>) -> Option<DayView> {
    if parse_day_spec(t).diagnostics.len() > 0 {
        None
    } else {
        Some(parse_day_spec(t).day)
    }
}

/// The diagnostics of a day's text: those of its lines, or when there are
/// none, one when its sub-item times do not add up within `i64`, or else one
/// per entry whose time differs from the sum of its sub-items.
pub open spec fn edit_diagnostics_of(t: Seq<char>) -> Seq<Seq<char>> {
    day_diagnostics(t)
}

/// The text of the day of `d` in `days`, empty when it has none.
pub open spec fn day_text_at(days: Seq<(int, DayView)>, d: int) -> Seq<char> {
    let p = day_pos(days, d) as int;
    if p < days.len() && days[p].0 == d {
        render_day_text(days[p].1)
    } else {
        Seq::empty()
    }
}

/// The text the editor opens with: the day's text written anew when it reads
/// without a diagnostic, else as it is.
pub open spec fn canonical_text(t: Seq<char>) -> Seq<char> {
    if day_text_ok(t) && edit_day_of(t) is Some {
        render_day_text(edit_day_of(t)->0)
    } else {
        t
    }
}

/// The diagnostics the editor opens with.
pub open spec fn opening_diagnostics(t: Seq<char>) -> Seq<Seq<char>> {
    edit_diagnostics_of(t)
}

/// The number of lines of the diagnostics panel: one per diagnostic, or one
/// saying there is none.
pub open spec fn diag_line_count(n: nat) -> usize {
    warnings_lines(n)
}

/// The editing step a key stands for: arrows move (by a word with the
/// word-jump modifier), Backspace and Delete delete, Enter breaks the line,
/// Tab and characters typed alone or with Shift are inserted.
pub open spec fn edit_action_of(key: Key) -> Option<EditAction> {
    match key {
        Key::Left { word } => Some(
            if word {
                EditAction::MoveWordLeft
            } else {
                EditAction::MoveLeft
            },
        ),
        Key::Right { word } => Some(
            if word {
                EditAction::MoveWordRight
            } else {
                EditAction::MoveRight
            },
        ),
        Key::Up => Some(EditAction::MoveUp),
        Key::Down => Some(EditAction::MoveDown),
        Key::Backspace => Some(EditAction::DeleteBackward),
        Key::Delete => Some(EditAction::DeleteForward),
        Key::Enter => Some(EditAction::Newline),
        Key::Tab => Some(EditAction::Insert('\t')),
        Key::Char { c, mods } => if mods == Modifiers::Plain || mods == Modifiers::Shift {
            Some(EditAction::Insert(c))
        } else {
            None
        },
        _ => None,
    }
}

/// Whether the key scrolls the diagnostics panel.
pub open spec fn is_diagnostics_key(key: Key) -> bool {
    key is PageUp || key is PageDown || key is Home || key is End
}

/// Whether the key is Control and `s`.
pub open spec fn is_save_key(key: Key) -> bool {
    key matches Key::Char { c, mods } && c == 's' && mods == Modifiers::Control
}

pub open spec fn edit_mode_status() -> Seq<char> {
    seq!['E', 'd', 'i', 't', ' ', 'm', 'o', 'd', 'e']
}

pub open spec fn fix_status() -> Seq<char> {
    seq![
        'F', 'i', 'x', ' ', 'd', 'i', 'a', 'g', 'n', 'o', 's', 't', 'i', 'c', 's', ' ', 'b', 'e',
        'f', 'o', 'r', 'e', ' ', 's', 'a', 'v', 'i', 'n', 'g',
    ]
}

/// `Totals too large to save`.
pub open spec fn totals_too_large_status() -> Seq<char> {
    seq![
        'T', 'o', 't', 'a', 'l', 's', ' ', 't', 'o', 'o', ' ', 'l', 'a', 'r', 'g', 'e', ' ', 't',
        'o', ' ', 's', 'a', 'v', 'e',
    ]
}

pub open spec fn save_failed_status() -> Seq<char> {
    seq!['S', 'a', 'v', 'e', ' ', 'f', 'a', 'i', 'l', 'e', 'd']
}

/// `Save failed: message`.
pub open spec fn save_failed_text(message: Seq<char>) -> Seq<char> {
    seq!['S', 'a', 'v', 'e', ' ', 'f', 'a', 'i', 'l', 'e', 'd', ':', ' '] + message
}

/// `b` is `a` with the day editor opened on the selected day, the cursor at
/// its start, in a viewport of one row and one column until the caller sizes
/// it.
pub open spec fn edit_entered(a: App, b: App) -> bool {
    let t = day_text_at(a.week@.days, a.selected_day_of());
    &&& b.status@ == edit_mode_status()
    &&& b.day_pane matches DayPane::Edit(e)
    &&& editor_text(e.editor) == canonical_text(t)
    &&& editor_cursor(e.editor) == (0int, 0int)
    &&& editor_view_size(e.editor) == (1int, 1int)
    &&& editor_offsets(e.editor) == (0int, 0int)
    &&& diag_view(e.diagnostics@) == opening_diagnostics(t)
    &&& e.diagnostics_scroll == (ScrollState { offset: 0, page_size: 5 }).clamped(
        diag_line_count(e.diagnostics.len() as nat),
    )
}

/// Nothing changed.
pub open spec fn unchanged(a: App, b: App) -> bool {
    same_overview(a, b) && b.status@ == a.status@ && b.day_pane == a.day_pane
}

/// The editor state after an editing step: the editor took the step, and
/// the diagnostics follow the new text when it can be read.
pub open spec fn edited_state(s: DayEditState, s2: DayEditState, a: EditAction) -> bool {
    &&& editor_stepped(s.editor, s2.editor, a)
    &&& edited_diagnostics(s, s2)
}

/// The diagnostics after an editing step follow the new text.
pub open spec fn edited_diagnostics(s: DayEditState, s2: DayEditState) -> bool {
    let t2 = editor_text(s2.editor);
    &&& diag_view(s2.diagnostics@) == edit_diagnostics_of(t2)
    &&& s2.diagnostics_scroll == s.diagnostics_scroll.clamped(
        diag_line_count(s2.diagnostics.len() as nat),
    )
}

/// What Control+`s` does in the editor, whose state is `s`: a text with any
/// diagnostic (a line that does not read, sub-item times that do not add up,
/// or a parent whose time differs from its sub-items') is refused until it
/// is fixed; a day that would take the week's totals beyond `i64` is refused
/// with a status saying so; otherwise the day replaces the selected day, the
/// week's computed times are filled in, and the caller is asked to write it.
pub open spec fn save_effect(a: App, b: App, s: DayEditState, r: KeyOutcome) -> bool {
    let t = editor_text(s.editor);
    if edit_diagnostics_of(t).len() > 0 {
        &&& r == KeyOutcome::Continue
        &&& same_overview(a, b)
        &&& b.status@ == fix_status()
        &&& b.day_pane matches DayPane::Edit(s2)
        &&& s2.editor == s.editor
        &&& diag_view(s2.diagnostics@) == edit_diagnostics_of(t)
        &&& s2.diagnostics_scroll == s.diagnostics_scroll.clamped(
            diag_line_count(s2.diagnostics.len() as nat),
        )
    } else {
        let days1 = put_day(a.week@.days, a.selected_day_of(), edit_day_of(t)->0);
        if !totals_fit(days1) {
            &&& r == KeyOutcome::Continue
            &&& same_overview(a, b)
            &&& b.status@ == totals_too_large_status()
            &&& b.day_pane == a.day_pane
        } else {
            &&& r == KeyOutcome::SaveDay
            &&& same_view_state(a, b)
            &&& b.week@ == (WeekView { days: computed_days(days1), ..a.week@ })
            &&& b.status@ == a.status@
            &&& b.day_pane matches DayPane::Edit(s2)
            &&& s2.editor == s.editor
            &&& diag_view(s2.diagnostics@) == edit_diagnostics_of(t)
            &&& s2.diagnostics_scroll == s.diagnostics_scroll
        }
    }
}

/// What a key does in the day editor: Esc closes it, Control+`s` saves (see
/// [`save_effect`]), the page keys scroll the diagnostics, and the keys of an
/// editing step edit the text and check it again.
pub open spec fn edit_key_effect(a: App, b: App, key: Key, r: KeyOutcome) -> bool {
    match a.day_pane {
        DayPane::Edit(s) => if key is Esc {
            &&& r == KeyOutcome::Continue
            &&& same_overview(a, b)
            &&& b.day_pane is View
            &&& b.status@ == warnings_status(a.week@.warnings.len())
        } else if is_save_key(key) {
            save_effect(a, b, s, r)
        } else if is_diagnostics_key(key) {
            &&& r == KeyOutcome::Continue
            &&& same_overview(a, b)
            &&& b.status@ == a.status@
            &&& b.day_pane matches DayPane::Edit(s2)
            &&& s2.editor == s.editor
            &&& s2.diagnostics@ == s.diagnostics@
            &&& s2.diagnostics_scroll == overlay_scrolled(
                s.diagnostics_scroll,
                key,
                diag_line_count(s.diagnostics.len() as nat),
            )
        } else if edit_action_of(key) is Some {
            &&& r == KeyOutcome::Continue
            &&& same_overview(a, b)
            &&& b.status@ == a.status@
            &&& b.day_pane matches DayPane::Edit(s2)
            &&& edited_state(s, s2, edit_action_of(key)->0)
        } else {
            r == KeyOutcome::Continue && unchanged(a, b)
        },
        DayPane::View => true,
    }
}

/// Opening the editor on a day of the week shows the day's own text, and
/// saving that text as it is puts back the same day: the week's days are as
/// they were. This holds when the day's names are plain and its sums fit.
pub proof fn lemma_edit_then_save_keeps_day(days: Seq<(int, DayView)>, d: int)
    requires
        days_sorted(days),
        day_pos(days, d) < days.len(),
        days[day_pos(days, d) as int].0 == d,
        plain_day(days[day_pos(days, d) as int].1),
        day_fits(days[day_pos(days, d) as int].1),
    ensures
        ({
            let day = days[day_pos(days, d) as int].1;
            let t = day_text_at(days, d);
            &&& t == render_day_text(day)
            &&& day_text_ok(t)
            &&& canonical_text(t) == t
            &&& edit_day_of(t) == Some(day)
            &&& opening_diagnostics(t) == mismatch_diagnostics(day)
            &&& put_day(days, d, day) == days
        }),
{
    let p = day_pos(days, d) as int;
    let day = days[p].1;
    lemma_day_text_roundtrip(day);
    assert(days.update(p, (d, day)) =~= days);
}

// ---------------------------------------------------------------------------
// Keys
// ---------------------------------------------------------------------------

/// The editing step a key stands for, if any.
pub fn key_to_editor_action(key: Key) -> (r: Option<EditAction>)
    ensures
        r == edit_action_of(key),
{
    match key {
        Key::Left { word } => Some(
            if word {
                EditAction::MoveWordLeft
            } else {
                EditAction::MoveLeft
            },
        ),
        Key::Right { word } => Some(
            if word {
                EditAction::MoveWordRight
            } else {
                EditAction::MoveRight
            },
        ),
        Key::Up => Some(EditAction::MoveUp),
        Key::Down => Some(EditAction::MoveDown),
        Key::Backspace => Some(EditAction::DeleteBackward),
        Key::Delete => Some(EditAction::DeleteForward),
        Key::Enter => Some(EditAction::Newline),
        Key::Tab => Some(EditAction::Insert('\t')),
        Key::Char { c, mods } => {
            if mods == Modifiers::Plain || mods == Modifiers::Shift {
                Some(EditAction::Insert(c))
            } else {
                None
            }
        },
        _ => None,
    }
}

fn status_text(s: &str) -> (r: String)
    ensures
        r@ == s@,
{
    let mut t = String::new();
    push_str(&mut t, s);
    t
}

// ---------------------------------------------------------------------------
// The editor on the overview
// ---------------------------------------------------------------------------

impl App {
    /// Whether the day editor is open.
    pub fn is_editing(&self) -> (r: bool)
        ensures
            r == (self.day_pane is Edit),
    {
        match &self.day_pane {
            DayPane::Edit(_) => true,
            DayPane::View => false,
        }
    }

    /// Which of the two the day pane is.
    pub fn day_pane_kind(&self) -> (r: DayPaneKind)
        ensures
            (r == DayPaneKind::Edit) == (self.day_pane is Edit),
    {
        match &self.day_pane {
            DayPane::Edit(_) => DayPaneKind::Edit,
            DayPane::View => DayPaneKind::View,
        }
    }

    /// The text of the selected day, empty when the week has no such day.
    pub fn selected_day_text(&self) -> (r: String)
        requires
            self.wf(),
        ensures
            r@ == day_text_at(self.week@.days, self.selected_day_of()),
    {
        let date = self.selected_date();
        match self.week.find_day(date) {
            Some(i) => {
                proof {
                    lemma_day_pos_finds(self.week@.days, date@, i as int);
                }
                render_day(&self.week.days[i].1)
            },
            None => String::new(),
        }
    }

    /// Opens the day editor on the selected day, unless it is open: the
    /// editor holds the day's text, written anew when it reads without a
    /// diagnostic, and lists the text's diagnostics.
    pub fn enter_day_edit_mode(&mut self)
        requires
            old(self).wf(),
        ensures
            final(self).wf(),
            old(self).day_pane is View ==> edit_entered(*old(self), *final(self)) && same_overview(
                *old(self),
                *final(self),
            ),
            old(self).day_pane is Edit ==> unchanged(*old(self), *final(self)),
    {
        if self.is_editing() {
            return;
        }
        let text = self.selected_day_text();
        let ghost t = text@;
        let (parsed, diagnostics) = parse_and_diagnostics(text.as_str());
        let canonical = match parsed {
            Some(day) => render_day(&day),
            None => text,
        };
        assert(canonical@ == canonical_text(t));
        assert(diag_view(diagnostics@) == opening_diagnostics(t));
        let lines = if diagnostics.len() == 0 {
            1
        } else {
            diagnostics.len()
        };
        let mut scroll = ScrollState { offset: 0, page_size: 5 };
        scroll.clamp(lines);
        let editor = editor_new(canonical.as_str(), viewport_new(1, 1));
        self.day_pane = DayPane::Edit(DayEditState { editor, diagnostics, diagnostics_scroll: scroll });
        self.status = status_text("Edit mode");
        proof {
            reveal_strlit("Edit mode");
        }
        assert(self.status@ =~= edit_mode_status());
    }

    /// Closes the day editor, and shows the warning count again.
    pub fn exit_day_edit_mode(&mut self)
        requires
            old(self).wf(),
        ensures
            final(self).wf(),
            same_overview(*old(self), *final(self)),
            old(self).day_pane is Edit ==> final(self).day_pane is View && final(self).status@
                == warnings_status(old(self).week@.warnings.len()),
            old(self).day_pane is View ==> unchanged(*old(self), *final(self)),
    {
        if self.is_editing() {
            self.day_pane = DayPane::View;
            self.status = crate::app_state::warnings_status_text(self.week.warnings.len());
        }
    }

    /// Handles a key in the day editor: see [`edit_key_effect`].
    pub fn handle_edit_key(&mut self, key: Key) -> (r: KeyOutcome)
        requires
            old(self).wf(),
            old(self).day_pane is Edit,
        ensures
            final(self).wf(),
            edit_key_effect(*old(self), *final(self), key, r),
    {
        match key {
            Key::Esc => {
                self.exit_day_edit_mode();
                KeyOutcome::Continue
            },
            Key::PageUp | Key::PageDown | Key::Home | Key::End => {
                self.scroll_diagnostics(key);
                KeyOutcome::Continue
            },
            _ => {
                if is_control_s(key) {
                    self.save_current_edit()
                } else {
                    match key_to_editor_action(key) {
                        Some(action) => {
                            self.apply_editor_action(action);
                            KeyOutcome::Continue
                        },
                        None => KeyOutcome::Continue,
                    }
                }
            },
        }
    }

    fn scroll_diagnostics(&mut self, key: Key)
        requires
            old(self).wf(),
            old(self).day_pane is Edit,
            is_diagnostics_key(key),
        ensures
            final(self).wf(),
            edit_key_effect(*old(self), *final(self), key, KeyOutcome::Continue),
    {
        let mut pane = DayPane::View;
        std::mem::swap(&mut pane, &mut self.day_pane);
        match pane {
            DayPane::Edit(mut st) => {
                let lines = if st.diagnostics.len() == 0 {
                    1
                } else {
                    st.diagnostics.len()
                };
                match key {
                    Key::PageUp => st.diagnostics_scroll.page_up(lines),
                    Key::PageDown => st.diagnostics_scroll.page_down(lines),
                    Key::Home => st.diagnostics_scroll.home(),
                    _ => st.diagnostics_scroll.end(lines),
                }
                self.day_pane = DayPane::Edit(st);
            },
            DayPane::View => {
                self.day_pane = DayPane::View;
            },
        }
    }

    fn apply_editor_action(&mut self, action: EditAction)
        requires
            old(self).wf(),
            old(self).day_pane is Edit,
        ensures
            final(self).wf(),
            same_overview(*old(self), *final(self)),
            final(self).status@ == old(self).status@,
            old(self).day_pane matches DayPane::Edit(s) ==> (final(self).day_pane matches DayPane::Edit(
                s2,
            ) && edited_state(s, s2, action)),
    {
        let mut pane = DayPane::View;
        std::mem::swap(&mut pane, &mut self.day_pane);
        match pane {
            DayPane::Edit(mut st) => {
                let ghost s0 = st;
                editor_apply(&mut st.editor, action);
                let content = editor_text_of(&st.editor);
                let (_parsed, diagnostics) = parse_and_diagnostics(content.as_str());
                st.diagnostics = diagnostics;
                let lines = if st.diagnostics.len() == 0 {
                    1
                } else {
                    st.diagnostics.len()
                };
                st.diagnostics_scroll.clamp(lines);
                self.day_pane = DayPane::Edit(st);
            },
            DayPane::View => {
                self.day_pane = DayPane::View;
            },
        }
    }

    fn save_current_edit(&mut self) -> (r: KeyOutcome)
        requires
            old(self).wf(),
            old(self).day_pane is Edit,
        ensures
            final(self).wf(),
            old(self).day_pane matches DayPane::Edit(s) ==> save_effect(
                *old(self),
                *final(self),
                s,
                r,
            ),
    {
        let mut pane = DayPane::View;
        std::mem::swap(&mut pane, &mut self.day_pane);
        let mut st = match pane {
            DayPane::Edit(st) => st,
            DayPane::View => {
                self.day_pane = DayPane::View;
                return KeyOutcome::Continue;
            },
        };
        let text = editor_text_of(&st.editor);
        let (parsed, diagnostics) = parse_and_diagnostics(text.as_str());
        if diagnostics.len() > 0 {
            st.diagnostics = diagnostics;
            let lines = st.diagnostics.len();
            st.diagnostics_scroll.clamp(lines);
            self.day_pane = DayPane::Edit(st);
            self.status = status_text("Fix diagnostics before saving");
            proof {
                reveal_strlit("Fix diagnostics before saving");
            }
            assert(self.status@ =~= fix_status());
            return KeyOutcome::Continue;
        }
        let day = match parsed {
            Some(day) => day,
            None => {
                self.day_pane = DayPane::Edit(st);
                return KeyOutcome::Continue;
            },
        };
        let date = self.selected_date();
        let ghost days0 = self.week@.days;
        proof {
            lemma_put_day_sorted(days0, date@, day@);
        }
        let prev = self.week.put_day(date, day);
        let ghost put = self.week@.days;
        let ghost had: Option<DayView> = match &prev {
            Some(x) => Some(x@),
            None => None,
        };
        if !totals_fit_check(&self.week) {
            self.week.restore_day(date, prev);
            proof {
                crate::ledger::model::lemma_day_pos_sorted(days0, date@);
                let p = day_pos(days0, date@) as int;
                assert(day_pos(put, date@) == p);
                match had {
                    Some(x) => {
                        assert(put =~= days0.update(p, (date@, day@)));
                        assert(self.week@.days =~= days0);
                    },
                    None => {
                        assert(put =~= days0.insert(p, (date@, day@)));
                        assert(self.week@.days =~= days0);
                    },
                }
            }
            self.day_pane = DayPane::Edit(st);
            self.status = status_text("Totals too large to save");
            proof {
                reveal_strlit("Totals too large to save");
            }
            assert(self.status@ =~= totals_too_large_status());
            return KeyOutcome::Continue;
        }
        let ghost days1 = self.week@.days;
        proof {
            lemma_computed_times_keep_totals(days1);
            lemma_computed_days_sorted(days1);
        }
        let _ = crate::ledger::model::apply_computed_times(&mut self.week);
        st.diagnostics = diagnostics;
        self.day_pane = DayPane::Edit(st);
        KeyOutcome::SaveDay
    }

    /// After the caller wrote the week for [`KeyOutcome::SaveDay`]: when
    /// writing failed with `error`, the diagnostics end with
    /// `Save failed: error` and the status says so; otherwise the totals are
    /// recomputed, the status is `Saved`, and the editor holds the saved
    /// day's text written anew, with its diagnostics.
    pub fn finish_day_save(&mut self, error: Option<String>)
        requires
            old(self).wf(),
            old(self).day_pane is Edit,
        ensures
            final(self).wf(),
            old(self).day_pane matches DayPane::Edit(s) ==> match error {
                Some(m) => {
                    &&& same_overview(*old(self), *final(self))
                    &&& final(self).status@ == save_failed_status()
                    &&& final(self).day_pane matches DayPane::Edit(s2)
                    &&& s2.editor == s.editor
                    &&& diag_view(s2.diagnostics@) == diag_view(s.diagnostics@).push(
                        save_failed_text(m@),
                    )
                    &&& s2.diagnostics_scroll == s.diagnostics_scroll.clamped(
                        diag_line_count(s2.diagnostics.len() as nat),
                    )
                },
                None => {
                    let t = day_text_at(old(self).week@.days, old(self).selected_day_of());
                    &&& overview_refreshed(*old(self), *final(self))
                    &&& final(self).status@ == crate::app_state::saved_status()
                    &&& final(self).day_pane matches DayPane::Edit(s2)
                    &&& editor_text(s2.editor) == t
                    &&& editor_cursor(s2.editor) == (0int, 0int)
                    &&& editor_view_size(s2.editor) == editor_view_size(s.editor)
                    &&& editor_offsets(s2.editor) == (0int, 0int)
                    &&& diag_view(s2.diagnostics@) == edit_diagnostics_of(t)
                    &&& s2.diagnostics_scroll == s.diagnostics_scroll.clamped(
                        diag_line_count(s2.diagnostics.len() as nat),
                    )
                },
            },
    {
        let mut pane = DayPane::View;
        std::mem::swap(&mut pane, &mut self.day_pane);
        let mut st = match pane {
            DayPane::Edit(st) => st,
            DayPane::View => {
                self.day_pane = DayPane::View;
                return;
            },
        };
        match error {
            Some(m) => {
                let mut line = String::new();
                push_str(&mut line, "Save failed: ");
                push_str(&mut line, m.as_str());
                proof {
                    reveal_strlit("Save failed: ");
                }
                assert(line@ =~= save_failed_text(m@));
                let ghost before = st.diagnostics@;
                st.diagnostics.push(line);
                assert(diag_view(st.diagnostics@) =~= diag_view(before).push(
                    save_failed_text(m@),
                ));
                let lines = st.diagnostics.len();
                st.diagnostics_scroll.clamp(lines);
                self.day_pane = DayPane::Edit(st);
                self.status = status_text("Save failed");
                proof {
                    reveal_strlit("Save failed");
                }
                assert(self.status@ =~= save_failed_status());
            },
            None => {
                let viewport = editor_viewport(&st.editor);
                self.refresh();
                let canonical = self.selected_day_text();
                let (_day, diagnostics) = parse_and_diagnostics(canonical.as_str());
                st.diagnostics = diagnostics;
                st.editor = editor_new(canonical.as_str(), viewport);
                let lines = if st.diagnostics.len() == 0 {
                    1
                } else {
                    st.diagnostics.len()
                };
                st.diagnostics_scroll.clamp(lines);
                self.day_pane = DayPane::Edit(st);
                self.status = status_text("Saved");
                proof {
                    reveal_strlit("Saved");
                }
                assert(self.status@ =~= crate::app_state::saved_status());
            },
        }
    }

    /// The visible lines of the open editor.
    pub fn editor_visible_lines(&self) -> (r: Option<Vec<String>>)
        ensures
            match self.day_pane {
                DayPane::View => r is None,
                DayPane::Edit(s) => r matches Some(v) && v@.map_values(|l: String| l@)
                    == visible_rows(
                    newline_split(editor_text(s.editor)),
                    editor_offsets(s.editor),
                    editor_view_size(s.editor),
                ) && (editor_view_size(s.editor).0 >= 1 ==> v.len() >= 1),
            },
    {
        match &self.day_pane {
            DayPane::View => None,
            DayPane::Edit(state) => Some(editor_visible_lines_of(&state.editor)),
        }
    }

    /// The cursor's place inside the open editor's viewport.
    pub fn editor_cursor_screen_pos(&self) -> (r: Option<(usize, usize)>)
        ensures
            match self.day_pane {
                DayPane::View => r is None,
                DayPane::Edit(s) => r matches Some(p) && p.0 as int == sat_sub(
                    editor_cursor(s.editor).0,
                    editor_offsets(s.editor).0,
                ) && p.1 as int == sat_sub(editor_cursor(s.editor).1, editor_offsets(s.editor).1)
                    && (editor_view_size(s.editor).0 >= 1 ==> (p.0 as int) < editor_view_size(
                    s.editor,
                ).0) && (editor_view_size(s.editor).1 >= 1 ==> (p.1 as int) < editor_view_size(
                    s.editor,
                ).1),
            },
    {
        match &self.day_pane {
            DayPane::View => None,
            DayPane::Edit(state) => Some(editor_cursor_pos(&state.editor)),
        }
    }

    /// Gives the open editor a viewport of `height` rows and `width` columns,
    /// each at least one; the text and the cursor stay as they are, and the
    /// view scrolls from the top left corner to the cursor.
    pub fn set_editor_viewport(&mut self, height: usize, width: usize)
        requires
            old(self).wf(),
        ensures
            final(self).wf(),
            same_overview(*old(self), *final(self)),
            final(self).status@ == old(self).status@,
            old(self).day_pane is View ==> final(self).day_pane is View,
            old(self).day_pane matches DayPane::Edit(s) ==> (final(self).day_pane matches DayPane::Edit(
                s2,
            ) && editor_text(s2.editor) == editor_text(s.editor) && editor_view_size(s2.editor) == (
                if height >= 1 {
                    height as int
                } else {
                    1
                },
                if width >= 1 {
                    width as int
                } else {
                    1
                },
            ) && editor_cursor(s2.editor) == editor_cursor(s.editor) && editor_offsets(s2.editor)
                == (
                scrolled_to(0, editor_cursor(s.editor).0, editor_view_size(s2.editor).0),
                scrolled_to(0, editor_cursor(s.editor).1, editor_view_size(s2.editor).1),
            ) && s2.diagnostics@ == s.diagnostics@ && s2.diagnostics_scroll
                == s.diagnostics_scroll),
    {
        let mut pane = DayPane::View;
        std::mem::swap(&mut pane, &mut self.day_pane);
        match pane {
            DayPane::Edit(mut st) => {
                let h = if height >= 1 {
                    height
                } else {
                    1
                };
                let w = if width >= 1 {
                    width
                } else {
                    1
                };
                editor_set_viewport(&mut st.editor, h, w);
                self.day_pane = DayPane::Edit(st);
            },
            DayPane::View => {
                self.day_pane = DayPane::View;
            },
        }
    }

    /// The diagnostics of the open editor.
    pub fn day_diagnostics_lines(&self) -> (r: Option<&[String]>)
        ensures
            match self.day_pane {
                DayPane::View => r is None,
                DayPane::Edit(s) => r matches Some(v) && v@ == s.diagnostics@,
            },
    {
        match &self.day_pane {
            DayPane::View => None,
            DayPane::Edit(state) => Some(state.diagnostics.as_slice()),
        }
    }

    /// The first visible line of the diagnostics panel, if the editor is open.
    pub fn diagnostics_scroll(&self) -> (r: Option<usize>)
        ensures
            match self.day_pane {
                DayPane::View => r is None,
                DayPane::Edit(s) => r == Some(s.diagnostics_scroll.offset),
            },
    {
        match &self.day_pane {
            DayPane::View => None,
            DayPane::Edit(state) => Some(state.diagnostics_scroll.offset),
        }
    }

    /// The number of lines of the diagnostics panel; 0 when the editor is
    /// closed.
    pub fn diagnostics_line_count(&self) -> (r: usize)
        ensures
            match self.day_pane {
                DayPane::View => r == 0,
                DayPane::Edit(s) => r == diag_line_count(s.diagnostics.len() as nat),
            },
    {
        match &self.day_pane {
            DayPane::View => 0,
            DayPane::Edit(state) => if state.diagnostics.len() == 0 {
                1
            } else {
                state.diagnostics.len()
            },
        }
    }

    /// Sets the page size of the diagnostics panel (at least one line).
    pub fn set_diagnostics_page_size(&mut self, page_size: usize)
        requires
            old(self).wf(),
        ensures
            final(self).wf(),
            same_overview(*old(self), *final(self)),
            final(self).status@ == old(self).status@,
            old(self).day_pane is View ==> final(self).day_pane is View,
            old(self).day_pane matches DayPane::Edit(s) ==> (final(self).day_pane matches DayPane::Edit(
                s2,
            ) && s2.editor == s.editor && s2.diagnostics@ == s.diagnostics@
                && s2.diagnostics_scroll == s.diagnostics_scroll.with_page_size(
                page_size,
                diag_line_count(s.diagnostics.len() as nat),
            )),
    {
        let mut pane = DayPane::View;
        std::mem::swap(&mut pane, &mut self.day_pane);
        match pane {
            DayPane::Edit(mut st) => {
                let lines = if st.diagnostics.len() == 0 {
                    1
                } else {
                    st.diagnostics.len()
                };
                st.diagnostics_scroll.set_page_size(page_size, lines);
                self.day_pane = DayPane::Edit(st);
            },
            DayPane::View => {
                self.day_pane = DayPane::View;
            },
        }
    }
}

fn is_control_s(key: Key) -> (r: bool)
    ensures
        r == is_save_key(key),
{
    match key {
        Key::Char { c, mods } => c == 's' && mods == Modifiers::Control,
        _ => false,
    }
}

} // verus!
