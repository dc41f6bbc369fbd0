use edit_core::{Buffer, Editor, Viewport};
use time_ledger::app_state::{App, Key, KeyOutcome, Modifiers};
use time_ledger::date::Date;
use time_ledger::day_pane::{key_to_editor_action, DayEditState, DayPane, DayPaneKind, EditAction};
use time_ledger::ledger::day_text::{parse_and_diagnostics, parse_day, render_day};
use time_ledger::ledger::model::WeekData;
use time_ledger::ledger::render::render_week;
use time_ledger::scroll_state::ScrollState;

fn week_of(y: i32, m: u32, d: u32) -> WeekData {
    WeekData::new(Date::from_ymd(y, m, d).expect("valid date"))
}

fn ctrl_s() -> Key {
    Key::Char {
        c: 's',
        mods: Modifiers::Control,
    }
}

fn app_editing(text: &str) -> App {
    let mut app = App::new(
        week_of(2026, 2, 9),
        "./data/test.ledger".to_string(),
        "./data".to_string(),
    );
    app.day_pane = DayPane::Edit(DayEditState {
        editor: Editor::new(Buffer::from_text(text), Viewport::new(10, 40)),
        diagnostics: Vec::new(),
        diagnostics_scroll: ScrollState {
            offset: 0,
            page_size: 5,
        },
    });
    app
}

#[test]
fn char_keys_map_to_insert_actions() {
    let action = key_to_editor_action(Key::Char {
        c: 'x',
        mods: Modifiers::Plain,
    });
    assert!(action.is_some());
}

#[test]
fn ctrl_s_does_not_insert_text() {
    let action = key_to_editor_action(ctrl_s());
    assert!(action.is_none());
}

#[test]
fn escape_exits_edit_mode() {
    let week = week_of(2026, 2, 9);
    let mut app = App::new(week, "./data/test.ledger".to_string(), "./data".to_string());

    app.enter_day_edit_mode();
    assert_eq!(app.day_pane_kind(), DayPaneKind::Edit);

    let result = app.handle_key(Key::Esc);
    assert_eq!(result, KeyOutcome::Continue);
    assert_eq!(app.day_pane_kind(), DayPaneKind::View);
}

#[test]
fn ctrl_s_with_parse_errors_keeps_edit_mode() {
    let mut app = app_editing("bad line");
    let result = app.handle_key(ctrl_s());
    assert_eq!(result, KeyOutcome::Continue);
    assert_eq!(app.day_pane_kind(), DayPaneKind::Edit);
    assert_eq!(app.status, "Fix diagnostics before saving");
    let diagnostics = app.day_diagnostics_lines().unwrap_or(&[]);
    assert!(!diagnostics.is_empty());
}

#[test]
fn ctrl_s_with_valid_input_keeps_edit_mode() {
    let mut app = app_editing("- Build @1h");
    let result = app.handle_key(ctrl_s());
    assert_eq!(result, KeyOutcome::SaveDay);
    let saved = render_week(&app.week).expect("renders");
    assert!(saved.contains("- Build @1h"));
    app.finish_day_save(None);
    assert_eq!(app.day_pane_kind(), DayPaneKind::Edit);
    assert_eq!(app.status, "Saved");
    assert_eq!(app.tasks.len(), 1);
    assert_eq!(app.totals.week_total, 60);
}

#[test]
fn failed_write_is_listed_in_the_diagnostics() {
    let mut app = app_editing("- Build @1h");
    assert_eq!(app.handle_key(ctrl_s()), KeyOutcome::SaveDay);
    app.finish_day_save(Some("disk full".to_string()));
    assert_eq!(app.status, "Save failed");
    let diagnostics = app.day_diagnostics_lines().expect("editing");
    assert_eq!(diagnostics.last().map(|s| s.as_str()), Some("Save failed: disk full"));
}

#[test]
fn mismatched_sub_items_are_diagnosed() {
    let (day, diagnostics) = parse_and_diagnostics("- Client @2h\n  - a @30m\n  - b @1h");
    assert!(day.is_some());
    assert_eq!(
        diagnostics,
        vec!["Mismatch: 'Client' parent @2h vs sub-items @1h 30m".to_string()]
    );
}

#[test]
fn editor_opens_on_the_days_text_written_anew() {
    let mut app = App::new(
        week_of(2026, 2, 9),
        "./data/test.ledger".to_string(),
        "./data".to_string(),
    );
    let (day, diags) = parse_day("- Build   @90m [x]\n  - part @1h 30m");
    assert!(diags.is_empty());
    app.week.days.push((Date::from_ymd(2026, 2, 9).expect("valid date"), day));
    app.refresh();
    app.enter_day_edit_mode();
    assert_eq!(app.status, "Edit mode");
    match &app.day_pane {
        DayPane::Edit(state) => {
            assert_eq!(
                state.editor.buffer().as_text(),
                "- Build @1h 30m [x]\n  - part @1h 30m"
            );
            assert!(state.diagnostics.is_empty());
        }
        DayPane::View => panic!("editor should be open"),
    }
}

#[test]
fn typing_updates_the_diagnostics() {
    let mut app = app_editing("");
    assert!(app.day_diagnostics_lines().expect("editing").is_empty());
    for c in "oops".chars() {
        app.handle_key(Key::Char {
            c,
            mods: Modifiers::Plain,
        });
    }
    let diagnostics = app.day_diagnostics_lines().expect("editing");
    assert_eq!(diagnostics, &["Unrecognized line 1: oops".to_string()]);
}

#[test]
fn word_jump_and_editing_keys_map_to_actions() {
    assert_eq!(
        key_to_editor_action(Key::Left { word: true }),
        Some(EditAction::MoveWordLeft)
    );
    assert_eq!(
        key_to_editor_action(Key::Right { word: false }),
        Some(EditAction::MoveRight)
    );
    assert_eq!(key_to_editor_action(Key::Tab), Some(EditAction::Insert('\t')));
    assert_eq!(key_to_editor_action(Key::Enter), Some(EditAction::Newline));
    assert_eq!(
        key_to_editor_action(Key::Char {
            c: 'A',
            mods: Modifiers::Shift
        }),
        Some(EditAction::Insert('A'))
    );
    assert_eq!(key_to_editor_action(Key::Esc), None);
}

#[test]
fn render_day_writes_entries_and_sub_items() {
    let (day, _) = parse_day("- a @1h\n  - b @30m\n- c [x]");
    assert_eq!(render_day(&day), "- a @1h\n  - b @30m\n- c [x]");
}

#[test]
fn day_text_reads_back_as_written() {
    let (day, diags) = parse_day("- Client A @2h [x]\n  - kickoff @30m\n  - notes\n- Admin");
    assert!(diags.is_empty());
    let text = render_day(&day);
    let (again, diags) = parse_day(&text);
    assert!(diags.is_empty());
    assert_eq!(again.entries.len(), day.entries.len());
    for (a, b) in again.entries.iter().zip(day.entries.iter()) {
        assert_eq!(a.name, b.name);
        assert_eq!(a.time.map(|t| t.minutes()), b.time.map(|t| t.minutes()));
        assert_eq!(a.checked, b.checked);
        assert_eq!(a.sub_items.len(), b.sub_items.len());
        for (x, y) in a.sub_items.iter().zip(b.sub_items.iter()) {
            assert_eq!(x.name, y.name);
            assert_eq!(x.time.map(|t| t.minutes()), y.time.map(|t| t.minutes()));
        }
    }
    assert_eq!(render_day(&again), text);
}

#[test]
fn ctrl_s_with_a_mismatch_keeps_the_week_unchanged() {
    let mut app = app_editing("- Client @2h\n  - a @30m");
    let result = app.handle_key(ctrl_s());
    assert_eq!(result, KeyOutcome::Continue);
    assert_eq!(app.status, "Fix diagnostics before saving");
    assert!(app.week.days.is_empty());
    assert_eq!(
        app.day_diagnostics_lines().expect("editing"),
        &["Mismatch: 'Client' parent @2h vs sub-items @30m".to_string()]
    );
}

#[test]
fn cursor_moves_inside_the_editor() {
    let mut app = app_editing("- a @1h");
    assert_eq!(app.editor_cursor_screen_pos(), Some((0, 0)));
    app.handle_key(Key::Right { word: false });
    app.handle_key(Key::Right { word: false });
    assert_eq!(app.editor_cursor_screen_pos(), Some((0, 2)));
    app.handle_key(Key::Esc);
    assert_eq!(app.editor_cursor_screen_pos(), None);
}

fn editor_text_of(app: &App) -> String {
    match &app.day_pane {
        DayPane::Edit(st) => st.editor.buffer().as_text(),
        DayPane::View => panic!("not editing"),
    }
}

#[test]
fn cursor_crosses_rows_and_keeps_its_column_within_the_row() {
    let mut app = app_editing("ab\ncdef\ng");
    app.handle_key(Key::Down);
    assert_eq!(app.editor_cursor_screen_pos(), Some((1, 0)));
    for _ in 0..4 {
        app.handle_key(Key::Right { word: false });
    }
    assert_eq!(app.editor_cursor_screen_pos(), Some((1, 4)));
    app.handle_key(Key::Down);
    assert_eq!(app.editor_cursor_screen_pos(), Some((2, 1)));
    app.handle_key(Key::Up);
    assert_eq!(app.editor_cursor_screen_pos(), Some((1, 1)));
    app.handle_key(Key::Backspace);
    assert_eq!(app.editor_cursor_screen_pos(), Some((1, 0)));
    assert_eq!(editor_text_of(&app), "ab\ndef\ng");
    app.handle_key(Key::Backspace);
    assert_eq!(app.editor_cursor_screen_pos(), Some((0, 2)));
    assert_eq!(editor_text_of(&app), "abdef\ng");
    app.handle_key(Key::Delete);
    assert_eq!(app.editor_cursor_screen_pos(), Some((0, 2)));
    assert_eq!(editor_text_of(&app), "abef\ng");
    app.handle_key(Key::Enter);
    assert_eq!(app.editor_cursor_screen_pos(), Some((1, 0)));
    assert_eq!(editor_text_of(&app), "ab\nef\ng");
    app.handle_key(Key::Left { word: false });
    assert_eq!(app.editor_cursor_screen_pos(), Some((0, 2)));
}

#[test]
fn sub_item_times_beyond_i64_are_diagnosed_and_block_saving() {
    let mut app = app_editing("- Big\n  - a @9223372036854775807m\n  - b @1m");
    app.handle_key(Key::Right { word: false });
    assert_eq!(
        app.day_diagnostics_lines().expect("editing"),
        &["Sub-item times too large to add up".to_string()]
    );
    let result = app.handle_key(ctrl_s());
    assert_eq!(result, KeyOutcome::Continue);
    assert_eq!(app.status, "Fix diagnostics before saving");
    assert!(app.week.days.is_empty());
}

#[test]
fn a_multi_byte_time_is_a_diagnostic_in_the_editor() {
    let mut app = app_editing("- Lunch @1é");
    app.handle_key(Key::Right { word: false });
    assert_eq!(
        app.day_diagnostics_lines().expect("editing"),
        &["Line 1: Invalid time '1é': InvalidToken(\"1é\")".to_string()]
    );
}

#[test]
fn resizing_the_editor_keeps_the_cursor_and_scrolls_to_it() {
    let mut app = app_editing("ab\ncdef\ng");
    app.handle_key(Key::Down);
    for _ in 0..4 {
        app.handle_key(Key::Right { word: false });
    }
    app.set_editor_viewport(2, 2);
    assert_eq!(app.editor_cursor_screen_pos(), Some((1, 1)));
    assert_eq!(
        app.editor_visible_lines(),
        Some(vec!["".to_string(), "f".to_string()])
    );
    assert_eq!(editor_text_of(&app), "ab\ncdef\ng");
}
