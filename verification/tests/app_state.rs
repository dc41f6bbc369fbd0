use time_ledger::app_state::{week_file_path, App, Key, KeyOutcome, Modifiers, Screen};
use time_ledger::date::Date;
use time_ledger::ledger::parse::parse_ledger;
use time_ledger::scroll_state::ScrollState;

fn date(y: i32, m: u32, d: u32) -> Date {
    Date::from_ymd(y, m, d).expect("valid date")
}

fn plain(c: char) -> Key {
    Key::Char {
        c,
        mods: Modifiers::Plain,
    }
}

fn sample_app() -> App {
    let text = "# Week 2026-02-09\n## 2026-02-09 Mon\n- Admin @1h\n- Build\n  - a @30m\n  - b @15m\n## 2026-02-10 Tue\n- zeta @2h\n";
    let week = parse_ledger(text, date(2026, 2, 9));
    App::new(week, "/l/2026-W07.ledger".to_string(), "/l".to_string())
}

#[test]
fn new_app_lists_tasks_and_warning_count() {
    let app = sample_app();
    let names: Vec<&str> = app.tasks.iter().map(|t| t.name.as_str()).collect();
    assert_eq!(names, vec!["Admin", "Build", "zeta"]);
    assert_eq!(app.status, "Warnings: 0");
    assert_eq!(app.selected_day, 0);
    assert_eq!(app.totals.week_total, 60 + 45 + 120);
}

#[test]
fn arrows_move_the_selection_and_shift_weeks_at_the_edges() {
    let mut app = sample_app();
    assert_eq!(app.handle_key(Key::Left { word: false }), KeyOutcome::ShiftWeek(-1));
    assert_eq!(app.handle_key(Key::Right { word: false }), KeyOutcome::Continue);
    assert_eq!(app.selected_day, 1);
    assert_eq!(app.selected_date().iso_text(), "2026-02-10");
    for _ in 0..5 {
        app.handle_key(Key::Right { word: false });
    }
    assert_eq!(app.selected_day, 6);
    assert_eq!(app.handle_key(Key::Right { word: false }), KeyOutcome::ShiftWeek(1));
    app.handle_key(Key::Down);
    app.handle_key(Key::Down);
    app.handle_key(Key::Down);
    assert_eq!(app.selected_task, 2);
    app.handle_key(Key::Up);
    assert_eq!(app.selected_task, 1);
}

#[test]
fn quit_and_save_keys() {
    let mut app = sample_app();
    assert_eq!(app.handle_key(plain('q')), KeyOutcome::Quit);
    assert_eq!(app.handle_key(Key::Esc), KeyOutcome::Quit);
    assert_eq!(app.handle_key(plain('s')), KeyOutcome::Save);
    let build = &app.week.days[0].1.entries[1];
    assert_eq!(build.time.map(|t| t.minutes()), Some(45));
    app.after_save();
    assert_eq!(app.status, "Saved");
}

#[test]
fn warnings_overlay_opens_scrolls_and_closes() {
    let mut app = sample_app();
    for i in 0..12 {
        app.week.warnings.push(format!("w{i}"));
    }
    app.handle_key(plain('w'));
    assert!(app.showing_warnings());
    app.set_warnings_page_size(5);
    app.handle_key(Key::End);
    assert_eq!(app.warnings_scroll(), 7);
    app.handle_key(Key::PageUp);
    assert_eq!(app.warnings_scroll(), 2);
    app.handle_key(Key::Home);
    assert_eq!(app.warnings_scroll(), 0);
    app.handle_key(Key::Left { word: false });
    assert_eq!(app.selected_day, 0);
    app.handle_key(plain('w'));
    assert!(!app.showing_warnings());
    assert_eq!(app.screen_stack, vec![Screen::Main]);
}

#[test]
fn refresh_clamps_the_overlay() {
    let mut app = sample_app();
    app.screen_stack.push(Screen::Warnings(ScrollState {
        offset: 9,
        page_size: 5,
    }));
    app.refresh();
    assert_eq!(app.warnings_scroll(), 0);
    assert_eq!(app.warnings_line_count(), 1);
}

#[test]
fn week_shift_goes_to_the_neighbouring_file() {
    let app = sample_app();
    let back = app.plan_week_shift(-1, date(2026, 2, 9));
    assert_eq!(back.week_start.iso_text(), "2026-02-02");
    assert_eq!(back.file_path, "/l/2026-W06.ledger");
    assert!(!back.load_even_if_missing);
    let next = app.plan_week_shift(1, date(2026, 2, 16));
    assert_eq!(next.file_path, "/l/2026-W08.ledger");
    assert!(next.load_even_if_missing);
}

#[test]
fn week_file_path_joins_the_directory() {
    assert_eq!(week_file_path("/data", date(2025, 12, 29)), "/data/2026-W01.ledger");
}

#[test]
fn e_opens_the_editor_on_the_selected_day() {
    let mut app = sample_app();
    app.handle_key(plain('e'));
    assert_eq!(app.status, "Edit mode");
    assert_eq!(app.diagnostics_line_count(), 1);
    assert_eq!(
        app.editor_visible_lines().map(|v| v.len()),
        Some(1)
    );
    app.set_editor_viewport(10, 40);
    assert_eq!(
        app.editor_visible_lines(),
        Some(vec![
            "- Admin @1h".to_string(),
            "- Build".to_string(),
            "  - a @30m".to_string(),
            "  - b @15m".to_string(),
        ])
    );
    assert_eq!(app.handle_key(plain('q')), KeyOutcome::Continue);
    assert_eq!(app.diagnostics_scroll(), Some(0));
}

#[test]
fn after_save_and_show_week_keep_the_selection_in_range() {
    let mut app = sample_app();
    app.handle_key(Key::Right { word: false });
    app.handle_key(Key::Down);
    app.handle_key(Key::Down);
    app.after_save();
    assert_eq!(app.selected_day, 1);
    assert_eq!(app.selected_task, 2);
    assert_eq!(app.ledger_dir, "/l");
    assert_eq!(app.file_path, "/l/2026-W07.ledger");
    let next = parse_ledger("# Week 2026-02-16\n## 2026-02-16 Mon\n- Admin @1h\n", date(2026, 2, 16));
    app.show_week(next, "/l/2026-W08.ledger".to_string(), 1);
    assert_eq!(app.selected_day, 0);
    assert_eq!(app.selected_task, 0);
    assert_eq!(app.ledger_dir, "/l");
    assert_eq!(app.file_path, "/l/2026-W08.ledger");
    assert_eq!(app.status, "Warnings: 0");
}
