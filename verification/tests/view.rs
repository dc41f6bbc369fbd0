use time_ledger::app_state::App;
use time_ledger::date::Date;
use time_ledger::ledger::model::Day;
use time_ledger::ledger::day_text::parse_day;
use time_ledger::ledger::parse::parse_ledger;
use time_ledger::view::{
    day_detail_lines, status_is_alert, warnings_overlay_lines, week_table_rows, DetailLine,
};

fn date(y: i32, m: u32, d: u32) -> Date {
    Date::from_ymd(y, m, d).expect("valid date")
}

fn text_of(line: &DetailLine) -> String {
    match line {
        DetailLine::Text(s) => s.clone(),
        DetailLine::Mismatch(s) => format!("mismatch:{s}"),
    }
}

#[test]
fn day_details_show_mismatches_under_the_entry() {
    let (day, _) = parse_day("- Client @2h [x]\n  - a @30m\n  - b @1h");
    let lines: Vec<String> = day_detail_lines(Some(&day)).iter().map(text_of).collect();
    assert_eq!(
        lines,
        vec![
            "- Client @2h [x]".to_string(),
            "mismatch: parent @2h vs sub-items @1h 30m".to_string(),
            "  - a @30m".to_string(),
            "  - b @1h".to_string(),
        ]
    );
}

#[test]
fn empty_day_details_say_no_entries() {
    let lines: Vec<String> = day_detail_lines(None).iter().map(text_of).collect();
    assert_eq!(lines, vec!["No entries".to_string()]);
    let empty = Day { entries: Vec::new() };
    let lines: Vec<String> = day_detail_lines(Some(&empty)).iter().map(text_of).collect();
    assert_eq!(lines, vec!["No entries".to_string()]);
}

#[test]
fn week_table_has_a_row_per_task_and_a_total_row() {
    let text = "## 2026-02-09 Mon\n- Admin @1h\n## 2026-02-11 Wed\n- Admin @30m\n- Build @8h\n";
    let week = parse_ledger(text, date(2026, 2, 9));
    let app = App::new(week, "/l/x.ledger".to_string(), "/l".to_string());
    let rows = week_table_rows(&app);
    assert_eq!(rows.len(), 3);
    assert_eq!(
        rows[0],
        vec!["Admin", "1h", "0m", "30m", "0m", "0m", "0m", "0m", "1h 30m"]
    );
    assert_eq!(
        rows[1],
        vec!["Build", "0m", "0m", "1d", "0m", "0m", "0m", "0m", "1d"]
    );
    assert_eq!(
        rows[2],
        vec!["TOTAL", "1h", "0m", "1d 30m", "0m", "0m", "0m", "0m", "1d 1h 30m"]
    );
}

#[test]
fn warnings_overlay_lists_warnings_or_says_none() {
    assert_eq!(warnings_overlay_lines(&Vec::new()), vec!["No warnings".to_string()]);
    assert_eq!(
        warnings_overlay_lines(&vec!["a".to_string(), "b".to_string()]),
        vec!["* a".to_string(), "* b".to_string()]
    );
}

#[test]
fn status_alerts_only_on_warnings() {
    let week = parse_ledger("random\n", date(2026, 2, 9));
    let mut app = App::new(week, "/l/x.ledger".to_string(), "/l".to_string());
    assert_eq!(app.status, "Warnings: 1");
    assert!(status_is_alert(&app));
    app.status = "Saved".to_string();
    assert!(!status_is_alert(&app));
}
