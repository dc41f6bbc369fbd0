use time_ledger::date::Date;
use time_ledger::ledger::model::{
    apply_computed_times, empty_week, resolve_entry, week_dates, week_start_for, Day, Entry,
    SubItem, WeekData,
};
use time_ledger::ledger::parse::{parse_entry_line, parse_ledger};
use time_ledger::ledger::render::{
    format_minutes, render_entry_line, render_sub_item_line, render_week, week_file_name,
};
use time_ledger::ledger::totals::{compute_totals, task_key};
use time_ledger::ledger::model::LedgerError;
use time_ledger::time_amount::{TimeAmount, TimeError};

const README_LEDGER: &str = "# Week 2025-12-29

## 2025-12-29 Mon
- Client A @2h [x]
  - kickoff @30m
  - notes @1h 30m
- Build pipeline @45m
- Admin @1h 15m
;; item-total Client A @2h
;; item-total Build pipeline @45m
;; item-total Admin @1h 15m
;; day-total @4h

;; week-total @4h
;; week-item-total Admin @1h 15m
;; week-item-total Build pipeline @45m
;; week-item-total Client A @2h
";

fn date(y: i32, m: u32, d: u32) -> Date {
    Date::from_ymd(y, m, d).expect("valid date")
}

fn time(minutes: i64) -> Option<TimeAmount> {
    Some(TimeAmount::from_minutes(minutes).expect("non-negative"))
}

fn minutes(t: Option<TimeAmount>) -> Option<i64> {
    t.map(|t| t.minutes())
}

#[test]
fn readme_ledger_parses_into_one_monday() {
    let week = parse_ledger(README_LEDGER, date(2026, 2, 9));
    assert_eq!(week.week_start.day_number(), date(2025, 12, 29).day_number());
    assert!(week.warnings.is_empty());
    assert_eq!(week.days.len(), 1);
    let (d, day) = &week.days[0];
    assert_eq!(d.iso_text(), "2025-12-29");
    assert_eq!(day.entries.len(), 3);
    let client = &day.entries[0];
    assert_eq!(client.name, "Client A");
    assert_eq!(minutes(client.time), Some(120));
    assert!(client.checked);
    assert_eq!(client.sub_items.len(), 2);
    assert_eq!(client.sub_items[0].name, "kickoff");
    assert_eq!(minutes(client.sub_items[0].time), Some(30));
    assert_eq!(client.sub_items[1].name, "notes");
    assert_eq!(minutes(client.sub_items[1].time), Some(90));
    assert_eq!(day.entries[1].name, "Build pipeline");
    assert_eq!(minutes(day.entries[1].time), Some(45));
    assert!(!day.entries[1].checked);
    assert_eq!(day.entries[2].name, "Admin");
    assert_eq!(minutes(day.entries[2].time), Some(75));
}

#[test]
fn readme_ledger_renders_day_totals_in_entry_order_and_week_totals_in_key_order() {
    let week = parse_ledger(README_LEDGER, date(2026, 2, 9));
    let text = render_week(&week).expect("renders");
    let expected = "# Week 2025-12-29

## 2025-12-29 Mon
- Client A @2h [x]
  - kickoff @30m
  - notes @1h 30m
- Build pipeline @45m
- Admin @1h 15m
;; item-total Client A @2h
;; item-total Build pipeline @45m
;; item-total Admin @1h 15m
;; day-total @4h

## 2025-12-30 Tue
;; day-total @0m

## 2025-12-31 Wed
;; day-total @0m

## 2026-01-01 Thu
;; day-total @0m

## 2026-01-02 Fri
;; day-total @0m

## 2026-01-03 Sat
;; day-total @0m

## 2026-01-04 Sun
;; day-total @0m

;; week-total @4h
;; week-item-total Admin @1h 15m
;; week-item-total Build pipeline @45m
;; week-item-total Client A @2h
";
    assert_eq!(text, expected);
}

#[test]
fn rendered_week_reads_back_to_the_same_entries() {
    let week = parse_ledger(README_LEDGER, date(2026, 2, 9));
    let text = render_week(&week).expect("renders");
    let again = parse_ledger(&text, date(2026, 2, 9));
    assert!(again.warnings.is_empty());
    assert_eq!(again.days.len(), 7);
    assert_eq!(render_week(&again).expect("renders"), text);
}

#[test]
fn totals_sum_effective_minutes_per_key() {
    let week = parse_ledger(README_LEDGER, date(2026, 2, 9));
    let totals = compute_totals(&week);
    assert_eq!(totals.week_total, 240);
    let keys: Vec<(&str, i64)> = totals
        .per_week_item
        .iter()
        .map(|(k, v)| (k.as_str(), *v))
        .collect();
    assert_eq!(
        keys,
        vec![("admin", 75), ("build pipeline", 45), ("client a", 120)]
    );
    assert_eq!(totals.per_day_total.len(), 1);
    assert_eq!(totals.per_day_total[0].1, 240);
    let names: Vec<&str> = totals.display_names.iter().map(|(_, n)| n.as_str()).collect();
    assert_eq!(names, vec!["Admin", "Build pipeline", "Client A"]);
}

#[test]
fn task_key_folds_whitespace_and_case() {
    assert_eq!(task_key("  Client   A\t"), "client a");
    assert_eq!(task_key("ADMIN"), "admin");
    assert_eq!(task_key(""), "");
}

#[test]
fn same_task_in_two_spellings_is_summed_under_the_first_name() {
    let text = "## 2026-02-09 Mon\n- Admin @1h\n- admin  @30m\n## 2026-02-10 Tue\n- ADMIN @15m\n";
    let week = parse_ledger(text, date(2026, 2, 9));
    let totals = compute_totals(&week);
    assert_eq!(totals.per_week_item.len(), 1);
    assert_eq!(totals.per_week_item[0].1, 105);
    assert_eq!(totals.display_names[0].1, "Admin");
    assert_eq!(totals.week_total, 105);
}

fn entry(name: &str, t: Option<i64>, subs: Vec<(&str, Option<i64>)>) -> Entry {
    Entry {
        name: name.to_string(),
        time: t.and_then(|m| time(m)),
        checked: false,
        sub_items: subs
            .into_iter()
            .map(|(n, m)| SubItem {
                name: n.to_string(),
                time: m.and_then(|m| time(m)),
            })
            .collect(),
    }
}

#[test]
fn resolve_entry_sums_complete_sub_items() {
    let r = resolve_entry(&entry("a", None, vec![("x", Some(30)), ("y", Some(45))]));
    assert_eq!(r.sub_total_minutes, Some(75));
    assert_eq!(r.effective_minutes, Some(75));
    assert!(r.sub_complete);
    assert!(!r.mismatch);
}

#[test]
fn resolve_entry_reports_a_mismatch() {
    let r = resolve_entry(&entry("a", Some(60), vec![("x", Some(30))]));
    assert_eq!(r.effective_minutes, Some(60));
    assert_eq!(r.sub_total_minutes, Some(30));
    assert!(r.mismatch);
}

#[test]
fn resolve_entry_with_incomplete_sub_items_has_no_sum() {
    let r = resolve_entry(&entry("a", None, vec![("x", Some(30)), ("y", None)]));
    assert_eq!(r.sub_total_minutes, None);
    assert_eq!(r.effective_minutes, None);
    assert!(!r.sub_complete);
    assert!(!r.mismatch);
    let none = resolve_entry(&entry("b", None, vec![]));
    assert_eq!(none.sub_total_minutes, None);
    assert!(!none.sub_complete);
}

#[test]
fn computed_times_fill_parents_once() {
    let mut week = WeekData::new(date(2026, 2, 9));
    week.days.push((
        date(2026, 2, 9),
        Day {
            entries: vec![
                entry("a", None, vec![("x", Some(30)), ("y", Some(45))]),
                entry("b", None, vec![("x", Some(30)), ("y", None)]),
                entry("c", Some(10), vec![("x", Some(30))]),
            ],
        },
    ));
    assert!(apply_computed_times(&mut week).is_ok());
    let es = &week.days[0].1.entries;
    assert_eq!(minutes(es[0].time), Some(75));
    assert_eq!(minutes(es[1].time), None);
    assert_eq!(minutes(es[2].time), Some(10));
    assert!(apply_computed_times(&mut week).is_ok());
    let es = &week.days[0].1.entries;
    assert_eq!(minutes(es[0].time), Some(75));
    assert_eq!(minutes(es[1].time), None);
}

#[test]
fn week_file_name_uses_the_iso_week() {
    assert_eq!(week_file_name(date(2026, 2, 9)), "2026-W07.ledger");
    assert_eq!(week_file_name(date(2025, 12, 29)), "2026-W01.ledger");
    assert_eq!(week_file_name(date(2021, 1, 3)), "2020-W53.ledger");
}

#[test]
fn week_starts_on_monday() {
    assert_eq!(week_start_for(date(2026, 2, 8)).iso_text(), "2026-02-02");
    assert_eq!(week_start_for(date(2026, 2, 9)).iso_text(), "2026-02-09");
    let dates: Vec<String> = week_dates(date(2025, 12, 29)).iter().map(|d| d.iso_text()).collect();
    assert_eq!(dates[0], "2025-12-29");
    assert_eq!(dates[6], "2026-01-04");
    assert_eq!(dates.len(), 7);
}

#[test]
fn empty_week_has_seven_empty_days() {
    let week = empty_week(date(2026, 2, 9));
    assert_eq!(week.days.len(), 7);
    assert!(week.days.iter().all(|(_, d)| d.entries.is_empty()));
    assert_eq!(week.days[6].0.iso_text(), "2026-02-15");
}

#[test]
fn format_minutes_normalizes_and_falls_back_for_negatives() {
    assert_eq!(format_minutes(90), "1h 30m");
    assert_eq!(format_minutes(480), "1d");
    assert_eq!(format_minutes(960), "2d");
    assert_eq!(format_minutes(0), "0m");
    assert_eq!(format_minutes(-5), "0m");
}

#[test]
fn entry_lines_parse_names_times_and_marks() {
    let p = parse_entry_line("- Client A @2h [x]").expect("entry");
    assert_eq!(p.name, "Client A");
    assert_eq!(minutes(p.time), Some(120));
    assert!(p.checked);
    assert!(!p.is_sub_item);
    let s = parse_entry_line("  - notes @1h 30m").expect("sub-item");
    assert!(s.is_sub_item);
    assert_eq!(s.name, "notes");
    assert_eq!(minutes(s.time), Some(90));
    let bad = parse_entry_line("- Task @1:30").expect("entry with bad time");
    assert_eq!(bad.time_error.as_deref(), Some("Invalid time '1:30': InvalidNumber(\"1:30\")"));
    assert!(bad.time.is_none());
    assert!(parse_entry_line("not an entry").is_none());
    assert!(parse_entry_line("- @1h").is_none());
    let plain = parse_entry_line("- mail me@ ").expect("entry with empty time");
    assert_eq!(plain.name, "mail me");
    assert!(plain.time.is_none());
}

#[test]
fn entry_lines_render_normalized_times() {
    let e = Entry {
        name: "  Build  ".to_string(),
        time: time(90),
        checked: true,
        sub_items: Vec::new(),
    };
    assert_eq!(render_entry_line(&e), "- Build @1h 30m [x]");
    let s = SubItem {
        name: "x".to_string(),
        time: None,
    };
    assert_eq!(render_sub_item_line(&s), "  - x");
}

#[test]
fn parse_ledger_collects_warnings() {
    let text = "- early @1h\n## 2026-02-09 Mon\n  - orphan @1h\nrandom\n- Task @1:30\n";
    let week = parse_ledger(text, date(2026, 2, 9));
    assert_eq!(
        week.warnings,
        vec![
            "Line 1: entry before any day header".to_string(),
            "Line 3: sub-item without parent".to_string(),
            "Unrecognized line 4: random".to_string(),
            "Line 5: Invalid time '1:30': InvalidNumber(\"1:30\")".to_string(),
        ]
    );
    assert_eq!(week.days.len(), 1);
    assert_eq!(week.days[0].1.entries.len(), 1);
    assert_eq!(week.days[0].1.entries[0].name, "Task");
}

#[test]
fn ledger_errors_have_messages() {
    assert_eq!(
        LedgerError::Io("disk full".to_string()).message(),
        "io error: disk full"
    );
    assert_eq!(
        LedgerError::Time(TimeError::Negative).message(),
        "time error: negative time"
    );
}

fn entry_summary(week: &WeekData) -> Vec<(i32, Vec<(String, Option<i64>, bool, Vec<(String, Option<i64>)>)>)> {
    week.days
        .iter()
        .map(|(d, day)| {
            let entries = day
                .entries
                .iter()
                .map(|e| {
                    let subs = e
                        .sub_items
                        .iter()
                        .map(|s| (s.name.clone(), minutes(s.time)))
                        .collect();
                    (e.name.clone(), minutes(e.time), e.checked, subs)
                })
                .collect();
            (d.day_number(), entries)
        })
        .collect()
}

#[test]
fn blank_and_total_lines_do_not_change_the_week() {
    let bare = "# Week 2025-12-29\n## 2025-12-29 Mon\n- Client A @2h [x]\n  - kickoff @30m\nbad line\n";
    let padded = "\n# Week 2025-12-29\n\n;; week-total @9h\n## 2025-12-29 Mon\n   \n- Client A @2h [x]\n;; item-total Client A @2h\n  - kickoff @30m\n\nbad line\n;; day-total @2h\n";
    let a = parse_ledger(bare, date(2026, 2, 9));
    let b = parse_ledger(padded, date(2026, 2, 9));
    assert_eq!(a.week_start.day_number(), b.week_start.day_number());
    assert_eq!(entry_summary(&a), entry_summary(&b));
    assert_eq!(entry_summary(&a).len(), 1);
    assert_eq!(a.warnings, vec!["Unrecognized line 5: bad line".to_string()]);
    assert_eq!(b.warnings, vec!["Unrecognized line 11: bad line".to_string()]);
}

#[test]
fn day_item_totals_follow_the_first_entry_of_each_key() {
    let content = "# Week 2026-02-09\n## 2026-02-09 Mon\n- Zeta @1h\n- alpha @30m\n- zeta @15m\n- Notes\n";
    let week = parse_ledger(content, date(2026, 2, 9));
    let text = render_week(&week).expect("renders");
    assert!(text.contains(
        "- Notes\n;; item-total Zeta @1h 15m\n;; item-total alpha @30m\n;; day-total @1h 45m\n"
    ));
    assert!(text.contains(
        ";; week-total @1h 45m\n;; week-item-total alpha @30m\n;; week-item-total Zeta @1h 15m\n"
    ));
}

#[test]
fn rendered_entry_and_sub_item_lines_read_back() {
    let e = Entry {
        name: "Client A".to_string(),
        time: time(555),
        checked: true,
        sub_items: Vec::new(),
    };
    let p = parse_entry_line(&render_entry_line(&e)).expect("entry");
    assert_eq!(p.name, "Client A");
    assert_eq!(minutes(p.time), Some(555));
    assert!(p.checked);
    assert!(!p.is_sub_item);
    assert!(p.time_error.is_none());
    let s = SubItem {
        name: "notes".to_string(),
        time: None,
    };
    let q = parse_entry_line(&render_sub_item_line(&s)).expect("sub-item");
    assert_eq!(q.name, "notes");
    assert!(q.time.is_none());
    assert!(!q.checked);
    assert!(q.is_sub_item);
    assert!(q.time_error.is_none());
}

#[test]
fn unreadable_times_in_a_ledger_become_warnings() {
    let text = "## 2026-02-09 Mon\n- Lunch @1é\n- Big @99999999999999999d\n";
    let week = parse_ledger(text, date(2026, 2, 9));
    assert_eq!(
        week.warnings,
        vec![
            "Line 2: Invalid time '1é': InvalidToken(\"1é\")".to_string(),
            "Line 3: Invalid time '99999999999999999d': InvalidNumber(\"99999999999999999d\")"
                .to_string(),
        ]
    );
    assert_eq!(week.days[0].1.entries.len(), 2);
    assert!(week.days[0].1.entries[0].time.is_none());
}

#[test]
fn date_labels_use_weekday_names() {
    let d = date(2025, 12, 29);
    assert_eq!(d.column_label(), "Mon 12-29");
    assert_eq!(d.title_label(), "Monday 2025-12-29");
    assert_eq!(d.weekday_name(), "Monday");
    assert_eq!(d.month_day_text(), "12-29");
    assert_eq!(date(2026, 2, 8).title_label(), "Sunday 2026-02-08");
}
