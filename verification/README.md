# time_ledger

A weekly time ledger kept in plain-text files (`<ledger-dir>/YYYY-Www.ledger`),
with a terminal interface to browse a week, edit a day in place and save.

The library under `src/` is verified with Verus:

- `time_amount.rs` reads and writes durations (`1d 2h 15m`, a day being 8 hours);
- `text.rs` holds the character-level text handling shared by the rest;
- `date.rs` wraps the calendar computations of `chrono`;
- `ledger/` models a week (`model.rs`), reads (`parse.rs`, `day_text.rs`) and
  writes (`render.rs`) its text, sums it (`totals.rs`, `assoc.rs`), and proves
  that written text reads back (`reread.rs`): a day's text always, a week's
  text when `chrono` reads back the dates it writes, which holds for the
  years 1 to 9999, where `render_week` states the read-back itself;
  `ignored.rs` shows that blank lines and `;;` lines change nothing in what a
  week reads as;
- `scroll_state.rs`, `app_state.rs`, `day_pane.rs` and `view.rs` hold the state
  of the interface, what each key does, and what each pane shows;
- `config.rs` and `cli.rs` settle the ledger directory and the command line.

`app/` is the program around it: command-line parsing, files, the environment,
the terminal loop and drawing.
