//! Lines the reader passes over: blank ones and generated `;;` lines. A text
//! read with more or fewer of them gives the same week; only the line numbers
//! that its warnings quote move.
use vstd::prelude::*;

use crate::ledger::parse::{
    day_prefix, header_date, ledger_fold, ledger_step, line_warning, parse_ledger_spec,
    unrecognized_warning, week_prefix, ParseState,
};
use crate::text::{has_prefix, split_lines, trim_end};

verus! {

/// A line that reading leaves without effect: empty once its trailing
/// whitespace is gone, or starting with `;;`.
pub open spec fn ignored_line(raw: Seq<char>) -> bool {
    let line = trim_end(raw);
    line.len() == 0 || has_prefix(line, seq![';', ';'])
}

/// The lines that are not ignored, in their order.
pub open spec fn significant_lines(lines: Seq<Seq<char>>) -> Seq<Seq<char>>
    decreases lines.len(),
{
    if lines.len() == 0 {
        lines
    } else if ignored_line(lines.last()) {
        significant_lines(lines.drop_last())
    } else {
        significant_lines(lines.drop_last()).push(lines.last())
    }
}

/// Two warnings that say the same of their lines, whatever numbers they quote.
pub open spec fn alike_but_line_number(a: Seq<char>, b: Seq<char>) -> bool {
    (exists|n1: int, n2: int, m: Seq<char>|
        #![trigger line_warning(n1, m), line_warning(n2, m)]
        a == line_warning(n1, m) && b == line_warning(n2, m)) || (exists|
        n1: int,
        n2: int,
        m: Seq<char>,
    |
        #![trigger unrecognized_warning(n1, m), unrecognized_warning(n2, m)]
        a == unrecognized_warning(n1, m) && b == unrecognized_warning(n2, m))
}

/// Two lists of warnings, one for one alike but for line numbers.
pub open spec fn warnings_alike(w1: Seq<Seq<char>>, w2: Seq<Seq<char>>) -> bool {
    w1.len() == w2.len() && forall|i: int|
        0 <= i < w1.len() ==> alike_but_line_number(#[trigger] w1[i], w2[i])
}

/// Two reading states that differ at most in the line numbers of warnings.
pub open spec fn states_alike(s1: ParseState, s2: ParseState) -> bool {
    &&& s1.week.week_start == s2.week.week_start
    &&& s1.week.days == s2.week.days
    &&& s1.current_day == s2.current_day
    &&& s1.last_entry == s2.last_entry
    &&& warnings_alike(s1.week.warnings, s2.week.warnings)
}

proof fn lemma_ignored_step(st: ParseState, n: int, raw: Seq<char>)
    requires
        ignored_line(raw),
    ensures
        ledger_step(st, n, raw) == st,
{
    let line = trim_end(raw);
    if line.len() != 0 {
        assert(line[0] == ';') by {
            assert(line.subrange(0, 2)[0] == seq![';', ';'][0]);
        }
        if has_prefix(line, week_prefix()) {
            assert(line.subrange(0, 7)[0] == week_prefix()[0]);
        }
        if has_prefix(line, day_prefix()) {
            assert(line.subrange(0, 3)[0] == day_prefix()[0]);
        }
        assert(header_date(line, week_prefix()) is None);
        assert(header_date(line, day_prefix()) is None);
    }
}

proof fn lemma_push_alike(
    w1: Seq<Seq<char>>,
    w2: Seq<Seq<char>>,
    a: Seq<char>,
    b: Seq<char>,
)
    requires
        warnings_alike(w1, w2),
        alike_but_line_number(a, b),
    ensures
        warnings_alike(w1.push(a), w2.push(b)),
{
    assert forall|i: int| 0 <= i < w1.push(a).len() implies alike_but_line_number(
        #[trigger] w1.push(a)[i],
        w2.push(b)[i],
    ) by {
        if i < w1.len() {
            assert(w1.push(a)[i] == w1[i]);
            assert(w2.push(b)[i] == w2[i]);
        }
    }
}

proof fn lemma_line_warnings_alike(n1: int, n2: int, m: Seq<char>)
    ensures
        alike_but_line_number(line_warning(n1, m), line_warning(n2, m)),
{
}

proof fn lemma_unrecognized_alike(n1: int, n2: int, m: Seq<char>)
    ensures
        alike_but_line_number(unrecognized_warning(n1, m), unrecognized_warning(n2, m)),
{
}

/// One line read into two alike states leaves them alike, whatever number
/// each reading gives the line.
proof fn lemma_step_alike(s1: ParseState, s2: ParseState, n1: int, n2: int, raw: Seq<char>)
    requires
        states_alike(s1, s2),
    ensures
        states_alike(ledger_step(s1, n1, raw), ledger_step(s2, n2, raw)),
{
    let line = trim_end(raw);
    lemma_line_warnings_alike(n1, n2, line);
    lemma_unrecognized_alike(n1, n2, line);
    if line.len() == 0 {
    } else if header_date(line, week_prefix()) is Some {
    } else if header_date(line, day_prefix()) is Some {
    } else if has_prefix(line, seq![';', ';']) {
    } else {
        match crate::ledger::parse::parse_entry_spec(line) {
            None => {
                lemma_push_alike(
                    s1.week.warnings,
                    s2.week.warnings,
                    unrecognized_warning(n1, line),
                    unrecognized_warning(n2, line),
                );
            },
            Some(p) => {
                let w1 = match p.time_error {
                    Some(e) => s1.week.warnings.push(line_warning(n1, e)),
                    None => s1.week.warnings,
                };
                let w2 = match p.time_error {
                    Some(e) => s2.week.warnings.push(line_warning(n2, e)),
                    None => s2.week.warnings,
                };
                match p.time_error {
                    Some(e) => {
                        lemma_line_warnings_alike(n1, n2, e);
                        lemma_push_alike(
                            s1.week.warnings,
                            s2.week.warnings,
                            line_warning(n1, e),
                            line_warning(n2, e),
                        );
                    },
                    None => {},
                }
                assert(warnings_alike(w1, w2));
                let m_before = crate::ledger::parse::before_day_message();
                let m_orphan = crate::ledger::parse::orphan_message();
                lemma_line_warnings_alike(n1, n2, m_before);
                lemma_line_warnings_alike(n1, n2, m_orphan);
                lemma_push_alike(w1, w2, line_warning(n1, m_before), line_warning(n2, m_before));
                lemma_push_alike(w1, w2, line_warning(n1, m_orphan), line_warning(n2, m_orphan));
            },
        }
    }
}

proof fn lemma_fold_alike(
    lines1: Seq<Seq<char>>,
    lines2: Seq<Seq<char>>,
    s1: ParseState,
    s2: ParseState,
)
    requires
        significant_lines(lines1) == significant_lines(lines2),
        states_alike(s1, s2),
    ensures
        states_alike(ledger_fold(lines1, s1), ledger_fold(lines2, s2)),
    decreases lines1.len() + lines2.len(),
{
    if lines1.len() > 0 && ignored_line(lines1.last()) {
        lemma_fold_alike(lines1.drop_last(), lines2, s1, s2);
        lemma_ignored_step(ledger_fold(lines1.drop_last(), s1), lines1.len() as int, lines1.last());
    } else if lines2.len() > 0 && ignored_line(lines2.last()) {
        lemma_fold_alike(lines1, lines2.drop_last(), s1, s2);
        lemma_ignored_step(ledger_fold(lines2.drop_last(), s2), lines2.len() as int, lines2.last());
    } else if lines1.len() == 0 && lines2.len() == 0 {
    } else if lines1.len() == 0 {
        assert(significant_lines(lines2).len() > 0);
    } else if lines2.len() == 0 {
        assert(significant_lines(lines1).len() > 0);
    } else {
        let k1 = significant_lines(lines1.drop_last());
        let k2 = significant_lines(lines2.drop_last());
        assert(k1.push(lines1.last()) == k2.push(lines2.last()));
        assert(k1 == k1.push(lines1.last()).drop_last());
        assert(k2 == k2.push(lines2.last()).drop_last());
        assert(lines1.last() == k1.push(lines1.last()).last());
        assert(lines2.last() == k2.push(lines2.last()).last());
        lemma_fold_alike(lines1.drop_last(), lines2.drop_last(), s1, s2);
        lemma_step_alike(
            ledger_fold(lines1.drop_last(), s1),
            ledger_fold(lines2.drop_last(), s2),
            lines1.len() as int,
            lines2.len() as int,
            lines1.last(),
        );
    }
}

/// Blank lines and `;;` lines do not change what a ledger reads as: two texts
/// whose other lines are the same, in the same order, give the same week
/// start and the same days, and warnings that match one for one but for the
/// line numbers they quote.
pub proof fn lemma_ignored_lines_do_not_change_the_week(
    content1: Seq<char>,
    content2: Seq<char>,
    default_week_start: int,
)
    requires
        significant_lines(split_lines(content1)) == significant_lines(split_lines(content2)),
    ensures
        parse_ledger_spec(content1, default_week_start).week_start == parse_ledger_spec(
            content2,
            default_week_start,
        ).week_start,
        parse_ledger_spec(content1, default_week_start).days == parse_ledger_spec(
            content2,
            default_week_start,
        ).days,
        warnings_alike(
            parse_ledger_spec(content1, default_week_start).warnings,
            parse_ledger_spec(content2, default_week_start).warnings,
        ),
{
    let init = ParseState {
        week: crate::ledger::model::WeekView {
            week_start: default_week_start,
            days: seq![],
            warnings: seq![],
        },
        current_day: None,
        last_entry: None,
    };
    lemma_fold_alike(split_lines(content1), split_lines(content2), init, init);
}

} // verus!
