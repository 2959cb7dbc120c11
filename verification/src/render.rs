use vstd::prelude::*;

use crate::day::{find_task, has_id, Day, DayView};
use crate::log::{spec_focus, EntryType};
use crate::time::Timestamp;

verus! {

/// The decimal digit `d` as a character.
pub open spec fn digit_char(d: nat) -> char {
    if d == 0 {
        '0'
    } else if d == 1 {
        '1'
    } else if d == 2 {
        '2'
    } else if d == 3 {
        '3'
    } else if d == 4 {
        '4'
    } else if d == 5 {
        '5'
    } else if d == 6 {
        '6'
    } else if d == 7 {
        '7'
    } else if d == 8 {
        '8'
    } else {
        '9'
    }
}

/// The decimal representation of `n`, most significant digit first.
pub open spec fn decimal_of(n: nat) -> Seq<char>
    decreases n,
{
    if n < 10 {
        seq![digit_char(n)]
    } else {
        decimal_of(n / 10).push(digit_char(n % 10))
    }
}

/// Two zero-padded decimal digits, for a value under one hundred.
pub open spec fn two_digits(n: nat) -> Seq<char> {
    seq![digit_char(n / 10), digit_char(n % 10)]
}

/// A timestamp rendered as hours and minutes of its day, `HH:MM`.
pub open spec fn hhmm_of(t: Timestamp) -> Seq<char> {
    let s = t.secs as nat % 86400;
    two_digits(s / 3600) + seq![':'] + two_digits((s % 3600) / 60)
}

/// One line of the priorities section: the rank, the task's name, a `*` on
/// the currently focused task, and a `- done` suffix on a finished one.
pub open spec fn priority_line(v: DayView, i: int) -> Seq<char> {
    let t = find_task(v.tasks, v.priorities[i])->Some_0;
    decimal_of(i as nat) + ". "@ + t.name@ + (if spec_focus(v.log) == Some(v.priorities[i]) {
        "*"@
    } else {
        Seq::<char>::empty()
    }) + (if t.done {
        " - done"@
    } else {
        Seq::<char>::empty()
    }) + "\n"@
}

/// The priority lines from rank `i` on.
pub open spec fn priority_lines(v: DayView, i: int) -> Seq<char>
    decreases v.priorities.len() - i,
{
    if i < 0 || i >= v.priorities.len() {
        Seq::empty()
    } else {
        priority_line(v, i) + priority_lines(v, i + 1)
    }
}

/// The focus footer of the priorities section, shown while a task is
/// focused.
pub open spec fn focus_line(v: DayView) -> Seq<char> {
    match spec_focus(v.log) {
        Some(id) => "\nFocus: "@ + find_task(v.tasks, id)->Some_0.name@ + "\n"@,
        None => Seq::empty(),
    }
}

/// The priorities section, with its placeholder when no priority is ranked.
pub open spec fn priorities_text(v: DayView) -> Seq<char> {
    if v.priorities.len() == 0 {
        "No priorities\n"@
    } else {
        "Priorities:\n"@ + priority_lines(v, 0) + focus_line(v)
    }
}

/// One line of the log section: the entry's start time and what it records.
pub open spec fn log_line(v: DayView, i: int) -> Seq<char> {
    let e = v.log[i];
    hhmm_of(e.start) + " - "@ + (match e.type_ {
        EntryType::Focus(id) => find_task(v.tasks, id)->Some_0.name@,
        EntryType::Unfocused => "Unfocused"@,
        EntryType::DayEnded => "Day end"@,
    }) + "\n"@
}

/// The log lines from entry `i` on.
pub open spec fn log_lines(v: DayView, i: int) -> Seq<char>
    decreases v.log.len() - i,
{
    if i < 0 || i >= v.log.len() {
        Seq::empty()
    } else {
        log_line(v, i) + log_lines(v, i + 1)
    }
}

/// The log section, with its placeholder when the log is empty.
pub open spec fn log_text(v: DayView) -> Seq<char> {
    if v.log.len() == 0 {
        "No log\n"@
    } else {
        "Log:\n"@ + log_lines(v, 0)
    }
}

/// One line of the notes section: the note's number and text.
pub open spec fn note_line(v: DayView, i: int) -> Seq<char> {
    decimal_of(i as nat) + ". "@ + v.notes[i]@ + "\n"@
}

/// The note lines from note `i` on.
pub open spec fn note_lines(v: DayView, i: int) -> Seq<char>
    decreases v.notes.len() - i,
{
    if i < 0 || i >= v.notes.len() {
        Seq::empty()
    } else {
        note_line(v, i) + note_lines(v, i + 1)
    }
}

/// The notes section, with its placeholder when no note was taken.
pub open spec fn notes_text(v: DayView) -> Seq<char> {
    if v.notes.len() == 0 {
        "No notes\n"@
    } else {
        "Notes:\n"@ + note_lines(v, 0)
    }
}

/// The whole textual summary: priorities, log and notes, in that order,
/// separated by blank lines.
pub open spec fn day_text(v: DayView) -> Seq<char> {
    priorities_text(v) + "\n"@ + log_text(v) + "\n"@ + notes_text(v)
}

/// The decimal digit `d`, as text.
fn digit_str(d: u64) -> (r: &'static str)
    requires
        d < 10,
    ensures
        r@ == seq![digit_char(d as nat)],
{
    let r: &'static str = if d == 0 {
        "0"
    } else if d == 1 {
        "1"
    } else if d == 2 {
        "2"
    } else if d == 3 {
        "3"
    } else if d == 4 {
        "4"
    } else if d == 5 {
        "5"
    } else if d == 6 {
        "6"
    } else if d == 7 {
        "7"
    } else if d == 8 {
        "8"
    } else {
        "9"
    };
    proof {
        reveal_strlit("0");
        reveal_strlit("1");
        reveal_strlit("2");
        reveal_strlit("3");
        reveal_strlit("4");
        reveal_strlit("5");
        reveal_strlit("6");
        reveal_strlit("7");
        reveal_strlit("8");
        reveal_strlit("9");
        assert(r@ =~= seq![digit_char(d as nat)]);
    }
    r
}

/// Appends the decimal representation of `n`.
fn push_decimal(out: &mut String, n: u64)
    ensures
        final(out)@ == old(out)@ + decimal_of(n as nat),
    decreases n,
{
    if n < 10 {
        out.append(digit_str(n));
    } else {
        push_decimal(out, n / 10);
        out.append(digit_str(n % 10));
        proof {
            assert(out@ =~= old(out)@ + decimal_of(n as nat));
        }
    }
}

/// Appends two zero-padded decimal digits.
fn push_two_digits(out: &mut String, n: u64)
    requires
        n < 100,
    ensures
        final(out)@ == old(out)@ + two_digits(n as nat),
{
    out.append(digit_str(n / 10));
    out.append(digit_str(n % 10));
    proof {
        assert(out@ =~= old(out)@ + two_digits(n as nat));
    }
}

/// Appends a timestamp as `HH:MM`.
fn push_hhmm(out: &mut String, t: Timestamp)
    ensures
        final(out)@ == old(out)@ + hhmm_of(t),
{
    let s = t.secs % 86400;
    let h = s / 3600;
    let m = (s % 3600) / 60;
    proof {
        assert(h < 24);
        assert(m < 60);
    }
    push_two_digits(out, h);
    out.append(":");
    push_two_digits(out, m);
    proof {
        reveal_strlit(":");
        assert(":"@ =~= seq![':']);
        assert(out@ =~= old(out)@ + hhmm_of(t));
    }
}

/// Appends the priorities section of the day.
fn push_priorities(out: &mut String, day: &Day)
    requires
        day.wf(),
    ensures
        final(out)@ == old(out)@ + priorities_text(day@),
{
    let priorities = day.priorities();
    let n = priorities.len();
    if n == 0 {
        out.append("No priorities\n");
        return;
    }
    out.append("Priorities:\n");
    let focus = day.focus();
    let mut k: usize = 0;
    while k < n
        invariant
            day.wf(),
            n == day@.priorities.len(),
            priorities@ == day@.priorities,
            focus == spec_focus(day@.log),
            k <= n,
            out@ + priority_lines(day@, k as int) == old(out)@ + "Priorities:\n"@
                + priority_lines(day@, 0),
        decreases n - k,
    {
        let tid = priorities[k];
        proof {
            assert(has_id(day@.tasks, day@.priorities[k as int]));
            crate::day::lemma_find_has(day@.tasks, day@.priorities[k as int]);
        }
        let task = day.get_task(&tid).unwrap();
        let ghost before = out@;
        push_decimal(out, k as u64);
        out.append(". ");
        out.append(task.name.as_str());
        let focused = match focus {
            Some(fid) => fid.0 == tid.0,
            None => false,
        };
        if focused {
            out.append("*");
        }
        if task.done {
            out.append(" - done");
        }
        out.append("\n");
        proof {
            assert(before + priority_line(day@, k as int) =~= out@);
            assert(out@ + priority_lines(day@, k as int + 1) =~= before + priority_lines(
                day@,
                k as int,
            ));
        }
        k += 1;
    }
    match focus {
        None => {},
        Some(fid) => {
            proof {
                assert(day@.log.len() > 0);
                assert(crate::day::focus_id_ok(day@.tasks, day@.log[day@.log.len() - 1].type_));
                crate::day::lemma_find_has(day@.tasks, fid);
            }
            let focus_task = day.get_task(&fid).unwrap();
            out.append("\nFocus: ");
            out.append(focus_task.name.as_str());
            out.append("\n");
        },
    }
    proof {
        assert(priority_lines(day@, n as int) =~= Seq::<char>::empty());
        assert(out@ =~= old(out)@ + priorities_text(day@));
    }
}

/// Appends the log section of the day.
fn push_log(out: &mut String, day: &Day)
    requires
        day.wf(),
    ensures
        final(out)@ == old(out)@ + log_text(day@),
{
    let entries = day.log().entries();
    let n = entries.len();
    if n == 0 {
        out.append("No log\n");
        return;
    }
    out.append("Log:\n");
    let mut k: usize = 0;
    while k < n
        invariant
            day.wf(),
            n == day@.log.len(),
            entries@ == day@.log,
            k <= n,
            out@ + log_lines(day@, k as int) == old(out)@ + "Log:\n"@ + log_lines(day@, 0),
        decreases n - k,
    {
        let e = entries[k];
        let ghost before = out@;
        push_hhmm(out, e.start);
        out.append(" - ");
        match e.type_ {
            EntryType::Focus(task_id) => {
                proof {
                    assert(crate::day::focus_id_ok(day@.tasks, day@.log[k as int].type_));
                    crate::day::lemma_find_has(day@.tasks, task_id);
                }
                let task = day.get_task(&task_id).unwrap();
                out.append(task.name.as_str());
            },
            EntryType::Unfocused => {
                out.append("Unfocused");
            },
            EntryType::DayEnded => {
                out.append("Day end");
            },
        }
        out.append("\n");
        proof {
            assert(before + log_line(day@, k as int) =~= out@);
            assert(out@ + log_lines(day@, k as int + 1) =~= before + log_lines(day@, k as int));
        }
        k += 1;
    }
    proof {
        assert(log_lines(day@, n as int) =~= Seq::<char>::empty());
        assert(out@ =~= old(out)@ + log_text(day@));
    }
}

/// Appends the notes section of the day.
fn push_notes(out: &mut String, day: &Day)
    ensures
        final(out)@ == old(out)@ + notes_text(day@),
{
    let notes = day.notes();
    let n = notes.len();
    if n == 0 {
        out.append("No notes\n");
        return;
    }
    out.append("Notes:\n");
    let mut k: usize = 0;
    while k < n
        invariant
            n == day@.notes.len(),
            notes@ == day@.notes,
            k <= n,
            out@ + note_lines(day@, k as int) == old(out)@ + "Notes:\n"@ + note_lines(day@, 0),
        decreases n - k,
    {
        let ghost before = out@;
        push_decimal(out, k as u64);
        out.append(". ");
        out.append(notes[k].as_str());
        out.append("\n");
        proof {
            assert(before + note_line(day@, k as int) =~= out@);
            assert(out@ + note_lines(day@, k as int + 1) =~= before + note_lines(
                day@,
                k as int,
            ));
        }
        k += 1;
    }
    proof {
        assert(note_lines(day@, n as int) =~= Seq::<char>::empty());
        assert(out@ =~= old(out)@ + notes_text(day@));
    }
}

/// The textual summary of a day: the priorities, log and notes sections in
/// that order, each with an explicit placeholder when empty.
pub fn render_day(day: &Day) -> (r: String)
    requires
        day.wf(),
    ensures
        r@ == day_text(day@),
{
    let mut out = String::new();
    push_priorities(&mut out, day);
    out.append("\n");
    push_log(&mut out, day);
    out.append("\n");
    push_notes(&mut out, day);
    proof {
        assert(out@ =~= day_text(day@));
    }
    out
}

} // verus!
