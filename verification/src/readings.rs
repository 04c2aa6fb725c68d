//! What holds of every reading of a note: how its tasks are stamped, and
//! that every mention is backed by a log entry of the same note.

use crate::date::DateTime;
use crate::model::{LogEntryView, NoteView, TaskMentionView, TaskStatus, TaskView};
use crate::parser::{
    excerpt, lemma_continuation_len_bound, log_entry_id, log_text, parsed_note, scan, step,
    task_refs, MAX_EXCERPT, Section,
};
use crate::text::{decimal, digit_char, is_digit, lines};
use vstd::prelude::*;

verus! {

/// The task is one that the parser makes at `now` from the note `note_id`:
/// it is made and updated at `now`; it is open and not closed, or done and
/// closed at `now`; it has no description; it names its note.
pub open spec fn task_is_stamped(task: TaskView, note_id: Seq<char>, now: DateTime) -> bool {
    &&& task.created_at == now
    &&& task.updated_at == now
    &&& (task.status == TaskStatus::Open || task.status == TaskStatus::Done)
    &&& (task.status == TaskStatus::Done <==> task.closed_at == Some(now))
    &&& (task.status == TaskStatus::Open <==> task.closed_at is None)
    &&& task.description_md is None
    &&& task.source_note_id == Some(note_id)
}

/// The log entry is one of the note `note_id`: it names its note, and its
/// identifier is made of the note's and of its line number, which is no
/// line before the first.
pub open spec fn entry_is_placed(entry: LogEntryView, note_id: Seq<char>) -> bool {
    &&& entry.note_id == note_id
    &&& entry.line_number >= 1
    &&& entry.id == log_entry_id(note_id, entry.line_number)
}

/// The mention is backed by one of `entries`: it names that entry and its
/// note, the entry names the task of the mention, and its excerpt is of 121
/// characters at most.
pub open spec fn mention_is_backed(
    mention: TaskMentionView,
    entries: Seq<LogEntryView>,
    note_id: Seq<char>,
) -> bool {
    &&& mention.note_id == note_id
    &&& mention.excerpt.len() <= MAX_EXCERPT + 1
    &&& exists|j: int|
        0 <= j < entries.len() && mention.log_entry_id == Some((#[trigger] entries[j]).id)
            && entries[j].task_ids.contains(mention.task_id)
}

/// What the parser finds from line `i` on is stamped, placed and backed.
pub proof fn lemma_scan_is_sound(
    lines: Seq<Seq<char>>,
    i: int,
    section: Section,
    note_id: Seq<char>,
    now: DateTime,
)
    requires
        0 <= i,
    ensures
        forall|k: int|
            0 <= k < scan(lines, i, section, note_id, now).tasks.len() ==> task_is_stamped(
                #[trigger] scan(lines, i, section, note_id, now).tasks[k],
                note_id,
                now,
            ),
        forall|k: int|
            0 <= k < scan(lines, i, section, note_id, now).log_entries.len() ==> entry_is_placed(
                #[trigger] scan(lines, i, section, note_id, now).log_entries[k],
                note_id,
            ),
        forall|k: int|
            0 <= k < scan(lines, i, section, note_id, now).mentions.len() ==> mention_is_backed(
                #[trigger] scan(lines, i, section, note_id, now).mentions[k],
                scan(lines, i, section, note_id, now).log_entries,
                note_id,
            ),
    decreases lines.len() - i,
{
    let all = scan(lines, i, section, note_id, now);
    if i < lines.len() {
        let here = step(lines, i, section, note_id, now);
        lemma_continuation_len_bound(lines, i + 1);
        lemma_scan_is_sound(lines, here.next, here.section, note_id, now);
        let rest = scan(lines, here.next, here.section, note_id, now);
        assert(all.tasks == here.items.tasks + rest.tasks);
        assert(all.log_entries == here.items.log_entries + rest.log_entries);
        assert(all.mentions == here.items.mentions + rest.mentions);
        assert forall|k: int| 0 <= k < all.tasks.len() implies task_is_stamped(
            #[trigger] all.tasks[k],
            note_id,
            now,
        ) by {
            if k >= here.items.tasks.len() {
                assert(all.tasks[k] == rest.tasks[k - here.items.tasks.len()]);
            }
        }
        assert forall|k: int| 0 <= k < all.log_entries.len() implies entry_is_placed(
            #[trigger] all.log_entries[k],
            note_id,
        ) by {
            if k >= here.items.log_entries.len() {
                assert(all.log_entries[k] == rest.log_entries[k - here.items.log_entries.len()]);
            }
        }
        assert forall|k: int| 0 <= k < all.mentions.len() implies mention_is_backed(
            #[trigger] all.mentions[k],
            all.log_entries,
            note_id,
        ) by {
            let m = all.mentions[k];
            if k < here.items.mentions.len() {
                let extras = crate::parser::continuation(lines, i + 1);
                let combined = log_text(lines[i], extras);
                let refs = task_refs(combined, 0);
                assert(m == here.items.mentions[k]);
                assert(m.task_id == refs[k]);
                assert(here.items.log_entries.len() == 1);
                assert(all.log_entries[0] == here.items.log_entries[0]);
                assert(all.log_entries[0].task_ids == refs);
                assert(refs.contains(refs[k]));
                assert(m.excerpt == excerpt(combined));
            } else {
                let r = k - here.items.mentions.len();
                assert(m == rest.mentions[r]);
                assert(mention_is_backed(rest.mentions[r], rest.log_entries, note_id));
                let j = choose|j: int|
                    0 <= j < rest.log_entries.len() && m.log_entry_id == Some(
                        (#[trigger] rest.log_entries[j]).id,
                    ) && rest.log_entries[j].task_ids.contains(m.task_id);
                let shifted = j + here.items.log_entries.len();
                assert(all.log_entries[shifted] == rest.log_entries[j]);
            }
        }
    }
}

/// Every task of a reading is stamped with the time of the reading, every
/// log entry is placed in the note that was read, and every mention is
/// backed by a log entry of the reading.
pub proof fn lemma_reading_is_sound(note: NoteView, now: DateTime)
    ensures
        parsed_note(note, now).note == note,
        forall|k: int|
            0 <= k < parsed_note(note, now).tasks.len() ==> task_is_stamped(
                #[trigger] parsed_note(note, now).tasks[k],
                note.id,
                now,
            ),
        forall|k: int|
            0 <= k < parsed_note(note, now).log_entries.len() ==> entry_is_placed(
                #[trigger] parsed_note(note, now).log_entries[k],
                note.id,
            ),
        forall|k: int|
            0 <= k < parsed_note(note, now).mentions.len() ==> mention_is_backed(
                #[trigger] parsed_note(note, now).mentions[k],
                parsed_note(note, now).log_entries,
                note.id,
            ),
{
    lemma_scan_is_sound(lines(note.content), 0, Section::Other, note.id, now);
}

/// The digit that a character stands for.
pub open spec fn digit_value(c: char) -> nat {
    if c == '1' {
        1
    } else if c == '2' {
        2
    } else if c == '3' {
        3
    } else if c == '4' {
        4
    } else if c == '5' {
        5
    } else if c == '6' {
        6
    } else if c == '7' {
        7
    } else if c == '8' {
        8
    } else if c == '9' {
        9
    } else {
        0
    }
}

/// The number that decimal digits state.
pub open spec fn numeral(digits: Seq<char>) -> nat
    decreases digits.len(),
{
    if digits.len() == 0 {
        0
    } else {
        numeral(digits.drop_last()) * 10 + digit_value(digits.last())
    }
}

/// The decimal digits of a number state that number, so different numbers
/// have different digits.
pub proof fn lemma_decimal_states_number(n: nat)
    ensures
        numeral(decimal(n)) == n,
        decimal(n).len() >= 1,
    decreases n,
{
    if n < 10 {
        let d = decimal(n);
        assert(d.len() == 1);
        assert(d.last() == digit_char(n));
        assert(d.drop_last() =~= Seq::<char>::empty());
        assert(numeral(d.drop_last()) == 0);
    } else {
        lemma_decimal_states_number(n / 10);
        let d = decimal(n);
        assert(d.drop_last() =~= decimal(n / 10));
        assert(d.last() == digit_char(n % 10));
    }
}

/// The decimal digits of a number are digits.
pub proof fn lemma_decimal_is_digits(n: nat)
    ensures
        forall|i: int| 0 <= i < decimal(n).len() ==> is_digit(#[trigger] decimal(n)[i]),
    decreases n,
{
    if n >= 10 {
        lemma_decimal_is_digits(n / 10);
        let d = decimal(n);
        assert forall|i: int| 0 <= i < d.len() implies is_digit(#[trigger] d[i]) by {
            if i < d.len() - 1 {
                assert(d[i] == decimal(n / 10)[i]);
            }
        }
    }
}

/// The identifier of a log entry names its note and its line: two entries
/// with one identifier are of one note and stand at one line.
pub proof fn lemma_entry_id_names_note_and_line(
    first_note: Seq<char>,
    a: nat,
    second_note: Seq<char>,
    b: nat,
)
    requires
        log_entry_id(first_note, a) == log_entry_id(second_note, b),
    ensures
        first_note == second_note,
        a == b,
{
    lemma_decimal_states_number(a);
    lemma_decimal_states_number(b);
    lemma_decimal_is_digits(a);
    lemma_decimal_is_digits(b);
    let x = log_entry_id(first_note, a);
    let y = log_entry_id(second_note, b);
    let da = decimal(a);
    let db = decimal(b);
    let p = first_note.len() as int;
    let q = second_note.len() as int;
    assert(x.len() == p + 1 + da.len());
    assert(y.len() == q + 1 + db.len());
    assert(x[p] == ':');
    assert(y[q] == ':');
    if p < q {
        assert(x[q] == da[q - p - 1]);
    } else if q < p {
        assert(y[p] == db[p - q - 1]);
    }
    assert(p == q);
    assert(first_note =~= x.subrange(0, p));
    assert(second_note =~= y.subrange(0, q));
    assert(da =~= x.subrange(p + 1, x.len() as int));
    assert(db =~= y.subrange(q + 1, y.len() as int));
}

/// Log entries of one note at different lines have different identifiers.
pub proof fn lemma_entry_ids_differ(note_id: Seq<char>, a: nat, b: nat)
    requires
        a != b,
    ensures
        log_entry_id(note_id, a) != log_entry_id(note_id, b),
{
    if log_entry_id(note_id, a) == log_entry_id(note_id, b) {
        lemma_entry_id_names_note_and_line(note_id, a, note_id, b);
    }
}

/// The log entries that the parser finds from line `i` on stand at lines
/// behind `i`, each at a later line than the one before it.
pub proof fn lemma_scan_lines_ascend(
    lines: Seq<Seq<char>>,
    i: int,
    section: Section,
    note_id: Seq<char>,
    now: DateTime,
)
    requires
        0 <= i,
    ensures
        forall|k: int|
            0 <= k < scan(lines, i, section, note_id, now).log_entries.len() ==> i < (
            #[trigger] scan(lines, i, section, note_id, now).log_entries[k]).line_number
                <= lines.len(),
        forall|a: int, b: int|
            0 <= a < b < scan(lines, i, section, note_id, now).log_entries.len() ==> (
            #[trigger] scan(lines, i, section, note_id, now).log_entries[a]).line_number < (
            #[trigger] scan(lines, i, section, note_id, now).log_entries[b]).line_number,
    decreases lines.len() - i,
{
    let all = scan(lines, i, section, note_id, now);
    if i < lines.len() {
        let here = step(lines, i, section, note_id, now);
        lemma_continuation_len_bound(lines, i + 1);
        lemma_scan_lines_ascend(lines, here.next, here.section, note_id, now);
        let rest = scan(lines, here.next, here.section, note_id, now);
        let n = here.items.log_entries.len();
        assert(all.log_entries == here.items.log_entries + rest.log_entries);
        assert forall|k: int| 0 <= k < all.log_entries.len() implies i < (
        #[trigger] all.log_entries[k]).line_number <= lines.len() by {
            if k >= n {
                assert(all.log_entries[k] == rest.log_entries[k - n]);
            }
        }
        assert forall|a: int, b: int| 0 <= a < b < all.log_entries.len() implies (
        #[trigger] all.log_entries[a]).line_number < (#[trigger] all.log_entries[b]).line_number by {
            assert(all.log_entries[b] == rest.log_entries[b - n]);
            if a >= n {
                assert(all.log_entries[a] == rest.log_entries[a - n]);
            }
        }
    }
}

/// No two log entries of a reading have the same identifier.
pub proof fn lemma_reading_has_distinct_entries(note: NoteView, now: DateTime)
    ensures
        forall|a: int, b: int|
            0 <= a < b < parsed_note(note, now).log_entries.len() ==> (#[trigger] parsed_note(
                note,
                now,
            ).log_entries[a]).id != (#[trigger] parsed_note(note, now).log_entries[b]).id,
{
    let entries = parsed_note(note, now).log_entries;
    lemma_scan_lines_ascend(lines(note.content), 0, Section::Other, note.id, now);
    lemma_scan_is_sound(lines(note.content), 0, Section::Other, note.id, now);
    assert forall|a: int, b: int| 0 <= a < b < entries.len() implies (#[trigger] entries[a]).id != (
    #[trigger] entries[b]).id by {
        assert(entry_is_placed(entries[a], note.id));
        assert(entry_is_placed(entries[b], note.id));
        lemma_entry_ids_differ(note.id, entries[a].line_number, entries[b].line_number);
    }
}

} // verus!
