//! The records of the index as values: what putting a note in and taking one
//! out do to them, and what each query returns of them.

use crate::date::{Date, DateRange};
use crate::model::{
    LogEntryView, NoteMetaView, NoteView, ParsedNoteView, TagResultView, TaskFilterView,
    TaskMentionView, TaskView,
};
use crate::order::{sorted_by_key, values_of};
use crate::text::{contains_text, lowercased, text_before};
use vstd::prelude::*;

verus! {

/// The records without that of the note `id`.
pub open spec fn without_note(recs: Seq<ParsedNoteView>, id: Seq<char>) -> Seq<ParsedNoteView> {
    recs.filter(|r: ParsedNoteView| r.note.id != id)
}

/// The records with `parsed` in place of what they held of its note.
pub open spec fn with_note(recs: Seq<ParsedNoteView>, parsed: ParsedNoteView) -> Seq<
    ParsedNoteView,
> {
    without_note(recs, parsed.note.id).push(parsed)
}

/// No two records are of the same note.
pub open spec fn distinct_notes(recs: Seq<ParsedNoteView>) -> bool {
    forall|i: int, j: int|
        0 <= i < j < recs.len() ==> (#[trigger] recs[i]).note.id != (#[trigger] recs[j]).note.id
}

/// Whether the records hold the note `id`.
pub open spec fn has_note(recs: Seq<ParsedNoteView>, id: Seq<char>) -> bool {
    exists|i: int| 0 <= i < recs.len() && (#[trigger] recs[i]).note.id == id
}

/// The note `id`, as the last record of it holds it.
pub open spec fn note_with_id(recs: Seq<ParsedNoteView>, id: Seq<char>) -> Option<NoteView>
    decreases recs.len(),
{
    if recs.len() == 0 {
        None
    } else if recs.last().note.id == id {
        Some(recs.last().note)
    } else {
        note_with_id(recs.drop_last(), id)
    }
}

/// The tasks of all records, in the order of the records.
pub open spec fn all_tasks(recs: Seq<ParsedNoteView>) -> Seq<TaskView> {
    recs.map_values(|r: ParsedNoteView| r.tasks).flatten()
}

/// The log entries of all records, in the order of the records.
pub open spec fn all_log_entries(recs: Seq<ParsedNoteView>) -> Seq<LogEntryView> {
    recs.map_values(|r: ParsedNoteView| r.log_entries).flatten()
}

/// The mentions of all records, in the order of the records.
pub open spec fn all_mentions(recs: Seq<ParsedNoteView>) -> Seq<TaskMentionView> {
    recs.map_values(|r: ParsedNoteView| r.mentions).flatten()
}

/// A task behind `tasks[i]` has the identifier of `tasks[i]`.
pub open spec fn shadowed(tasks: Seq<TaskView>, i: int) -> bool {
    exists|j: int| i < j < tasks.len() && (#[trigger] tasks[j]).id == tasks[i].id
}

/// The tasks from `i` on that no later task replaces.
pub open spec fn live_from(tasks: Seq<TaskView>, i: int) -> Seq<TaskView>
    decreases tasks.len() - i,
{
    if i < 0 || i >= tasks.len() {
        Seq::empty()
    } else if shadowed(tasks, i) {
        live_from(tasks, i + 1)
    } else {
        seq![tasks[i]] + live_from(tasks, i + 1)
    }
}

/// The tasks of the index: of tasks with one identifier, the one that was
/// put in last.
pub open spec fn live_tasks(recs: Seq<ParsedNoteView>) -> Seq<TaskView> {
    live_from(all_tasks(recs), 0)
}

/// The last of `tasks` with the identifier `id`.
pub open spec fn task_with_id(tasks: Seq<TaskView>, id: Seq<char>) -> Option<TaskView>
    decreases tasks.len(),
{
    if tasks.len() == 0 {
        None
    } else if tasks.last().id == id {
        Some(tasks.last())
    } else {
        task_with_id(tasks.drop_last(), id)
    }
}

/// Every tag of `wanted` is among `tags`.
pub open spec fn carries_all(tags: Seq<Seq<char>>, wanted: Seq<Seq<char>>) -> bool {
    forall|k: int| 0 <= k < wanted.len() ==> tags.contains(#[trigger] wanted[k])
}

/// The lower-case `needle` occurs in the lower-case title of the task, or
/// in its lower-case description.
pub open spec fn names_text(task: TaskView, needle: Seq<char>) -> bool {
    ||| contains_text(lowercased(task.title), needle)
    ||| (task.description_md is Some && contains_text(
        lowercased(task.description_md->0),
        needle,
    ))
}

/// The task was updated on `date` or later, or closed on `date` or later.
pub open spec fn touched_since(task: TaskView, date: Date) -> bool {
    ||| date.not_after(task.updated_at.date)
    ||| (task.closed_at is Some && date.not_after(task.closed_at->0.date))
}

/// The lower-case form of the text that a filter searches for.
pub open spec fn needle_of(filter: TaskFilterView) -> Option<Seq<char>> {
    match filter.text_search {
        Some(text) => Some(lowercased(text)),
        None => None,
    }
}

/// The task meets every demand of the filter: its status, all its tags, its
/// text wherever letters are of either case, and its date.
pub open spec fn task_matches(filter: TaskFilterView, task: TaskView) -> bool {
    &&& (filter.status is Some ==> task.status == filter.status->0)
    &&& carries_all(task.tags, filter.tags)
    &&& (filter.text_search is Some ==> names_text(task, lowercased(filter.text_search->0)))
    &&& (filter.touched_since is Some ==> touched_since(task, filter.touched_since->0))
}

/// The tasks of the index that meet the filter, in the order of the index.
pub open spec fn tasks_matching(recs: Seq<ParsedNoteView>, filter: TaskFilterView) -> Seq<
    TaskView,
> {
    live_tasks(recs).filter(|t: TaskView| task_matches(filter, t))
}

/// The test whether a text is `key`.
pub open spec fn is_key(key: Seq<char>) -> spec_fn(Seq<char>) -> bool {
    |k: Seq<char>| k == key
}

/// How often `key` stands among `keys`.
pub open spec fn occurrences(keys: Seq<Seq<char>>, key: Seq<char>) -> nat {
    keys.filter(is_key(key)).len()
}

/// `item`, `n` times.
pub open spec fn repeated<T>(item: T, n: nat) -> Seq<T> {
    Seq::new(n, |i: int| item)
}

/// The log entries that name the task `id`, each as often as it names it.
pub open spec fn entries_naming(entries: Seq<LogEntryView>, id: Seq<char>) -> Seq<LogEntryView> {
    entries.map_values(|e: LogEntryView| repeated(e, occurrences(e.task_ids, id))).flatten()
}

/// The mentions of the task `id`.
pub open spec fn mentions_naming(mentions: Seq<TaskMentionView>, id: Seq<char>) -> Seq<
    TaskMentionView,
> {
    mentions.filter(|m: TaskMentionView| m.task_id == id)
}

/// The tasks that carry `tag`, each as often as it carries it.
pub open spec fn tasks_tagged(tasks: Seq<TaskView>, tag: Seq<char>) -> Seq<TaskView> {
    tasks.map_values(|t: TaskView| repeated(t, occurrences(t.tags, tag))).flatten()
}

/// The log entries that carry `tag`, each as often as it carries it.
pub open spec fn entries_tagged(entries: Seq<LogEntryView>, tag: Seq<char>) -> Seq<LogEntryView> {
    entries.map_values(|e: LogEntryView| repeated(e, occurrences(e.tags, tag))).flatten()
}

/// The tasks and log entries of the index that carry `tag`.
pub open spec fn items_tagged(recs: Seq<ParsedNoteView>, tag: Seq<char>) -> TagResultView {
    TagResultView {
        tag,
        tasks: tasks_tagged(live_tasks(recs), tag),
        log_entries: entries_tagged(all_log_entries(recs), tag),
    }
}

/// The note of the record is dated within the range.
pub open spec fn dated_within(r: ParsedNoteView, range: DateRange) -> bool {
    r.note.date is Some && range.contains(r.note.date->0)
}

/// The notes that are dated within the range, each with the ordinal of its
/// date, in the order of the index.
pub open spec fn notes_dated_within(recs: Seq<ParsedNoteView>, range: DateRange) -> Seq<
    (int, NoteView),
> {
    recs.filter(|r: ParsedNoteView| dated_within(r, range)).map_values(
        |r: ParsedNoteView| (r.note.date->0.ordinal(), r.note),
    )
}

/// The notes that are dated within the range, from the earliest to the
/// latest; notes of one day in the order of the index.
pub open spec fn notes_in_range(recs: Seq<ParsedNoteView>, range: DateRange) -> Seq<NoteMetaView> {
    values_of(sorted_by_key(notes_dated_within(recs, range))).map_values(|n: NoteView| n.meta())
}

/// The tags of the tasks, one sequence behind the other.
pub open spec fn tags_of_tasks(tasks: Seq<TaskView>) -> Seq<Seq<char>> {
    tasks.map_values(|t: TaskView| t.tags).flatten()
}

/// The tags of the log entries, one sequence behind the other.
pub open spec fn tags_of_entries(entries: Seq<LogEntryView>) -> Seq<Seq<char>> {
    entries.map_values(|e: LogEntryView| e.tags).flatten()
}

/// Every tag that a task or a log entry of the index carries, as often as
/// it is carried.
pub open spec fn carried_tags(recs: Seq<ParsedNoteView>) -> Seq<Seq<char>> {
    tags_of_tasks(live_tasks(recs)) + tags_of_entries(all_log_entries(recs))
}

/// Each text comes before the next one.
pub open spec fn strictly_ascending(texts: Seq<Seq<char>>) -> bool {
    forall|i: int, j: int|
        0 <= i < j < texts.len() ==> text_before(#[trigger] texts[i], #[trigger] texts[j])
}

/// `tags` lists, in lexicographic order and each once, the tags that the
/// index carries.
pub open spec fn lists_tags(recs: Seq<ParsedNoteView>, tags: Seq<Seq<char>>) -> bool {
    &&& strictly_ascending(tags)
    &&& forall|tag: Seq<char>| #[trigger] tags.contains(tag) <==> carried_tags(recs).contains(tag)
}

pub proof fn lemma_all_tasks_push(recs: Seq<ParsedNoteView>, r: ParsedNoteView)
    ensures
        all_tasks(recs.push(r)) == all_tasks(recs) + r.tasks,
        all_log_entries(recs.push(r)) == all_log_entries(recs) + r.log_entries,
        all_mentions(recs.push(r)) == all_mentions(recs) + r.mentions,
{
    let f = |r: ParsedNoteView| r.tasks;
    assert(recs.push(r).map_values(f) =~= recs.map_values(f).push(r.tasks));
    recs.map_values(f).lemma_flatten_push(r.tasks);
    let g = |r: ParsedNoteView| r.log_entries;
    assert(recs.push(r).map_values(g) =~= recs.map_values(g).push(r.log_entries));
    recs.map_values(g).lemma_flatten_push(r.log_entries);
    let h = |r: ParsedNoteView| r.mentions;
    assert(recs.push(r).map_values(h) =~= recs.map_values(h).push(r.mentions));
    recs.map_values(h).lemma_flatten_push(r.mentions);
}

pub proof fn lemma_all_tasks_empty()
    ensures
        all_tasks(Seq::empty()) == Seq::<TaskView>::empty(),
        all_log_entries(Seq::empty()) == Seq::<LogEntryView>::empty(),
        all_mentions(Seq::empty()) == Seq::<TaskMentionView>::empty(),
{
    let e = Seq::<ParsedNoteView>::empty();
    assert(e.map_values(|r: ParsedNoteView| r.tasks) =~= Seq::<Seq<TaskView>>::empty());
    assert(e.map_values(|r: ParsedNoteView| r.log_entries) =~= Seq::<Seq<LogEntryView>>::empty());
    assert(e.map_values(|r: ParsedNoteView| r.mentions) =~= Seq::<Seq<TaskMentionView>>::empty());
    assert(Seq::<Seq<TaskView>>::empty().flatten() =~= Seq::<TaskView>::empty());
    assert(Seq::<Seq<LogEntryView>>::empty().flatten() =~= Seq::<LogEntryView>::empty());
    assert(Seq::<Seq<TaskMentionView>>::empty().flatten() =~= Seq::<TaskMentionView>::empty());
}

/// The note that the records hold for `id` has that identifier, and the
/// records hold one exactly where one of them is of the note `id`.
pub proof fn lemma_note_with_id(recs: Seq<ParsedNoteView>, id: Seq<char>)
    ensures
        note_with_id(recs, id) is Some <==> has_note(recs, id),
        note_with_id(recs, id) matches Some(note) ==> note.id == id && exists|k: int|
            0 <= k < recs.len() && (#[trigger] recs[k]).note == note,
    decreases recs.len(),
{
    if recs.len() > 0 {
        let head = recs.drop_last();
        lemma_note_with_id(head, id);
        if recs.last().note.id == id {
            assert(recs[recs.len() - 1].note.id == id);
        } else {
            if has_note(head, id) {
                let k = choose|k: int| 0 <= k < head.len() && (#[trigger] head[k]).note.id == id;
                assert(recs[k].note.id == id);
            }
            if has_note(recs, id) {
                let k = choose|k: int| 0 <= k < recs.len() && (#[trigger] recs[k]).note.id == id;
                assert(head[k].note.id == id);
            }
            if note_with_id(head, id) is Some {
                let note = note_with_id(head, id)->0;
                let k = choose|k: int| 0 <= k < head.len() && (#[trigger] head[k]).note == note;
                assert(recs[k].note == note);
            }
        }
    }
}

/// Records of which none is of the note `id` stay as they are without it.
pub proof fn lemma_without_absent_note(recs: Seq<ParsedNoteView>, id: Seq<char>)
    requires
        !has_note(recs, id),
    ensures
        without_note(recs, id) == recs,
    decreases recs.len(),
{
    let p = |r: ParsedNoteView| r.note.id != id;
    if recs.len() == 0 {
        reveal(Seq::filter);
    } else {
        let head = recs.drop_last();
        assert(!has_note(head, id)) by {
            if has_note(head, id) {
                let k = choose|k: int| 0 <= k < head.len() && (#[trigger] head[k]).note.id == id;
                assert(recs[k].note.id == id);
            }
        }
        lemma_without_absent_note(head, id);
        assert(recs[recs.len() - 1].note.id != id);
        head.lemma_filter_push(recs.last(), p);
        assert(head.push(recs.last()) =~= recs);
    }
}

/// The records without the note `id` hold no record of it, and every other
/// record that was there.
pub proof fn lemma_without_note_holds(recs: Seq<ParsedNoteView>, id: Seq<char>)
    ensures
        !has_note(without_note(recs, id), id),
        forall|r: ParsedNoteView|
            #[trigger] without_note(recs, id).contains(r) <==> (recs.contains(r) && r.note.id
                != id),
        without_note(recs, id).len() <= recs.len(),
{
    let p = |r: ParsedNoteView| r.note.id != id;
    recs.lemma_filter_len(p);
    let out = without_note(recs, id);
    if has_note(out, id) {
        let k = choose|k: int| 0 <= k < out.len() && (#[trigger] out[k]).note.id == id;
        recs.lemma_filter_pred(p, k);
    }
    assert forall|r: ParsedNoteView| #[trigger] out.contains(r) <==> (recs.contains(r) && r.note.id
        != id) by {
        if out.contains(r) {
            let k = choose|k: int| 0 <= k < out.len() && out[k] == r;
            recs.lemma_filter_pred(p, k);
            recs.lemma_filter_contains_rev(p, r);
        }
        if recs.contains(r) && r.note.id != id {
            let k = choose|k: int| 0 <= k < recs.len() && recs[k] == r;
            recs.lemma_filter_contains(p, k);
        }
    }
}

/// Taking out a record of the note `id` changes nothing of the records
/// without that note.
pub proof fn lemma_without_note_remove(recs: Seq<ParsedNoteView>, id: Seq<char>, i: int)
    requires
        0 <= i < recs.len(),
        recs[i].note.id == id,
    ensures
        without_note(recs.remove(i), id) == without_note(recs, id),
{
    let p = |r: ParsedNoteView| r.note.id != id;
    let a = recs.take(i);
    let b = recs.skip(i + 1);
    assert(recs =~= a.push(recs[i]) + b);
    assert(recs.remove(i) =~= a + b);
    Seq::filter_distributes_over_add(a.push(recs[i]), b, p);
    Seq::filter_distributes_over_add(a, b, p);
    a.lemma_filter_push(recs[i], p);
}

/// Taking out records keeps the notes distinct.
pub proof fn lemma_without_note_distinct(recs: Seq<ParsedNoteView>, id: Seq<char>)
    requires
        distinct_notes(recs),
    ensures
        distinct_notes(without_note(recs, id)),
    decreases recs.len(),
{
    let p = |r: ParsedNoteView| r.note.id != id;
    if recs.len() == 0 {
        reveal(Seq::filter);
    } else {
        let head = recs.drop_last();
        assert(distinct_notes(head)) by {
            assert forall|i: int, j: int| 0 <= i < j < head.len() implies (#[trigger] head[i]).note.id
                != (#[trigger] head[j]).note.id by {
                assert(head[i] == recs[i] && head[j] == recs[j]);
            }
        }
        lemma_without_note_distinct(head, id);
        head.lemma_filter_push(recs.last(), p);
        assert(head.push(recs.last()) =~= recs);
        let out = without_note(head, id);
        if p(recs.last()) {
            lemma_without_note_holds(head, id);
            let all = out.push(recs.last());
            assert forall|i: int, j: int| 0 <= i < j < all.len() implies (#[trigger] all[i]).note.id
                != (#[trigger] all[j]).note.id by {
                if j == out.len() {
                    assert(out.contains(out[i]));
                    assert(head.contains(out[i]));
                    let k = choose|k: int| 0 <= k < head.len() && head[k] == out[i];
                    assert(recs[k] == out[i]);
                    assert(recs[k].note.id != recs[recs.len() - 1].note.id);
                } else {
                    assert(all[i] == out[i] && all[j] == out[j]);
                }
            }
        }
    }
}

/// Putting a note in keeps the notes distinct.
pub proof fn lemma_with_note_distinct(recs: Seq<ParsedNoteView>, parsed: ParsedNoteView)
    requires
        distinct_notes(recs),
    ensures
        distinct_notes(with_note(recs, parsed)),
{
    let out = without_note(recs, parsed.note.id);
    lemma_without_note_distinct(recs, parsed.note.id);
    lemma_without_note_holds(recs, parsed.note.id);
    let all = out.push(parsed);
    assert forall|i: int, j: int| 0 <= i < j < all.len() implies (#[trigger] all[i]).note.id != (
    #[trigger] all[j]).note.id by {
        if j == out.len() {
            assert(all[i] == out[i]);
        } else {
            assert(all[i] == out[i] && all[j] == out[j]);
        }
    }
}

/// Flattening the images of a sequence with one more item adds the image of
/// that item.
pub proof fn lemma_flat_map_push<A, B>(s: Seq<A>, x: A, f: spec_fn(A) -> Seq<B>)
    ensures
        s.push(x).map_values(f).flatten() == s.map_values(f).flatten() + f(x),
{
    assert(s.push(x).map_values(f) =~= s.map_values(f).push(f(x)));
    s.map_values(f).lemma_flatten_push(f(x));
}

/// The images of no items flatten to nothing.
pub proof fn lemma_flat_map_empty<A, B>(f: spec_fn(A) -> Seq<B>)
    ensures
        Seq::<A>::empty().map_values(f).flatten() == Seq::<B>::empty(),
{
    assert(Seq::<A>::empty().map_values(f) =~= Seq::<Seq<B>>::empty());
    assert(Seq::<Seq<B>>::empty().flatten() =~= Seq::<B>::empty());
}

/// The notes within the range with one more record are those without it,
/// and its note where that is dated within the range.
pub proof fn lemma_notes_dated_within_push(
    recs: Seq<ParsedNoteView>,
    r: ParsedNoteView,
    range: DateRange,
)
    ensures
        notes_dated_within(recs.push(r), range) == if dated_within(r, range) {
            notes_dated_within(recs, range).push((r.note.date->0.ordinal(), r.note))
        } else {
            notes_dated_within(recs, range)
        },
{
    let p = |r: ParsedNoteView| dated_within(r, range);
    let f = |r: ParsedNoteView| (r.note.date->0.ordinal(), r.note);
    recs.lemma_filter_push(r, p);
    if dated_within(r, range) {
        assert(recs.filter(p).push(r).map_values(f) =~= recs.filter(p).map_values(f).push(f(r)));
    }
}

} // verus!
