//! What holds of the index whatever it holds: putting a note in and taking
//! it out, putting it in twice, the tags that are left, the bounds of a
//! range of dates, and the demands of a filter.

use crate::date::{Date, DateRange};
use crate::domain::{
    daily_opened, daily_template, day_range, found_after, holds_note_of_day, note_opened,
    note_written, opened_daily, path_placed, read_indexed_and_found, reading_put_in,
    DomainError,
};
use crate::date::formatted_date;
use crate::vault::full_year_pattern;
use crate::vault::VaultEvent;
use crate::model::{
    LogEntryView, Note, NoteMetaView, NoteView, ParsedNoteView, TaskFilterView, TaskMentionView,
    TaskView,
};
use crate::order::{lemma_sorted_by_key, sorted_by_key, values_of};
use crate::records::{
    all_log_entries, all_mentions, all_tasks, carried_tags, dated_within, distinct_notes, has_note,
    lemma_all_tasks_empty, lemma_flat_map_empty, lemma_flat_map_push, lemma_note_with_id,
    lemma_with_note_distinct, lemma_without_absent_note, lemma_without_note_holds, lists_tags,
    live_from, live_tasks, mentions_naming, note_with_id, notes_dated_within, notes_in_range,
    occurrences, shadowed, strictly_ascending, tags_of_entries, tags_of_tasks, task_matches,
    task_with_id, tasks_matching, with_note, without_note,
};
use crate::summary::{keyed_by_count, lemma_first_appearances, tag_counts, top_tags, TOP_TAGS};
use crate::text::{lemma_text_order_total, text_before};
use vstd::prelude::*;

verus! {

/// A value is among the flattened images of a sequence where it is in the
/// image of one of its items.
pub proof fn lemma_flat_map_contains<A, B>(s: Seq<A>, f: spec_fn(A) -> Seq<B>, x: B)
    ensures
        s.map_values(f).flatten().contains(x) <==> exists|k: int|
            0 <= k < s.len() && #[trigger] f(s[k]).contains(x),
    decreases s.len(),
{
    if s.len() == 0 {
        lemma_flat_map_empty::<A, B>(f);
        assert(s =~= Seq::<A>::empty());
    } else {
        let t = s.drop_last();
        let last = s.last();
        assert(t.push(last) =~= s);
        lemma_flat_map_push(t, last, f);
        lemma_flat_map_contains(t, f, x);
        let flat_t = t.map_values(f).flatten();
        let flat = s.map_values(f).flatten();
        assert(flat == flat_t + f(last));
        if flat.contains(x) {
            let i = choose|i: int| 0 <= i < flat.len() && flat[i] == x;
            if i < flat_t.len() {
                assert(flat_t[i] == x);
                assert(flat_t.contains(x));
                let k = choose|k: int| 0 <= k < t.len() && #[trigger] f(t[k]).contains(x);
                assert(t[k] == s[k]);
                assert(f(s[k]).contains(x));
            } else {
                assert(f(last)[i - flat_t.len()] == x);
                assert(f(s[s.len() - 1]).contains(x));
            }
        }
        if exists|k: int| 0 <= k < s.len() && #[trigger] f(s[k]).contains(x) {
            let k = choose|k: int| 0 <= k < s.len() && #[trigger] f(s[k]).contains(x);
            if k < t.len() {
                assert(t[k] == s[k]);
                assert(f(t[k]).contains(x));
                assert(flat_t.contains(x));
                let i = choose|i: int| 0 <= i < flat_t.len() && flat_t[i] == x;
                assert(flat[i] == x);
            } else {
                let image = f(last);
                assert(image.contains(x));
                let j = choose|j: int| 0 <= j < image.len() && image[j] == x;
                assert(flat[flat_t.len() + j] == x);
            }
        }
    }
}

/// The live tasks from `i` on are the tasks from `i` on that no later task
/// replaces.
pub proof fn lemma_live_from_contains(tasks: Seq<TaskView>, i: int, x: TaskView)
    requires
        0 <= i <= tasks.len(),
    ensures
        live_from(tasks, i).contains(x) <==> exists|k: int|
            i <= k < tasks.len() && #[trigger] tasks[k] == x && !shadowed(tasks, k),
    decreases tasks.len() - i,
{
    if i < tasks.len() {
        lemma_live_from_contains(tasks, i + 1, x);
        let rest = live_from(tasks, i + 1);
        let here = live_from(tasks, i);
        if shadowed(tasks, i) {
            if exists|k: int| i <= k < tasks.len() && #[trigger] tasks[k] == x && !shadowed(tasks, k) {
                let k = choose|k: int|
                    i <= k < tasks.len() && #[trigger] tasks[k] == x && !shadowed(tasks, k);
                assert(i + 1 <= k);
            }
        } else {
            assert(here == seq![tasks[i]] + rest);
            if here.contains(x) {
                let j = choose|j: int| 0 <= j < here.len() && here[j] == x;
                if j == 0 {
                    assert(tasks[i] == x);
                } else {
                    assert(rest[j - 1] == x);
                    assert(rest.contains(x));
                    let k = choose|k: int|
                        i + 1 <= k < tasks.len() && #[trigger] tasks[k] == x && !shadowed(tasks, k);
                    assert(i <= k);
                }
            }
            if exists|k: int| i <= k < tasks.len() && #[trigger] tasks[k] == x && !shadowed(tasks, k) {
                let k = choose|k: int|
                    i <= k < tasks.len() && #[trigger] tasks[k] == x && !shadowed(tasks, k);
                if k == i {
                    assert(here[0] == x);
                } else {
                    assert(rest.contains(x));
                    let j = choose|j: int| 0 <= j < rest.len() && rest[j] == x;
                    assert(here[j + 1] == x);
                }
            }
        }
    }
}

/// Putting a note in and taking it out again leaves what the index held of
/// the other notes, and nothing else: no task, tag or mention of the note
/// stays behind. An index that did not hold the note is as it was before;
/// the empty index is empty again.
pub proof fn lemma_upsert_then_remove(recs: Seq<ParsedNoteView>, parsed: ParsedNoteView)
    ensures
        without_note(with_note(recs, parsed), parsed.note.id) == without_note(
            recs,
            parsed.note.id,
        ),
        !has_note(recs, parsed.note.id) ==> without_note(with_note(recs, parsed), parsed.note.id)
            == recs,
        recs.len() == 0 ==> {
            let after = without_note(with_note(recs, parsed), parsed.note.id);
            &&& after == Seq::<ParsedNoteView>::empty()
            &&& all_tasks(after).len() == 0
            &&& all_log_entries(after).len() == 0
            &&& all_mentions(after).len() == 0
            &&& carried_tags(after).len() == 0
        },
{
    let id = parsed.note.id;
    let kept = without_note(recs, id);
    let p = |r: ParsedNoteView| r.note.id != id;
    kept.lemma_filter_push(parsed, p);
    lemma_without_note_holds(recs, id);
    lemma_without_absent_note(kept, id);
    if !has_note(recs, id) {
        lemma_without_absent_note(recs, id);
    }
    if recs.len() == 0 {
        assert(!has_note(recs, id));
        assert(recs =~= Seq::<ParsedNoteView>::empty());
        lemma_all_tasks_empty();
        lemma_flat_map_empty::<TaskView, Seq<char>>(|t: TaskView| t.tags);
        lemma_flat_map_empty::<LogEntryView, Seq<char>>(|e: LogEntryView| e.tags);
        assert(live_from(Seq::<TaskView>::empty(), 0) =~= Seq::<TaskView>::empty());
    }
}

/// Putting the same note in twice leaves the index as putting it in once
/// does, so every query answers the same.
pub proof fn lemma_upsert_twice(recs: Seq<ParsedNoteView>, parsed: ParsedNoteView)
    ensures
        with_note(with_note(recs, parsed), parsed) == with_note(recs, parsed),
{
    lemma_upsert_then_remove(recs, parsed);
}

/// A task or a log entry of the record carries `tag`.
pub open spec fn record_carries(r: ParsedNoteView, tag: Seq<char>) -> bool {
    ||| exists|i: int| 0 <= i < r.tasks.len() && (#[trigger] r.tasks[i]).tags.contains(tag)
    ||| exists|j: int|
        0 <= j < r.log_entries.len() && (#[trigger] r.log_entries[j]).tags.contains(tag)
}

/// A tag that the index carries is carried by a task or a log entry of one
/// of its records.
pub proof fn lemma_carried_tag_has_record(recs: Seq<ParsedNoteView>, tag: Seq<char>)
    requires
        carried_tags(recs).contains(tag),
    ensures
        exists|k: int| 0 <= k < recs.len() && record_carries(#[trigger] recs[k], tag),
{
    let live = live_tasks(recs);
    let entries = all_log_entries(recs);
    let a = tags_of_tasks(live);
    let b = tags_of_entries(entries);
    let all = carried_tags(recs);
    let i = choose|i: int| 0 <= i < all.len() && all[i] == tag;
    if i < a.len() {
        assert(a[i] == tag);
        assert(a.contains(tag));
        lemma_flat_map_contains(live, |t: TaskView| t.tags, tag);
        let f = |t: TaskView| t.tags;
        let m = choose|m: int| 0 <= m < live.len() && #[trigger] f(live[m]).contains(tag);
        let task = live[m];
        assert(live.contains(task));
        lemma_live_from_contains(all_tasks(recs), 0, task);
        assert(all_tasks(recs).contains(task)) by {
            let n = choose|n: int|
                0 <= n < all_tasks(recs).len() && #[trigger] all_tasks(recs)[n] == task && !shadowed(
                    all_tasks(recs),
                    n,
                );
            assert(all_tasks(recs)[n] == task);
        }
        lemma_flat_map_contains(recs, |r: ParsedNoteView| r.tasks, task);
        let g = |r: ParsedNoteView| r.tasks;
        let k = choose|k: int| 0 <= k < recs.len() && #[trigger] g(recs[k]).contains(task);
        let held = recs[k].tasks;
        assert(held.contains(task));
        let q = choose|q: int| 0 <= q < held.len() && held[q] == task;
        assert(recs[k].tasks[q].tags.contains(tag));
        assert(record_carries(recs[k], tag));
    } else {
        assert(b[i - a.len()] == tag);
        assert(b.contains(tag));
        lemma_flat_map_contains(entries, |e: LogEntryView| e.tags, tag);
        let f = |e: LogEntryView| e.tags;
        let m = choose|m: int| 0 <= m < entries.len() && #[trigger] f(entries[m]).contains(tag);
        let entry = entries[m];
        assert(entries.contains(entry));
        lemma_flat_map_contains(recs, |r: ParsedNoteView| r.log_entries, entry);
        let g = |r: ParsedNoteView| r.log_entries;
        let k = choose|k: int| 0 <= k < recs.len() && #[trigger] g(recs[k]).contains(entry);
        let held = recs[k].log_entries;
        assert(held.contains(entry));
        let q = choose|q: int| 0 <= q < held.len() && held[q] == entry;
        assert(recs[k].log_entries[q].tags.contains(tag));
        assert(record_carries(recs[k], tag));
    }
}

/// Where only the note `id` holds tasks or log entries that carry `tag`,
/// the tag is gone once the note is taken out: no list of the tags of the
/// index holds it.
pub proof fn lemma_tag_pruned(
    recs: Seq<ParsedNoteView>,
    id: Seq<char>,
    tag: Seq<char>,
    listed: Seq<Seq<char>>,
)
    requires
        forall|k: int|
            0 <= k < recs.len() && (#[trigger] recs[k]).note.id != id ==> !record_carries(
                recs[k],
                tag,
            ),
        lists_tags(without_note(recs, id), listed),
    ensures
        !carried_tags(without_note(recs, id)).contains(tag),
        !listed.contains(tag),
{
    let after = without_note(recs, id);
    if carried_tags(after).contains(tag) {
        lemma_carried_tag_has_record(after, tag);
        let k = choose|k: int| 0 <= k < after.len() && record_carries(#[trigger] after[k], tag);
        lemma_without_note_holds(recs, id);
        assert(after.contains(after[k]));
        assert(recs.contains(after[k]));
        let m = choose|m: int| 0 <= m < recs.len() && recs[m] == after[k];
        assert(recs[m].note.id != id);
        assert(false);
    }
}

/// Both bounds of a range of dates lie within it, and no date before its
/// start or behind its end does.
pub proof fn lemma_range_bounds(range: DateRange, date: Date)
    ensures
        range.start.not_after(range.end) ==> range.contains(range.start) && range.contains(
            range.end,
        ),
        !range.start.not_after(date) ==> !range.contains(date),
        !date.not_after(range.end) ==> !range.contains(date),
        range.contains(date) <==> range.start.not_after(date) && date.not_after(range.end),
{
}

/// The notes that a range of dates selects are the notes of the index that
/// are dated within it, bounds included: each such note is listed, and
/// every note listed is such a note.
pub proof fn lemma_notes_in_range(recs: Seq<ParsedNoteView>, range: DateRange)
    ensures
        forall|k: int|
            0 <= k < recs.len() && dated_within(#[trigger] recs[k], range) ==> notes_in_range(
                recs,
                range,
            ).contains(recs[k].note.meta()),
        forall|m: NoteMetaView| #[trigger]
            notes_in_range(recs, range).contains(m) ==> m.date is Some && range.contains(
                m.date->0,
            ) && exists|k: int|
                0 <= k < recs.len() && dated_within(#[trigger] recs[k], range) && recs[k].note.meta()
                    == m,
{
    let p = |r: ParsedNoteView| dated_within(r, range);
    let f = |r: ParsedNoteView| (r.note.date->0.ordinal(), r.note);
    let kept = recs.filter(p);
    let dated = notes_dated_within(recs, range);
    let sorted = sorted_by_key(dated);
    let notes = values_of(sorted);
    let out = notes_in_range(recs, range);
    lemma_sorted_by_key(dated);
    assert forall|k: int| 0 <= k < recs.len() && dated_within(#[trigger] recs[k], range) implies out.contains(
        recs[k].note.meta(),
    ) by {
        recs.lemma_filter_contains(p, k);
        let a = choose|a: int| 0 <= a < kept.len() && kept[a] == recs[k];
        assert(dated[a] == f(recs[k]));
        assert(dated.contains(f(recs[k])));
        assert(sorted.contains(f(recs[k])));
        let b = choose|b: int| 0 <= b < sorted.len() && sorted[b] == f(recs[k]);
        assert(notes[b] == recs[k].note);
        assert(out[b] == recs[k].note.meta());
    }
    assert forall|m: NoteMetaView| #[trigger] out.contains(m) implies m.date is Some
        && range.contains(m.date->0) && exists|k: int|
        0 <= k < recs.len() && dated_within(#[trigger] recs[k], range) && recs[k].note.meta() == m by {
        let b = choose|b: int| 0 <= b < out.len() && out[b] == m;
        assert(notes[b].meta() == m);
        assert(sorted[b].1 == notes[b]);
        assert(sorted.contains(sorted[b]));
        assert(dated.contains(sorted[b]));
        let a = choose|a: int| 0 <= a < dated.len() && dated[a] == sorted[b];
        assert(dated[a] == f(kept[a]));
        recs.lemma_filter_pred(p, a);
        assert(kept.contains(kept[a]));
        recs.lemma_filter_contains_rev(p, kept[a]);
        let k = choose|k: int| 0 <= k < recs.len() && recs[k] == kept[a];
        assert(dated_within(recs[k], range) && recs[k].note.meta() == m);
    }
}

/// A query for tasks returns the tasks of the index that meet every demand
/// of its filter, and no others. With a status and a tag demanded, every
/// task returned has that status and carries that tag.
pub proof fn lemma_filter_conjunction(recs: Seq<ParsedNoteView>, filter: TaskFilterView)
    ensures
        forall|t: TaskView| #[trigger]
            tasks_matching(recs, filter).contains(t) <==> (live_tasks(recs).contains(t)
                && task_matches(filter, t)),
        forall|t: TaskView, k: int|
            #![trigger tasks_matching(recs, filter).contains(t), filter.tags[k]]
            tasks_matching(recs, filter).contains(t) && filter.status is Some && 0 <= k
                < filter.tags.len() ==> t.status == filter.status->0 && t.tags.contains(
                filter.tags[k],
            ),
{
    let p = |t: TaskView| task_matches(filter, t);
    let live = live_tasks(recs);
    let out = tasks_matching(recs, filter);
    assert forall|t: TaskView| #[trigger] out.contains(t) <==> (live.contains(t) && task_matches(
        filter,
        t,
    )) by {
        if out.contains(t) {
            let i = choose|i: int| 0 <= i < out.len() && out[i] == t;
            live.lemma_filter_pred(p, i);
            live.lemma_filter_contains_rev(p, t);
        }
        if live.contains(t) && task_matches(filter, t) {
            let i = choose|i: int| 0 <= i < live.len() && live[i] == t;
            live.lemma_filter_contains(p, i);
        }
    }
}

/// A filter that asks for nothing returns every task of the index.
pub proof fn lemma_filter_of_nothing(recs: Seq<ParsedNoteView>)
    ensures
        tasks_matching(recs, TaskFilterView::all()) == live_tasks(recs),
{
    let filter = TaskFilterView::all();
    let p = |t: TaskView| task_matches(filter, t);
    let live = live_tasks(recs);
    lemma_filter_keeps_all(live, p);
}

/// A filter that every item meets keeps the sequence as it is.
pub proof fn lemma_filter_keeps_all<A>(s: Seq<A>, p: spec_fn(A) -> bool)
    requires
        forall|i: int| 0 <= i < s.len() ==> p(#[trigger] s[i]),
    ensures
        s.filter(p) == s,
    decreases s.len(),
{
    if s.len() == 0 {
        reveal(Seq::filter);
    } else {
        let head = s.drop_last();
        assert forall|i: int| 0 <= i < head.len() implies p(#[trigger] head[i]) by {
            assert(head[i] == s[i]);
        }
        lemma_filter_keeps_all(head, p);
        assert(p(s[s.len() - 1]));
        head.lemma_filter_push(s.last(), p);
        assert(head.push(s.last()) =~= s);
    }
}

/// The task that a lookup by identifier returns is the last task with that
/// identifier.
pub proof fn lemma_task_with_id_is_last(tasks: Seq<TaskView>, id: Seq<char>)
    ensures
        match task_with_id(tasks, id) {
            Some(task) => exists|k: int|
                0 <= k < tasks.len() && #[trigger] tasks[k] == task && task.id == id && !shadowed(
                    tasks,
                    k,
                ),
            None => forall|k: int| 0 <= k < tasks.len() ==> (#[trigger] tasks[k]).id != id,
        },
    decreases tasks.len(),
{
    if tasks.len() > 0 {
        let head = tasks.drop_last();
        let n = tasks.len() - 1;
        if tasks.last().id == id {
            assert(tasks[n] == tasks.last());
            assert(!shadowed(tasks, n));
        } else {
            lemma_task_with_id_is_last(head, id);
            match task_with_id(head, id) {
                Some(task) => {
                    let k = choose|k: int|
                        0 <= k < head.len() && #[trigger] head[k] == task && task.id == id
                            && !shadowed(head, k);
                    assert(tasks[k] == task);
                    if shadowed(tasks, k) {
                        let j = choose|j: int|
                            k < j < tasks.len() && (#[trigger] tasks[j]).id == tasks[k].id;
                        assert(j < n);
                        assert(head[j].id == head[k].id);
                    }
                },
                None => {
                    assert forall|k: int| 0 <= k < tasks.len() implies (#[trigger] tasks[k]).id
                        != id by {
                        if k < n {
                            assert(head[k].id != id);
                        }
                    }
                },
            }
        }
    }
}

/// A lookup by identifier and a query for all tasks agree: the task that
/// the lookup returns is a task of the index, and each task of the index is
/// what the lookup of its identifier returns. Of tasks with one identifier
/// the index holds the last alone.
pub proof fn lemma_lookup_is_live(recs: Seq<ParsedNoteView>, task: TaskView)
    ensures
        live_tasks(recs).contains(task) <==> task_with_id(all_tasks(recs), task.id) == Some(task),
{
    let tasks = all_tasks(recs);
    lemma_task_with_id_is_last(tasks, task.id);
    lemma_live_from_contains(tasks, 0, task);
    if live_tasks(recs).contains(task) {
        let k = choose|k: int|
            0 <= k < tasks.len() && #[trigger] tasks[k] == task && !shadowed(tasks, k);
        match task_with_id(tasks, task.id) {
            Some(found) => {
                let j = choose|j: int|
                    0 <= j < tasks.len() && #[trigger] tasks[j] == found && found.id == task.id
                        && !shadowed(tasks, j);
                if j < k {
                    assert(tasks[k].id == tasks[j].id);
                } else if k < j {
                    assert(tasks[j].id == tasks[k].id);
                }
            },
            None => {
                assert(tasks[k].id != task.id);
            },
        }
    }
    if task_with_id(tasks, task.id) == Some(task) {
        let k = choose|k: int|
            0 <= k < tasks.len() && #[trigger] tasks[k] == task && task.id == task.id && !shadowed(
                tasks,
                k,
            );
        assert(tasks[k] == task && !shadowed(tasks, k));
    }
}

/// Every tag that the index lists has a carrier: a task of the index or a
/// log entry carries it. No tag is listed for an item that is gone.
pub proof fn lemma_listed_tag_has_carrier(
    recs: Seq<ParsedNoteView>,
    listed: Seq<Seq<char>>,
    tag: Seq<char>,
)
    requires
        lists_tags(recs, listed),
    ensures
        listed.contains(tag) <==> ((exists|i: int|
            0 <= i < live_tasks(recs).len() && (#[trigger] live_tasks(recs)[i]).tags.contains(tag))
            || (exists|j: int|
            0 <= j < all_log_entries(recs).len() && (#[trigger] all_log_entries(
                recs,
            )[j]).tags.contains(tag))),
{
    let live = live_tasks(recs);
    let entries = all_log_entries(recs);
    let a = tags_of_tasks(live);
    let b = tags_of_entries(entries);
    let all = carried_tags(recs);
    let f = |t: TaskView| t.tags;
    let g = |e: LogEntryView| e.tags;
    lemma_flat_map_contains(live, f, tag);
    lemma_flat_map_contains(entries, g, tag);
    if all.contains(tag) {
        let i = choose|i: int| 0 <= i < all.len() && all[i] == tag;
        if i < a.len() {
            assert(a[i] == tag);
            assert(a.contains(tag));
            let m = choose|m: int| 0 <= m < live.len() && #[trigger] f(live[m]).contains(tag);
            assert(live[m].tags.contains(tag));
        } else {
            assert(b[i - a.len()] == tag);
            assert(b.contains(tag));
            let m = choose|m: int| 0 <= m < entries.len() && #[trigger] g(entries[m]).contains(tag);
            assert(entries[m].tags.contains(tag));
        }
    }
    if exists|i: int| 0 <= i < live.len() && (#[trigger] live[i]).tags.contains(tag) {
        let i = choose|i: int| 0 <= i < live.len() && (#[trigger] live[i]).tags.contains(tag);
        assert(f(live[i]).contains(tag));
        assert(a.contains(tag));
        let k = choose|k: int| 0 <= k < a.len() && a[k] == tag;
        assert(all[k] == tag);
    }
    if exists|j: int| 0 <= j < entries.len() && (#[trigger] entries[j]).tags.contains(tag) {
        let j = choose|j: int| 0 <= j < entries.len() && (#[trigger] entries[j]).tags.contains(tag);
        assert(g(entries[j]).contains(tag));
        assert(b.contains(tag));
        let k = choose|k: int| 0 <= k < b.len() && b[k] == tag;
        assert(all[a.len() + k] == tag);
    }
}

/// The index has one list of tags: two lists that both list its tags are
/// the same list.
pub proof fn lemma_tag_list_is_one(recs: Seq<ParsedNoteView>, a: Seq<Seq<char>>, b: Seq<Seq<char>>)
    requires
        lists_tags(recs, a),
        lists_tags(recs, b),
    ensures
        a == b,
{
    assert forall|t: Seq<char>| #[trigger] a.contains(t) <==> b.contains(t) by {
        assert(a.contains(t) <==> carried_tags(recs).contains(t));
        assert(b.contains(t) <==> carried_tags(recs).contains(t));
    }
    lemma_ascending_same_members(a, b);
}

/// Two ascending sequences with the same members are the same sequence.
pub proof fn lemma_ascending_same_members(a: Seq<Seq<char>>, b: Seq<Seq<char>>)
    requires
        strictly_ascending(a),
        strictly_ascending(b),
        forall|t: Seq<char>| #[trigger] a.contains(t) <==> b.contains(t),
    ensures
        a == b,
    decreases a.len(),
{
    if a.len() == 0 {
        if b.len() > 0 {
            assert(b.contains(b[0]));
            assert(a.contains(b[0]));
        }
        assert(a =~= b);
    } else {
        let x = a[a.len() - 1];
        assert(a.contains(x));
        assert(b.contains(x));
        let y = b[b.len() - 1];
        assert(b.contains(y));
        assert(a.contains(y));
        let i = choose|i: int| 0 <= i < a.len() && a[i] == y;
        let j = choose|j: int| 0 <= j < b.len() && b[j] == x;
        lemma_text_order_total(x, y);
        if i < a.len() - 1 {
            assert(text_before(a[i], a[a.len() - 1]));
        }
        if j < b.len() - 1 {
            assert(text_before(b[j], b[b.len() - 1]));
        }
        assert(x == y);
        let a0 = a.drop_last();
        let b0 = b.drop_last();
        assert(strictly_ascending(a0)) by {
            assert forall|i: int, j: int| 0 <= i < j < a0.len() implies text_before(
                #[trigger] a0[i],
                #[trigger] a0[j],
            ) by {
                assert(a0[i] == a[i] && a0[j] == a[j]);
            }
        }
        assert(strictly_ascending(b0)) by {
            assert forall|i: int, j: int| 0 <= i < j < b0.len() implies text_before(
                #[trigger] b0[i],
                #[trigger] b0[j],
            ) by {
                assert(b0[i] == b[i] && b0[j] == b[j]);
            }
        }
        assert forall|t: Seq<char>| #[trigger] a0.contains(t) <==> b0.contains(t) by {
            lemma_text_order_total(t, x);
            if a0.contains(t) {
                let k = choose|k: int| 0 <= k < a0.len() && a0[k] == t;
                assert(a[k] == t);
                assert(text_before(a[k], a[a.len() - 1]));
                assert(a.contains(t));
                assert(b.contains(t));
                let m = choose|m: int| 0 <= m < b.len() && b[m] == t;
                assert(m < b.len() - 1);
                assert(b0[m] == t);
            }
            if b0.contains(t) {
                let k = choose|k: int| 0 <= k < b0.len() && b0[k] == t;
                assert(b[k] == t);
                assert(text_before(b[k], b[b.len() - 1]));
                assert(b.contains(t));
                assert(a.contains(t));
                let m = choose|m: int| 0 <= m < a.len() && a[m] == t;
                assert(m < a.len() - 1);
                assert(a0[m] == t);
            }
        }
        lemma_ascending_same_members(a0, b0);
        assert(a =~= a0.push(x));
        assert(b =~= b0.push(y));
    }
}

/// Every mention that a record of the index holds is among the mentions of
/// the task it names.
pub proof fn lemma_mention_is_reachable(recs: Seq<ParsedNoteView>, k: int, j: int)
    requires
        0 <= k < recs.len(),
        0 <= j < recs[k].mentions.len(),
    ensures
        mentions_naming(all_mentions(recs), recs[k].mentions[j].task_id).contains(
            recs[k].mentions[j],
        ),
{
    let m = recs[k].mentions[j];
    let f = |r: ParsedNoteView| r.mentions;
    let held = recs[k].mentions;
    assert(held.contains(m));
    assert(f(recs[k]).contains(m));
    lemma_flat_map_contains(recs, f, m);
    let all = all_mentions(recs);
    assert(all.contains(m));
    let i = choose|i: int| 0 <= i < all.len() && all[i] == m;
    let p = |x: TaskMentionView| x.task_id == m.task_id;
    all.lemma_filter_contains(p, i);
}

/// Once a note is taken out, the index holds no mention that came from it:
/// every mention left came with the record of another note.
pub proof fn lemma_mentions_purged(recs: Seq<ParsedNoteView>, id: Seq<char>, m: TaskMentionView)
    requires
        all_mentions(without_note(recs, id)).contains(m),
    ensures
        exists|k: int|
            0 <= k < recs.len() && (#[trigger] recs[k]).note.id != id && recs[k].mentions.contains(
                m,
            ),
{
    let after = without_note(recs, id);
    let f = |r: ParsedNoteView| r.mentions;
    lemma_flat_map_contains(after, f, m);
    let a = choose|a: int| 0 <= a < after.len() && #[trigger] f(after[a]).contains(m);
    lemma_without_note_holds(recs, id);
    assert(after.contains(after[a]));
    assert(recs.contains(after[a]));
    let k = choose|k: int| 0 <= k < recs.len() && recs[k] == after[a];
    assert(recs[k].note.id != id && recs[k].mentions.contains(m));
}

/// After a note is put in, the index holds one record of it, the one that
/// was put in, and the records of the other notes as before.
pub proof fn lemma_upsert_supersedes(recs: Seq<ParsedNoteView>, parsed: ParsedNoteView)
    ensures
        with_note(recs, parsed).last() == parsed,
        !has_note(with_note(recs, parsed).drop_last(), parsed.note.id),
        note_with_id(with_note(recs, parsed), parsed.note.id) == Some(parsed.note),
        forall|r: ParsedNoteView|
            r.note.id != parsed.note.id ==> (#[trigger] with_note(recs, parsed).contains(r)
                <==> recs.contains(r)),
        distinct_notes(recs) ==> distinct_notes(with_note(recs, parsed)),
{
    let id = parsed.note.id;
    let kept = without_note(recs, id);
    let out = with_note(recs, parsed);
    lemma_without_note_holds(recs, id);
    assert(out.drop_last() =~= kept);
    assert forall|r: ParsedNoteView| r.note.id != id implies (#[trigger] out.contains(r)
        <==> recs.contains(r)) by {
        if out.contains(r) {
            let k = choose|k: int| 0 <= k < out.len() && out[k] == r;
            assert(kept[k] == r);
            assert(kept.contains(r));
        }
        if recs.contains(r) {
            assert(kept.contains(r));
            let k = choose|k: int| 0 <= k < kept.len() && kept[k] == r;
            assert(out[k] == r);
        }
    }
    if distinct_notes(recs) {
        lemma_with_note_distinct(recs, parsed);
    }
}

/// Every note that a range of dates lists is a note that the index holds
/// with its content; where no two records are of one note, the note held
/// is the note listed.
pub proof fn lemma_listed_note_is_held(
    recs: Seq<ParsedNoteView>,
    range: DateRange,
    m: NoteMetaView,
)
    requires
        notes_in_range(recs, range).contains(m),
    ensures
        note_with_id(recs, m.id) is Some,
        distinct_notes(recs) ==> note_with_id(recs, m.id)->0.meta() == m,
{
    lemma_notes_in_range(recs, range);
    let k = choose|k: int|
        0 <= k < recs.len() && dated_within(#[trigger] recs[k], range) && recs[k].note.meta() == m;
    assert(recs[k].note.id == m.id);
    lemma_note_with_id(recs, m.id);
    if distinct_notes(recs) {
        let note = note_with_id(recs, m.id)->0;
        let j = choose|j: int| 0 <= j < recs.len() && (#[trigger] recs[j]).note == note;
        if j != k {
            if j < k {
                assert(recs[j].note.id != recs[k].note.id);
            } else {
                assert(recs[k].note.id != recs[j].note.id);
            }
        }
    }
}

/// The notes that a range of dates lists stand in the order of their
/// dates, the earliest first.
pub proof fn lemma_notes_in_range_ascend(recs: Seq<ParsedNoteView>, range: DateRange)
    ensures
        forall|i: int, j: int|
            0 <= i < j < notes_in_range(recs, range).len() ==> {
                &&& (#[trigger] notes_in_range(recs, range)[i]).date is Some
                &&& (#[trigger] notes_in_range(recs, range)[j]).date is Some
                &&& notes_in_range(recs, range)[i].date->0.not_after(
                    notes_in_range(recs, range)[j].date->0,
                )
            },
{
    let p = |r: ParsedNoteView| dated_within(r, range);
    let kept = recs.filter(p);
    let dated = notes_dated_within(recs, range);
    let sorted = sorted_by_key(dated);
    let out = notes_in_range(recs, range);
    lemma_sorted_by_key(dated);
    assert forall|k: int| 0 <= k < sorted.len() implies (#[trigger] sorted[k]).1.date is Some
        && sorted[k].0 == sorted[k].1.date->0.ordinal() by {
        assert(sorted.contains(sorted[k]));
        assert(dated.contains(sorted[k]));
        let a = choose|a: int| 0 <= a < dated.len() && dated[a] == sorted[k];
        recs.lemma_filter_pred(p, a);
    }
    assert forall|i: int, j: int| 0 <= i < j < out.len() implies {
        &&& (#[trigger] out[i]).date is Some
        &&& (#[trigger] out[j]).date is Some
        &&& out[i].date->0.not_after(out[j].date->0)
    } by {
        assert(out[i] == sorted[i].1.meta());
        assert(out[j] == sorted[j].1.meta());
        assert(sorted[i].0 <= sorted[j].0);
        Date::lemma_ordinal_orders(sorted[i].1.date->0, sorted[j].1.date->0);
    }
}

/// The tags that a summary names are tags of the tasks, each with the
/// number of times it is carried, at most ten of them, and none is carried
/// more often than the one before it.
pub proof fn lemma_top_tags(tags: Seq<Seq<char>>)
    ensures
        top_tags(tags).len() <= TOP_TAGS,
        top_tags(tags).len() <= tags.len(),
        forall|i: int|
            0 <= i < top_tags(tags).len() ==> tags.contains((#[trigger] top_tags(tags)[i]).0)
                && top_tags(tags)[i].1 == occurrences(tags, top_tags(tags)[i].0),
        forall|i: int, j: int|
            0 <= i < j < top_tags(tags).len() ==> (#[trigger] top_tags(tags)[i]).1 >= (
            #[trigger] top_tags(tags)[j]).1,
{
    let names = crate::summary::first_appearances(tags);
    let counts = tag_counts(tags);
    let keyed = keyed_by_count(counts);
    let sorted = sorted_by_key(keyed);
    let all = values_of(sorted);
    let top = top_tags(tags);
    lemma_first_appearances(tags);
    lemma_sorted_by_key(keyed);
    assert forall|k: int| 0 <= k < all.len() implies tags.contains((#[trigger] all[k]).0)
        && all[k].1 == occurrences(tags, all[k].0) && sorted[k].0 == -(all[k].1 as int) by {
        assert(sorted.contains(sorted[k]));
        assert(keyed.contains(sorted[k]));
        let a = choose|a: int| 0 <= a < keyed.len() && keyed[a] == sorted[k];
        assert(counts[a].0 == names[a]);
        assert(names.contains(names[a]));
    }
    assert forall|i: int| 0 <= i < top.len() implies tags.contains((#[trigger] top[i]).0) && top[i].1
        == occurrences(tags, top[i].0) by {
        assert(top[i] == all[i]);
    }
    assert forall|i: int, j: int| 0 <= i < j < top.len() implies (#[trigger] top[i]).1 >= (
    #[trigger] top[j]).1 by {
        assert(top[i] == all[i] && top[j] == all[j]);
        assert(sorted[i].0 <= sorted[j].0);
    }
}

/// Where opening the note of a day went well, the index holds the note
/// that was returned; it is as it was where it held a note of the day, and
/// has one reading more where not.
pub proof fn lemma_daily_opened_well(
    reads: spec_fn(NoteView, ParsedNoteView) -> bool,
    before: Seq<ParsedNoteView>,
    after: Seq<ParsedNoteView>,
    tail: Seq<VaultEvent>,
    date: Date,
    r: Result<Note, DomainError>,
)
    requires
        daily_opened(reads, before, after, tail, date, r),
        r is Ok,
    ensures
        opened_daily(before, after, date, r->Ok_0@),
{
    let note = r->Ok_0@;
    if holds_note_of_day(before, date) {
        lemma_note_with_id(before, notes_in_range(before, day_range(date))[0].id);
    } else {
        let path = crate::domain::path_placed(tail);
        let rest = tail.skip(1);
        let last = rest.last();
        assert(read_indexed_and_found(reads, before, after, last, path, path, false, r)) by {
            if rest.len() == 2 {
                assert(rest.last() == rest[1]);
            } else {
                assert(rest.last() == rest[2]);
            }
        }
        let read = crate::domain::note_read(last)->0;
        assert(reading_put_in(reads, before, after, read) && found_after(after, path, false, r));
        let parsed = choose|parsed: ParsedNoteView|
            reads(read, parsed) && after == with_note(before, parsed);
        assert(after == with_note(before, parsed));
        lemma_note_with_id(after, path);
    }
}

/// Opening the note of a day a second time returns the note of the first
/// time, leaves the index as it is, and asks nothing of the vault: no file
/// is made and none is written. This holds where the index held a note of
/// the day before the first call, and where the note that the first call
/// made is dated that day.
pub proof fn lemma_open_daily_twice(
    reads: spec_fn(NoteView, ParsedNoteView) -> bool,
    before: Seq<ParsedNoteView>,
    after: Seq<ParsedNoteView>,
    tail: Seq<VaultEvent>,
    date: Date,
    first: Result<Note, DomainError>,
    later: Seq<ParsedNoteView>,
    later_tail: Seq<VaultEvent>,
    second: Result<Note, DomainError>,
)
    requires
        daily_opened(reads, before, after, tail, date, first),
        first is Ok,
        holds_note_of_day(before, date) || first->Ok_0@.date == Some(date),
        daily_opened(reads, after, later, later_tail, date, second),
    ensures
        second is Ok,
        second->Ok_0@ == first->Ok_0@,
        later == after,
        later_tail.len() == 0,
{
    lemma_daily_opened_well(reads, before, after, tail, date, first);
    lemma_open_daily_again(before, after, date, first->Ok_0@);
}

/// Opening the note of a day a second time returns the note of the first
/// time and leaves the index as it is. This holds where the index held a
/// note of the day before the first call, and where the note that the
/// first call made is dated that day.
pub proof fn lemma_open_daily_again(
    before: Seq<ParsedNoteView>,
    after: Seq<ParsedNoteView>,
    date: Date,
    note: NoteView,
)
    requires
        opened_daily(before, after, date, note),
        holds_note_of_day(before, date) || note.date == Some(date),
    ensures
        holds_note_of_day(after, date),
        note_with_id(after, notes_in_range(after, day_range(date))[0].id) == Some(note),
        forall|later: Seq<ParsedNoteView>, again: NoteView| #[trigger]
            opened_daily(after, later, date, again) ==> again == note && later == after,
{
    let range = day_range(date);
    if !holds_note_of_day(before, date) {
        let listed = notes_in_range(before, range);
        if listed.len() > 0 {
            assert(listed.contains(listed[0]));
            lemma_listed_note_is_held(before, range, listed[0]);
        }
        lemma_notes_in_range(before, range);
        assert forall|j: int| 0 <= j < before.len() implies !dated_within(
            #[trigger] before[j],
            range,
        ) by {
            if dated_within(before[j], range) {
                assert(listed.contains(before[j].note.meta()));
            }
        }
        let parsed = choose|parsed: ParsedNoteView| after == with_note(before, parsed);
        let kept = without_note(before, parsed.note.id);
        lemma_without_note_holds(before, parsed.note.id);
        assert forall|k: int| 0 <= k < kept.len() implies !dated_within(#[trigger] after[k], range) by {
            assert(after[k] == kept[k]);
            assert(kept.contains(kept[k]));
            assert(before.contains(kept[k]));
            let j = choose|j: int| 0 <= j < before.len() && before[j] == kept[k];
            assert(!dated_within(before[j], range));
        }
        lemma_note_with_id(after, note.id);
        let k = choose|k: int| 0 <= k < after.len() && (#[trigger] after[k]).note == note;
        assert(dated_within(after[k], range));
        assert(k == kept.len());
        assert(parsed.note == note);
        lemma_notes_in_range(after, range);
        let now_listed = notes_in_range(after, range);
        assert(dated_within(after[kept.len() as int], range));
        assert(now_listed.contains(note.meta()));
        assert(now_listed.contains(now_listed[0]));
        let j = choose|j: int|
            0 <= j < after.len() && dated_within(#[trigger] after[j], range) && after[j].note.meta()
                == now_listed[0];
        assert(j == kept.len());
        assert(now_listed[0] == note.meta());
    }
}

/// The event writes to a file or makes one.
pub open spec fn is_writing(event: VaultEvent) -> bool {
    event is Wrote || event is Made
}

/// Opening the note in a file writes nothing where a file is there. Where
/// none is, one file is made: the one at the path, with the template, right
/// after the vault said that none is there.
pub proof fn lemma_file_made_only_where_none(
    reads: spec_fn(NoteView, ParsedNoteView) -> bool,
    before: Seq<ParsedNoteView>,
    after: Seq<ParsedNoteView>,
    tail: Seq<VaultEvent>,
    path: Seq<char>,
    template: Seq<char>,
    r: Result<Note, DomainError>,
)
    requires
        note_opened(reads, before, after, tail, path, template, r),
    ensures
        tail[0] is Asked,
        tail[0]->Asked_0 == path,
        tail[0]->Asked_1 ==> forall|k: int| 0 <= k < tail.len() ==> !is_writing(#[trigger] tail[k]),
        !tail[0]->Asked_1 ==> tail[1] is Made && tail[1]->Made_0 == path && tail[1]->Made_1
            == template && forall|k: int|
            0 <= k < tail.len() && is_writing(#[trigger] tail[k]) ==> k == 1,
{
}

/// Opening the note of a day that the index holds asks nothing of the
/// vault. Opening the note of another day makes at most one file, the one
/// at the path that the vault gave for the name of the day, with the
/// template of the day, and only where the vault said that no file is
/// there; no file that is there is written.
pub proof fn lemma_daily_file_made_once(
    reads: spec_fn(NoteView, ParsedNoteView) -> bool,
    before: Seq<ParsedNoteView>,
    after: Seq<ParsedNoteView>,
    tail: Seq<VaultEvent>,
    date: Date,
    r: Result<Note, DomainError>,
)
    requires
        daily_opened(reads, before, after, tail, date, r),
    ensures
        holds_note_of_day(before, date) ==> tail.len() == 0,
        forall|k: int|
            0 <= k < tail.len() && is_writing(#[trigger] tail[k]) ==> k == 2 && tail[1]
                == VaultEvent::Asked(path_placed(tail), false) && formatted_date(
                date,
                full_year_pattern(),
            ) is Some && tail[2] is Made && tail[2]->Made_0 == path_placed(tail)
                && tail[2]->Made_1 == daily_template(
                formatted_date(date, full_year_pattern())->0,
            ),
{
    if !holds_note_of_day(before, date) && formatted_date(date, full_year_pattern()) is Some {
        let text = formatted_date(date, full_year_pattern())->0;
        let rest = tail.skip(1);
        lemma_file_made_only_where_none(
            reads,
            before,
            after,
            rest,
            path_placed(tail),
            daily_template(text),
            r,
        );
        assert forall|k: int| 0 <= k < tail.len() && is_writing(#[trigger] tail[k]) implies k == 2
            && tail[1] == VaultEvent::Asked(path_placed(tail), false) && tail[2] is Made
            && tail[2]->Made_0 == path_placed(tail) && tail[2]->Made_1 == daily_template(text) by {
            assert(k >= 1);
            assert(tail[k] == rest[k - 1]);
            assert(is_writing(rest[k - 1]));
            assert(rest[0] == tail[1]);
            assert(rest[1] == tail[2]);
        }
    }
}

/// Writing a note that the index does not hold asks nothing of the vault.
/// Writing one that it holds writes once: the content that was handed in,
/// to the path of the note, before anything else is asked.
pub proof fn lemma_note_written_once(
    reads: spec_fn(NoteView, ParsedNoteView) -> bool,
    before: Seq<ParsedNoteView>,
    after: Seq<ParsedNoteView>,
    tail: Seq<VaultEvent>,
    id: Seq<char>,
    content: Seq<char>,
    r: Result<Note, DomainError>,
)
    requires
        note_written(reads, before, after, tail, id, content, r),
    ensures
        note_with_id(before, id) is None ==> tail.len() == 0 && after == before && r is Err,
        note_with_id(before, id) matches Some(held) ==> tail.len() >= 1 && tail[0] is Wrote
            && tail[0]->Wrote_0 == held.path && tail[0]->Wrote_1 == content,
        forall|k: int| 0 <= k < tail.len() && is_writing(#[trigger] tail[k]) ==> k == 0,
{
}

/// How opening the note of a day fails. A date without a text fails
/// before anything is asked; a failure of the vault or the store leaves the
/// index as it was; and where the note is missing after it was made, it was
/// read and put in, and the index does not hold it under its path.
pub proof fn lemma_daily_opened_failures(
    reads: spec_fn(NoteView, ParsedNoteView) -> bool,
    before: Seq<ParsedNoteView>,
    after: Seq<ParsedNoteView>,
    tail: Seq<VaultEvent>,
    date: Date,
    r: Result<Note, DomainError>,
)
    requires
        daily_opened(reads, before, after, tail, date, r),
        r is Err,
    ensures
        !holds_note_of_day(before, date),
        r->Err_0 is NoFileName || r->Err_0 is Vault || r->Err_0 is Store || r->Err_0
            is UnavailableAfterCreation,
        r->Err_0 is NoFileName <==> formatted_date(date, full_year_pattern()) is None,
        r->Err_0 is NoFileName || r->Err_0 is Vault || r->Err_0 is Store ==> after == before,
        r->Err_0 matches DomainError::UnavailableAfterCreation(missing) ==> missing@
            == path_placed(tail) && note_with_id(after, missing@) is None && exists|
            parsed: ParsedNoteView,
        |
            after == with_note(before, parsed),
{
    if formatted_date(date, full_year_pattern()) is Some {
        let rest = tail.skip(1);
        let path = path_placed(tail);
        if rest.len() == 2 {
            assert(rest.last() == rest[1]);
        } else {
            assert(rest.last() == rest[2]);
        }
        match r->Err_0 {
            DomainError::UnavailableAfterCreation(missing) => {
                let last = rest.last();
                assert(read_indexed_and_found(reads, before, after, last, path, path, false, r));
                let read = crate::domain::note_read(last)->0;
                assert(reading_put_in(reads, before, after, read));
                let parsed = choose|parsed: ParsedNoteView|
                    reads(read, parsed) && after == with_note(before, parsed);
                assert(after == with_note(before, parsed));
            },
            _ => {},
        }
    }
}

} // verus!
