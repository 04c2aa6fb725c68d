//! The queries over the records of the index, as they are computed.

use crate::date::{Date, DateRange};
use crate::model::{
    LogEntry, LogEntryView, Note, NoteId, NoteMeta, NoteView, ParsedNote, Task, TaskFilter, TaskId,
    TaskMention, TaskMentionView, TaskView,
};
use crate::order::{insert_sorted, keyed_views, sorted_by_key, values_of};
use crate::records::{
    all_log_entries, all_mentions, all_tasks, carries_all, entries_naming, entries_tagged,
    has_note, is_key, lemma_all_tasks_empty, lemma_all_tasks_push, lemma_flat_map_empty,
    lemma_flat_map_push, lemma_notes_dated_within_push, live_from, mentions_naming, names_text,
    needle_of, note_with_id, notes_dated_within, notes_in_range, occurrences, repeated, shadowed,
    strictly_ascending, tags_of_entries, tags_of_tasks, task_matches, tasks_tagged, touched_since,
};
use crate::text::{
    chars_before, chars_of, contains_chars, lemma_text_order_total, lemma_text_order_transitive,
    lemma_views_push, optional_view, text_before, to_lowercase, views, Duplicate,
};
use vstd::prelude::*;

verus! {

/// Appends references to the items of `items`.
pub fn append_refs<'a, T: View>(out: &mut Vec<&'a T>, items: &'a Vec<T>)
    ensures
        views(final(out)@) == views(old(out)@) + views(items@),
{
    let ghost head = views(out@);
    let mut j: usize = 0;
    assert(views(items@).take(0) =~= Seq::empty());
    assert(head + Seq::empty() =~= head);
    while j < items.len()
        invariant
            j <= items.len(),
            views(out@) == head + views(items@).take(j as int),
        decreases items.len() - j,
    {
        let ghost before = out@;
        out.push(&items[j]);
        proof {
            lemma_views_push(before, &items[j as int]);
            assert(views(out@) =~= head + views(items@).take(j + 1));
        }
        j = j + 1;
    }
    assert(views(items@).take(items.len() as int) =~= views(items@));
}

/// The tasks of all records, by reference.
pub fn collect_tasks<'a>(records: &'a Vec<ParsedNote>) -> (r: Vec<&'a Task>)
    ensures
        views(r@) == all_tasks(views(records@)),
{
    let ghost recs = views(records@);
    let mut r: Vec<&Task> = Vec::new();
    let mut i: usize = 0;
    proof {
        lemma_all_tasks_empty();
        assert(recs.take(0) =~= Seq::empty());
        assert(views(r@) =~= Seq::empty());
    }
    while i < records.len()
        invariant
            i <= records.len(),
            recs == views(records@),
            views(r@) == all_tasks(recs.take(i as int)),
        decreases records.len() - i,
    {
        append_refs(&mut r, &records[i].tasks);
        proof {
            lemma_all_tasks_push(recs.take(i as int), recs[i as int]);
            assert(recs.take(i as int).push(recs[i as int]) =~= recs.take(i + 1));
        }
        i = i + 1;
    }
    assert(recs.take(records.len() as int) =~= recs);
    r
}

/// The log entries of all records, by reference.
pub fn collect_log_entries<'a>(records: &'a Vec<ParsedNote>) -> (r: Vec<&'a LogEntry>)
    ensures
        views(r@) == all_log_entries(views(records@)),
{
    let ghost recs = views(records@);
    let mut r: Vec<&LogEntry> = Vec::new();
    let mut i: usize = 0;
    proof {
        lemma_all_tasks_empty();
        assert(recs.take(0) =~= Seq::empty());
        assert(views(r@) =~= Seq::empty());
    }
    while i < records.len()
        invariant
            i <= records.len(),
            recs == views(records@),
            views(r@) == all_log_entries(recs.take(i as int)),
        decreases records.len() - i,
    {
        append_refs(&mut r, &records[i].log_entries);
        proof {
            lemma_all_tasks_push(recs.take(i as int), recs[i as int]);
            assert(recs.take(i as int).push(recs[i as int]) =~= recs.take(i + 1));
        }
        i = i + 1;
    }
    assert(recs.take(records.len() as int) =~= recs);
    r
}

/// The mentions of all records, by reference.
pub fn collect_mentions<'a>(records: &'a Vec<ParsedNote>) -> (r: Vec<&'a TaskMention>)
    ensures
        views(r@) == all_mentions(views(records@)),
{
    let ghost recs = views(records@);
    let mut r: Vec<&TaskMention> = Vec::new();
    let mut i: usize = 0;
    proof {
        lemma_all_tasks_empty();
        assert(recs.take(0) =~= Seq::empty());
        assert(views(r@) =~= Seq::empty());
    }
    while i < records.len()
        invariant
            i <= records.len(),
            recs == views(records@),
            views(r@) == all_mentions(recs.take(i as int)),
        decreases records.len() - i,
    {
        append_refs(&mut r, &records[i].mentions);
        proof {
            lemma_all_tasks_push(recs.take(i as int), recs[i as int]);
            assert(recs.take(i as int).push(recs[i as int]) =~= recs.take(i + 1));
        }
        i = i + 1;
    }
    assert(recs.take(records.len() as int) =~= recs);
    r
}

/// Whether a task behind `tasks[i]` has its identifier.
pub fn is_shadowed(tasks: &Vec<&Task>, i: usize) -> (r: bool)
    requires
        i < tasks.len(),
    ensures
        r == shadowed(views(tasks@), i as int),
{
    let ghost all = views(tasks@);
    let mut j: usize = i + 1;
    while j < tasks.len()
        invariant
            i < j <= tasks.len(),
            all == views(tasks@),
            forall|k: int| i < k < j ==> (#[trigger] all[k]).id != all[i as int].id,
        decreases tasks.len() - j,
    {
        if tasks[j].id.0 == tasks[i].id.0 {
            assert(all[j as int].id == all[i as int].id);
            return true;
        }
        j = j + 1;
    }
    false
}

/// The tasks that no later task replaces.
pub fn keep_live<'a>(tasks: &Vec<&'a Task>) -> (r: Vec<&'a Task>)
    ensures
        views(r@) == live_from(views(tasks@), 0),
{
    let ghost all = views(tasks@);
    let mut r: Vec<&Task> = Vec::new();
    let mut i: usize = 0;
    assert(views(r@) =~= Seq::empty());
    assert(Seq::<TaskView>::empty() + live_from(all, 0) =~= live_from(all, 0));
    while i < tasks.len()
        invariant
            i <= tasks.len(),
            all == views(tasks@),
            views(r@) + live_from(all, i as int) == live_from(all, 0),
        decreases tasks.len() - i,
    {
        if !is_shadowed(tasks, i) {
            let ghost before = r@;
            r.push(tasks[i]);
            proof {
                lemma_views_push(before, tasks@[i as int]);
                assert(views(r@) + live_from(all, i + 1) =~= views(before) + live_from(
                    all,
                    i as int,
                ));
            }
        }
        i = i + 1;
    }
    assert(views(r@) + Seq::<TaskView>::empty() =~= views(r@));
    r
}

/// Appends `n` copies of `item`.
pub fn push_copies<T: Duplicate>(out: &mut Vec<T>, item: &T, n: usize)
    ensures
        views(final(out)@) == views(old(out)@) + repeated(item@, n as nat),
{
    let ghost head = views(out@);
    let mut k: usize = 0;
    assert(head + repeated(item@, 0) =~= head);
    while k < n
        invariant
            k <= n,
            views(out@) == head + repeated(item@, k as nat),
        decreases n - k,
    {
        let ghost before = out@;
        let copy = item.duplicate();
        out.push(copy);
        proof {
            lemma_views_push(before, copy);
            assert(views(out@) =~= head + repeated(item@, (k + 1) as nat));
        }
        k = k + 1;
    }
}

/// How often `key` stands among `keys`.
pub fn count_tag(keys: &Vec<String>, key: &String) -> (n: usize)
    ensures
        n == occurrences(views(keys@), key@),
{
    let ghost all = views(keys@);
    let ghost p = is_key(key@);
    let mut n: usize = 0;
    let mut i: usize = 0;
    proof {
        assert(all.take(0) =~= Seq::empty());
        reveal(Seq::filter);
    }
    while i < keys.len()
        invariant
            i <= keys.len(),
            n <= i,
            all == views(keys@),
            p == is_key(key@),
            n == all.take(i as int).filter(p).len(),
        decreases keys.len() - i,
    {
        proof {
            all.take(i as int).lemma_filter_push(all[i as int], p);
            assert(all.take(i as int).push(all[i as int]) =~= all.take(i + 1));
        }
        if keys[i] == *key {
            n = n + 1;
        }
        i = i + 1;
    }
    assert(all.take(keys.len() as int) =~= all);
    n
}

/// How often `id` stands among `ids`.
pub fn count_task_id(ids: &Vec<TaskId>, id: &TaskId) -> (n: usize)
    ensures
        n == occurrences(views(ids@), id@),
{
    let ghost all = views(ids@);
    let ghost p = is_key(id@);
    let mut n: usize = 0;
    let mut i: usize = 0;
    proof {
        assert(all.take(0) =~= Seq::empty());
        reveal(Seq::filter);
    }
    while i < ids.len()
        invariant
            i <= ids.len(),
            n <= i,
            all == views(ids@),
            p == is_key(id@),
            n == all.take(i as int).filter(p).len(),
        decreases ids.len() - i,
    {
        proof {
            all.take(i as int).lemma_filter_push(all[i as int], p);
            assert(all.take(i as int).push(all[i as int]) =~= all.take(i + 1));
        }
        if ids[i].0 == id.0 {
            n = n + 1;
        }
        i = i + 1;
    }
    assert(all.take(ids.len() as int) =~= all);
    n
}

/// Whether `tag` is among `tags`.
pub fn has_tag(tags: &Vec<String>, tag: &String) -> (r: bool)
    ensures
        r == views(tags@).contains(tag@),
{
    let ghost all = views(tags@);
    let mut i: usize = 0;
    while i < tags.len()
        invariant
            i <= tags.len(),
            all == views(tags@),
            forall|k: int| 0 <= k < i ==> all[k] != tag@,
        decreases tags.len() - i,
    {
        if tags[i] == *tag {
            assert(all[i as int] == tag@);
            return true;
        }
        i = i + 1;
    }
    false
}

/// Whether every tag of `wanted` is among `tags`.
pub fn has_all_tags(tags: &Vec<String>, wanted: &Vec<String>) -> (r: bool)
    ensures
        r == carries_all(views(tags@), views(wanted@)),
{
    let ghost all = views(wanted@);
    let mut i: usize = 0;
    while i < wanted.len()
        invariant
            i <= wanted.len(),
            all == views(wanted@),
            forall|k: int| 0 <= k < i ==> views(tags@).contains(#[trigger] all[k]),
        decreases wanted.len() - i,
    {
        if !has_tag(tags, &wanted[i]) {
            assert(!views(tags@).contains(all[i as int]));
            return false;
        }
        i = i + 1;
    }
    true
}

/// Whether the lower-case `needle` occurs in the title or the description
/// of the task.
pub fn task_names_text(task: &Task, needle: &Vec<char>) -> (r: bool)
    ensures
        r == names_text(task@, needle@),
{
    let title = chars_of(to_lowercase(task.title.as_str()).as_str());
    if contains_chars(&title, needle) {
        return true;
    }
    match &task.description_md {
        Some(text) => {
            let description = chars_of(to_lowercase(text.as_str()).as_str());
            contains_chars(&description, needle)
        },
        None => false,
    }
}

/// Whether the task was updated or closed on `date` or later.
pub fn task_touched_since(task: &Task, date: &Date) -> (r: bool)
    ensures
        r == touched_since(task@, *date),
{
    if date.is_not_after(&task.updated_at.date) {
        return true;
    }
    match &task.closed_at {
        Some(closed) => date.is_not_after(&closed.date),
        None => false,
    }
}

/// Whether the task meets the filter. `needle` is the lower-case form of
/// the text that the filter searches for.
pub fn task_meets(filter: &TaskFilter, needle: &Option<Vec<char>>, task: &Task) -> (r: bool)
    requires
        optional_view(*needle) == needle_of(filter@),
    ensures
        r == task_matches(filter@, task@),
{
    match &filter.status {
        Some(status) => {
            if task.status != *status {
                return false;
            }
        },
        None => {},
    }
    if !has_all_tags(&task.tags, &filter.tags) {
        return false;
    }
    match needle {
        Some(text) => {
            if !task_names_text(task, text) {
                return false;
            }
        },
        None => {},
    }
    match &filter.touched_since {
        Some(date) => task_touched_since(task, date),
        None => true,
    }
}

/// The tasks among `tasks` that meet the filter.
pub fn select_tasks(tasks: &Vec<&Task>, filter: &TaskFilter) -> (r: Vec<Task>)
    ensures
        views(r@) == views(tasks@).filter(|t: TaskView| task_matches(filter@, t)),
{
    let needle = match &filter.text_search {
        Some(text) => Some(chars_of(to_lowercase(text.as_str()).as_str())),
        None => None,
    };
    let ghost all = views(tasks@);
    let ghost p = |t: TaskView| task_matches(filter@, t);
    let mut r: Vec<Task> = Vec::new();
    let mut i: usize = 0;
    proof {
        assert(all.take(0) =~= Seq::empty());
        reveal(Seq::filter);
        assert(views(r@) =~= Seq::empty());
    }
    while i < tasks.len()
        invariant
            i <= tasks.len(),
            all == views(tasks@),
            optional_view(needle) == needle_of(filter@),
            p == |t: TaskView| task_matches(filter@, t),
            views(r@) == all.take(i as int).filter(p),
        decreases tasks.len() - i,
    {
        proof {
            all.take(i as int).lemma_filter_push(all[i as int], p);
            assert(all.take(i as int).push(all[i as int]) =~= all.take(i + 1));
        }
        let task: &Task = tasks[i];
        if task_meets(filter, &needle, task) {
            let ghost before = r@;
            let copy = task.duplicate();
            r.push(copy);
            proof {
                lemma_views_push(before, copy);
            }
        }
        i = i + 1;
    }
    assert(all.take(tasks.len() as int) =~= all);
    r
}

/// The log entries among `entries` that name the task `id`.
pub fn select_entries_naming(entries: &Vec<&LogEntry>, id: &TaskId) -> (r: Vec<LogEntry>)
    ensures
        views(r@) == entries_naming(views(entries@), id@),
{
    let ghost all = views(entries@);
    let ghost f = |e: LogEntryView| repeated(e, occurrences(e.task_ids, id@));
    let mut r: Vec<LogEntry> = Vec::new();
    let mut i: usize = 0;
    proof {
        assert(all.take(0) =~= Seq::empty());
        lemma_flat_map_empty::<LogEntryView, LogEntryView>(f);
        assert(views(r@) =~= Seq::empty());
    }
    while i < entries.len()
        invariant
            i <= entries.len(),
            all == views(entries@),
            f == |e: LogEntryView| repeated(e, occurrences(e.task_ids, id@)),
            views(r@) == all.take(i as int).map_values(f).flatten(),
        decreases entries.len() - i,
    {
        let entry: &LogEntry = entries[i];
        let n = count_task_id(&entry.task_ids, id);
        push_copies(&mut r, entry, n);
        proof {
            lemma_flat_map_push(all.take(i as int), all[i as int], f);
            assert(all.take(i as int).push(all[i as int]) =~= all.take(i + 1));
        }
        i = i + 1;
    }
    assert(all.take(entries.len() as int) =~= all);
    r
}

/// The log entries among `entries` that carry `tag`.
pub fn select_entries_tagged(entries: &Vec<&LogEntry>, tag: &String) -> (r: Vec<LogEntry>)
    ensures
        views(r@) == entries_tagged(views(entries@), tag@),
{
    let ghost all = views(entries@);
    let ghost f = |e: LogEntryView| repeated(e, occurrences(e.tags, tag@));
    let mut r: Vec<LogEntry> = Vec::new();
    let mut i: usize = 0;
    proof {
        assert(all.take(0) =~= Seq::empty());
        lemma_flat_map_empty::<LogEntryView, LogEntryView>(f);
        assert(views(r@) =~= Seq::empty());
    }
    while i < entries.len()
        invariant
            i <= entries.len(),
            all == views(entries@),
            f == |e: LogEntryView| repeated(e, occurrences(e.tags, tag@)),
            views(r@) == all.take(i as int).map_values(f).flatten(),
        decreases entries.len() - i,
    {
        let entry: &LogEntry = entries[i];
        let n = count_tag(&entry.tags, tag);
        push_copies(&mut r, entry, n);
        proof {
            lemma_flat_map_push(all.take(i as int), all[i as int], f);
            assert(all.take(i as int).push(all[i as int]) =~= all.take(i + 1));
        }
        i = i + 1;
    }
    assert(all.take(entries.len() as int) =~= all);
    r
}

/// The tasks among `tasks` that carry `tag`.
pub fn select_tasks_tagged(tasks: &Vec<&Task>, tag: &String) -> (r: Vec<Task>)
    ensures
        views(r@) == tasks_tagged(views(tasks@), tag@),
{
    let ghost all = views(tasks@);
    let ghost f = |t: TaskView| repeated(t, occurrences(t.tags, tag@));
    let mut r: Vec<Task> = Vec::new();
    let mut i: usize = 0;
    proof {
        assert(all.take(0) =~= Seq::empty());
        lemma_flat_map_empty::<TaskView, TaskView>(f);
        assert(views(r@) =~= Seq::empty());
    }
    while i < tasks.len()
        invariant
            i <= tasks.len(),
            all == views(tasks@),
            f == |t: TaskView| repeated(t, occurrences(t.tags, tag@)),
            views(r@) == all.take(i as int).map_values(f).flatten(),
        decreases tasks.len() - i,
    {
        let task: &Task = tasks[i];
        let n = count_tag(&task.tags, tag);
        push_copies(&mut r, task, n);
        proof {
            lemma_flat_map_push(all.take(i as int), all[i as int], f);
            assert(all.take(i as int).push(all[i as int]) =~= all.take(i + 1));
        }
        i = i + 1;
    }
    assert(all.take(tasks.len() as int) =~= all);
    r
}

/// The mentions among `mentions` of the task `id`.
pub fn select_mentions(mentions: &Vec<&TaskMention>, id: &TaskId) -> (r: Vec<TaskMention>)
    ensures
        views(r@) == mentions_naming(views(mentions@), id@),
{
    let ghost all = views(mentions@);
    let ghost p = |m: TaskMentionView| m.task_id == id@;
    let mut r: Vec<TaskMention> = Vec::new();
    let mut i: usize = 0;
    proof {
        assert(all.take(0) =~= Seq::empty());
        reveal(Seq::filter);
        assert(views(r@) =~= Seq::empty());
    }
    while i < mentions.len()
        invariant
            i <= mentions.len(),
            all == views(mentions@),
            p == |m: TaskMentionView| m.task_id == id@,
            views(r@) == all.take(i as int).filter(p),
        decreases mentions.len() - i,
    {
        proof {
            all.take(i as int).lemma_filter_push(all[i as int], p);
            assert(all.take(i as int).push(all[i as int]) =~= all.take(i + 1));
        }
        let mention: &TaskMention = mentions[i];
        if mention.task_id.0 == id.0 {
            let ghost before = r@;
            let copy = mention.duplicate();
            r.push(copy);
            proof {
                lemma_views_push(before, copy);
            }
        }
        i = i + 1;
    }
    assert(all.take(mentions.len() as int) =~= all);
    r
}

/// The notes of the records that are dated within the range, by date.
pub fn select_notes(records: &Vec<ParsedNote>, range: &DateRange) -> (r: Vec<NoteMeta>)
    ensures
        views(r@) == notes_in_range(views(records@), *range),
{
    let ghost recs = views(records@);
    let mut keyed: Vec<(i128, &Note)> = Vec::new();
    let mut i: usize = 0;
    proof {
        assert(recs.take(0) =~= Seq::empty());
        reveal(Seq::filter);
        assert(notes_dated_within(recs.take(0), *range) =~= Seq::empty());
        assert(keyed_views(keyed@) =~= Seq::empty());
    }
    while i < records.len()
        invariant
            i <= records.len(),
            recs == views(records@),
            keyed_views(keyed@) == sorted_by_key(notes_dated_within(recs.take(i as int), *range)),
        decreases records.len() - i,
    {
        let note: &Note = &records[i].note;
        proof {
            lemma_notes_dated_within_push(recs.take(i as int), recs[i as int], *range);
            assert(recs.take(i as int).push(recs[i as int]) =~= recs.take(i + 1));
        }
        match &note.date {
            Some(date) => {
                if range.includes(date) {
                    let ghost before = notes_dated_within(recs.take(i as int), *range);
                    let ghost item = (date.ordinal(), note@);
                    assert(before.push(item).drop_last() =~= before);
                    assert(before.push(item).last() == item);
                    insert_sorted(&mut keyed, date.sort_key(), note);
                }
            },
            None => {},
        }
        i = i + 1;
    }
    assert(recs.take(records.len() as int) =~= recs);
    let ghost sorted = values_of(keyed_views(keyed@)).map_values(|n: NoteView| n.meta());
    let mut r: Vec<NoteMeta> = Vec::new();
    let mut k: usize = 0;
    assert(views(r@) =~= sorted.take(0));
    while k < keyed.len()
        invariant
            k <= keyed.len(),
            sorted == values_of(keyed_views(keyed@)).map_values(|n: NoteView| n.meta()),
            views(r@) == sorted.take(k as int),
        decreases keyed.len() - k,
    {
        let note: &Note = keyed[k].1;
        let meta = note.meta();
        let ghost before = r@;
        r.push(meta);
        proof {
            lemma_views_push(before, meta);
            assert(views(r@) =~= sorted.take(k + 1));
        }
        k = k + 1;
    }
    assert(sorted.take(keyed.len() as int) =~= sorted);
    r
}

/// Puts `text` into the ascending `out`, unless it is there.
pub fn insert_text(out: &mut Vec<Vec<char>>, text: Vec<char>)
    requires
        strictly_ascending(views(old(out)@)),
    ensures
        strictly_ascending(views(final(out)@)),
        forall|t: Seq<char>| #[trigger]
            views(final(out)@).contains(t) <==> (views(old(out)@).contains(t) || t == text@),
{
    let ghost before = views(out@);
    let mut pos: usize = 0;
    while pos < out.len() && chars_before(&out[pos], &text)
        invariant
            pos <= out.len(),
            out@ == old(out)@,
            before == views(out@),
            forall|k: int| 0 <= k < pos ==> text_before(#[trigger] before[k], text@),
        decreases out.len() - pos,
    {
        pos = pos + 1;
    }
    if pos < out.len() && crate::text::same_chars(&out[pos], &text) {
        assert(before[pos as int] == text@);
        return ;
    }
    out.insert(pos, text);
    proof {
        let after = views(out@);
        assert(after =~= before.insert(pos as int, text@));
        assert forall|i: int, j: int| 0 <= i < j < after.len() implies text_before(
            #[trigger] after[i],
            #[trigger] after[j],
        ) by {
            if j == pos {
                assert(after[i] == before[i]);
            } else if i == pos {
                assert(after[j] == before[j - 1]);
                lemma_text_order_total(before[pos as int], text@);
                if j - 1 > pos {
                    assert(text_before(before[pos as int], before[j - 1]));
                    lemma_text_order_transitive(text@, before[pos as int], before[j - 1]);
                }
            } else if j < pos {
                assert(after[i] == before[i] && after[j] == before[j]);
            } else if i < pos {
                assert(after[i] == before[i] && after[j] == before[j - 1]);
                assert(text_before(before[i], before[j - 1]));
            } else {
                assert(after[i] == before[i - 1] && after[j] == before[j - 1]);
                assert(text_before(before[i - 1], before[j - 1]));
            }
        }
        assert forall|t: Seq<char>| #[trigger]
            after.contains(t) <==> (before.contains(t) || t == text@) by {
            if after.contains(t) {
                let k = choose|k: int| 0 <= k < after.len() && after[k] == t;
                if k < pos {
                    assert(before[k] == t);
                } else if k > pos {
                    assert(before[k - 1] == t);
                }
            }
            if before.contains(t) {
                let k = choose|k: int| 0 <= k < before.len() && before[k] == t;
                if k < pos {
                    assert(after[k] == t);
                } else {
                    assert(after[k + 1] == t);
                }
            }
            if t == text@ {
                assert(after[pos as int] == t);
            }
        }
    }
}

/// The texts of `all`, in lexicographic order, each once.
pub fn sorted_texts(all: &Vec<&String>) -> (r: Vec<String>)
    ensures
        strictly_ascending(views(r@)),
        forall|t: Seq<char>| #[trigger] views(r@).contains(t) <==> views(all@).contains(t),
{
    let ghost texts = views(all@);
    let mut out: Vec<Vec<char>> = Vec::new();
    let mut i: usize = 0;
    while i < all.len()
        invariant
            i <= all.len(),
            texts == views(all@),
            strictly_ascending(views(out@)),
            forall|t: Seq<char>| #[trigger]
                views(out@).contains(t) <==> texts.take(i as int).contains(t),
        decreases all.len() - i,
    {
        let ghost before = views(out@);
        let text = chars_of(all[i].as_str());
        insert_text(&mut out, text);
        proof {
            let shorter = texts.take(i as int);
            let longer = texts.take(i + 1);
            assert forall|t: Seq<char>| #[trigger]
                views(out@).contains(t) <==> longer.contains(t) by {
                if longer.contains(t) {
                    let k = choose|k: int| 0 <= k < longer.len() && longer[k] == t;
                    if k < i {
                        assert(shorter[k] == t);
                    }
                }
                if shorter.contains(t) {
                    let k = choose|k: int| 0 <= k < shorter.len() && shorter[k] == t;
                    assert(longer[k] == t);
                }
                if t == text@ {
                    assert(longer[i as int] == t);
                }
            }
        }
        i = i + 1;
    }
    assert(texts.take(all.len() as int) =~= texts);
    crate::text::strings_from(&out)
}

/// The tags of the tasks and of the log entries, by reference.
pub fn collect_tags<'a>(tasks: &Vec<&'a Task>, entries: &Vec<&'a LogEntry>) -> (r: Vec<&'a String>)
    ensures
        views(r@) == tags_of_tasks(views(tasks@)) + tags_of_entries(views(entries@)),
{
    let ghost tv = views(tasks@);
    let ghost ev = views(entries@);
    let ghost f = |t: TaskView| t.tags;
    let ghost g = |e: LogEntryView| e.tags;
    let mut r: Vec<&String> = Vec::new();
    let mut i: usize = 0;
    proof {
        assert(tv.take(0) =~= Seq::empty());
        lemma_flat_map_empty::<TaskView, Seq<char>>(f);
        assert(views(r@) =~= Seq::empty());
    }
    while i < tasks.len()
        invariant
            i <= tasks.len(),
            tv == views(tasks@),
            f == |t: TaskView| t.tags,
            views(r@) == tv.take(i as int).map_values(f).flatten(),
        decreases tasks.len() - i,
    {
        let task: &Task = tasks[i];
        append_refs(&mut r, &task.tags);
        proof {
            lemma_flat_map_push(tv.take(i as int), tv[i as int], f);
            assert(tv.take(i as int).push(tv[i as int]) =~= tv.take(i + 1));
        }
        i = i + 1;
    }
    assert(tv.take(tasks.len() as int) =~= tv);
    let ghost head = views(r@);
    let mut j: usize = 0;
    proof {
        assert(ev.take(0) =~= Seq::empty());
        lemma_flat_map_empty::<LogEntryView, Seq<char>>(g);
        assert(head + Seq::empty() =~= head);
    }
    while j < entries.len()
        invariant
            j <= entries.len(),
            ev == views(entries@),
            g == |e: LogEntryView| e.tags,
            head == tags_of_tasks(tv),
            views(r@) == head + ev.take(j as int).map_values(g).flatten(),
        decreases entries.len() - j,
    {
        let entry: &LogEntry = entries[j];
        let ghost before = views(r@);
        append_refs(&mut r, &entry.tags);
        proof {
            lemma_flat_map_push(ev.take(j as int), ev[j as int], g);
            assert(ev.take(j as int).push(ev[j as int]) =~= ev.take(j + 1));
            assert(before + ev[j as int].tags =~= head + ev.take(j + 1).map_values(g).flatten());
        }
        j = j + 1;
    }
    assert(ev.take(entries.len() as int) =~= ev);
    r
}

/// The position of the last record of the note `id`.
pub fn find_note(records: &Vec<ParsedNote>, id: &NoteId) -> (r: Option<usize>)
    ensures
        match r {
            Some(i) => i < records.len() && note_with_id(views(records@), id@) == Some(
                records@[i as int].note@,
            ) && records@[i as int].note.id@ == id@,
            None => !has_note(views(records@), id@) && note_with_id(views(records@), id@) is None,
        },
{
    let ghost recs = views(records@);
    let mut i: usize = records.len();
    assert(recs.take(i as int) =~= recs);
    while i > 0
        invariant
            i <= records.len(),
            recs == views(records@),
            note_with_id(recs, id@) == note_with_id(recs.take(i as int), id@),
            forall|k: int| i <= k < recs.len() ==> (#[trigger] recs[k]).note.id != id@,
        decreases i,
    {
        let ghost head = recs.take(i as int);
        assert(head.last() == recs[i - 1]);
        assert(head.drop_last() =~= recs.take(i - 1));
        if records[i - 1].note.id.0 == id.0 {
            return Some(i - 1);
        }
        i = i - 1;
    }
    assert(recs.take(0) =~= Seq::empty());
    None
}

} // verus!
