//! The index of the vault: the parsed notes, and the queries over them.
//!
//! The index holds one record for each note, in the order in which the
//! notes were last put in. Everything a query returns is derived from these
//! records, so nothing can outlive the note it came from.

use crate::date::DateRange;
use crate::model::{
    LogEntry, Note, NoteId, NoteMeta, ParsedNote, ParsedNoteView, TagResult, Task, TaskFilter,
    TaskId, TaskMention,
};
use crate::queries::{
    collect_log_entries, collect_mentions, collect_tags, collect_tasks, find_note, keep_live,
    select_entries_naming, select_entries_tagged, select_mentions, select_notes, select_tasks,
    select_tasks_tagged, sorted_texts,
};
use crate::records::{
    all_log_entries, all_mentions, all_tasks, distinct_notes, entries_naming, items_tagged,
    lemma_with_note_distinct, lemma_without_absent_note, lemma_without_note_distinct,
    lemma_without_note_remove, lists_tags, mentions_naming, note_with_id, notes_in_range,
    task_with_id, tasks_matching, with_note, without_note,
};
use crate::text::{lemma_views_push, optional_view, views, Duplicate};
use vstd::prelude::*;

verus! {

/// What went wrong in a store.
#[derive(Debug)]
pub struct StoreError {
    pub message: String,
}

/// A store of parsed notes, and the queries over them.
pub trait IndexStore {
    /// The records of the store: one for each note, in the order in which
    /// the notes were last put in.
    spec fn records(&self) -> Seq<ParsedNoteView>;

    /// Puts the parsed note in, in place of what the store held of it.
    fn upsert_parsed_note(&mut self, parsed: ParsedNote) -> (r: Result<(), StoreError>)
        ensures
            r is Ok ==> final(self).records() == with_note(old(self).records(), parsed@),
            r is Err ==> final(self).records() == old(self).records(),
    ;

    /// Takes the note out, with all that came from it.
    fn remove_note(&mut self, note_id: &NoteId) -> (r: Result<(), StoreError>)
        ensures
            r is Ok ==> final(self).records() == without_note(old(self).records(), note_id@),
            r is Err ==> final(self).records() == old(self).records(),
    ;

    /// The task `id`.
    fn get_task(&self, id: &TaskId) -> (r: Option<Task>)
        ensures
            optional_view(r) == task_with_id(all_tasks(self.records()), id@),
    ;

    /// The note `id`, with its content.
    fn get_note(&self, id: &NoteId) -> (r: Option<Note>)
        ensures
            optional_view(r) == note_with_id(self.records(), id@),
    ;

    /// The tasks that meet the filter.
    fn list_tasks(&self, filter: &TaskFilter) -> (r: Vec<Task>)
        ensures
            views(r@) == tasks_matching(self.records(), filter@),
    ;

    /// The log entries that name the task `id`.
    fn get_log_entries_for_task(&self, id: &TaskId) -> (r: Vec<LogEntry>)
        ensures
            views(r@) == entries_naming(all_log_entries(self.records()), id@),
    ;

    /// The mentions of the task `id`.
    fn get_mentions_for_task(&self, id: &TaskId) -> (r: Vec<TaskMention>)
        ensures
            views(r@) == mentions_naming(all_mentions(self.records()), id@),
    ;

    /// The notes that are dated within the range, by date.
    fn list_notes_by_date(&self, range: &DateRange) -> (r: Vec<NoteMeta>)
        ensures
            views(r@) == notes_in_range(self.records(), *range),
    ;

    /// The tags that tasks and log entries carry, in lexicographic order,
    /// each once.
    fn list_tags(&self) -> (r: Vec<String>)
        ensures
            lists_tags(self.records(), views(r@)),
    ;

    /// The tasks and log entries that carry `tag`.
    fn items_for_tag(&self, tag: &str) -> (r: TagResult)
        ensures
            r@ == items_tagged(self.records(), tag@),
    ;
}

/// The table of the store: the record of each note, in the order in which
/// the notes were last put in. Every lookup is a search of these records.
/// The table is a vector and no hash map: identifiers are strings, and of a
/// hash map with strings for keys Verus proves nothing, since vstd knows
/// the hashing of integers alone.
#[derive(Debug)]
pub struct VaultIndex {
    pub records: Vec<ParsedNote>,
}

impl Default for VaultIndex {
    fn default() -> (index: VaultIndex)
        ensures
            views(index.records@) == Seq::<ParsedNoteView>::empty(),
    {
        let index = VaultIndex { records: Vec::new() };
        assert(views(index.records@) =~= Seq::<ParsedNoteView>::empty());
        index
    }
}

/// A store that holds its records in memory.
pub struct InMemoryIndexStore {
    data: VaultIndex,
}

impl View for InMemoryIndexStore {
    type V = Seq<ParsedNoteView>;

    closed spec fn view(&self) -> Seq<ParsedNoteView> {
        views(self.data.records@)
    }
}

impl Default for InMemoryIndexStore {
    fn default() -> (store: InMemoryIndexStore)
        ensures
            store@ == Seq::<ParsedNoteView>::empty(),
            distinct_notes(store@),
    {
        InMemoryIndexStore { data: VaultIndex::default() }
    }
}

impl InMemoryIndexStore {
    /// The store holds one record of each note at most. An empty store
    /// does, and no operation of the store ends this.
    pub open spec fn wf(&self) -> bool {
        distinct_notes(self@)
    }

    /// An empty store.
    pub fn new() -> (store: InMemoryIndexStore)
        ensures
            store@ == Seq::<ParsedNoteView>::empty(),
            store.wf(),
    {
        InMemoryIndexStore { data: VaultIndex::default() }
    }

    /// Takes every record of the note `id` out of the table.
    fn drop_records(&mut self, id: &NoteId)
        ensures
            final(self)@ == without_note(old(self)@, id@),
    {
        let ghost wanted = without_note(old(self)@, id@);
        let mut i: usize = 0;
        while i < self.data.records.len()
            invariant
                i <= self.data.records.len(),
                without_note(self@, id@) == wanted,
                forall|k: int| 0 <= k < i ==> (#[trigger] self@[k]).note.id != id@,
            decreases self.data.records.len() - i,
        {
            if self.data.records[i].note.id.0 == id.0 {
                let ghost before = self@;
                self.data.records.remove(i);
                proof {
                    assert(self@ =~= before.remove(i as int));
                    lemma_without_note_remove(before, id@, i as int);
                }
            } else {
                i = i + 1;
            }
        }
        proof {
            lemma_without_absent_note(self@, id@);
        }
    }
}

impl IndexStore for InMemoryIndexStore {
    open spec fn records(&self) -> Seq<ParsedNoteView> {
        self@
    }

    fn upsert_parsed_note(&mut self, parsed: ParsedNote) -> (r: Result<(), StoreError>)
        ensures
            r is Ok,
            old(self).wf() ==> final(self).wf(),
    {
        self.drop_records(&parsed.note.id);
        let ghost before = self.data.records@;
        self.data.records.push(parsed);
        proof {
            lemma_views_push(before, parsed);
            if old(self).wf() {
                lemma_with_note_distinct(old(self)@, parsed@);
            }
        }
        Ok(())
    }

    fn remove_note(&mut self, note_id: &NoteId) -> (r: Result<(), StoreError>)
        ensures
            r is Ok,
            old(self).wf() ==> final(self).wf(),
    {
        self.drop_records(note_id);
        proof {
            if old(self).wf() {
                lemma_without_note_distinct(old(self)@, note_id@);
            }
        }
        Ok(())
    }

    fn get_task(&self, id: &TaskId) -> (r: Option<Task>) {
        let tasks = collect_tasks(&self.data.records);
        let ghost all = views(tasks@);
        let mut i: usize = tasks.len();
        assert(all.take(i as int) =~= all);
        while i > 0
            invariant
                i <= tasks.len(),
                all == views(tasks@),
                all == all_tasks(self@),
                task_with_id(all, id@) == task_with_id(all.take(i as int), id@),
            decreases i,
        {
            let ghost head = all.take(i as int);
            assert(head.last() == all[i - 1]);
            assert(head.drop_last() =~= all.take(i - 1));
            if tasks[i - 1].id.0 == id.0 {
                let found: &Task = tasks[i - 1];
                let copy = found.duplicate();
                assert(copy@ == all[i - 1]);
                assert(task_with_id(head, id@) == Some(head.last()));
                return Some(copy);
            }
            i = i - 1;
        }
        assert(all.take(0) =~= Seq::empty());
        None
    }

    fn get_note(&self, id: &NoteId) -> (r: Option<Note>) {
        match find_note(&self.data.records, id) {
            Some(i) => Some(self.data.records[i].note.duplicate()),
            None => None,
        }
    }

    fn list_tasks(&self, filter: &TaskFilter) -> (r: Vec<Task>) {
        let all = collect_tasks(&self.data.records);
        let live = keep_live(&all);
        select_tasks(&live, filter)
    }

    fn get_log_entries_for_task(&self, id: &TaskId) -> (r: Vec<LogEntry>) {
        let entries = collect_log_entries(&self.data.records);
        select_entries_naming(&entries, id)
    }

    fn get_mentions_for_task(&self, id: &TaskId) -> (r: Vec<TaskMention>) {
        let mentions = collect_mentions(&self.data.records);
        select_mentions(&mentions, id)
    }

    fn list_notes_by_date(&self, range: &DateRange) -> (r: Vec<NoteMeta>) {
        select_notes(&self.data.records, range)
    }

    fn list_tags(&self) -> (r: Vec<String>) {
        let all = collect_tasks(&self.data.records);
        let live = keep_live(&all);
        let entries = collect_log_entries(&self.data.records);
        let tags = collect_tags(&live, &entries);
        sorted_texts(&tags)
    }

    fn items_for_tag(&self, tag: &str) -> (r: TagResult) {
        let wanted = tag.to_owned();
        let all = collect_tasks(&self.data.records);
        let live = keep_live(&all);
        let entries = collect_log_entries(&self.data.records);
        let tasks = select_tasks_tagged(&live, &wanted);
        let log_entries = select_entries_tagged(&entries, &wanted);
        TagResult { tag: wanted, tasks, log_entries }
    }
}

} // verus!
