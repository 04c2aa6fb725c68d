//! The operations of the vault: indexing notes, the queries, writing a note
//! and opening the note of a day.

use crate::date::{format_date, formatted_date, Date, DateRange};
use crate::index::{IndexStore, StoreError};
use crate::model::{
    LogEntry, LogEntryView, Note, NoteId, NoteMeta, NoteView, ParsedNoteView, TagResult, Task,
    TaskFilter, TaskFilterView, TaskId, TaskMention, TaskView, WeeklySummary, WeeklySummaryView,
};
use crate::parser::NoteParser;
use crate::queries::{append_refs, collect_tags};
use crate::records::{
    all_mentions, all_tasks, items_tagged, lemma_flat_map_empty, lemma_note_with_id, lists_tags,
    mentions_naming, note_with_id, notes_in_range, tags_of_tasks, task_with_id, tasks_matching,
    with_note,
};
use crate::summary::{count_tags, most_frequent, pair_views, top_tags};
use crate::text::{lemma_views_push, optional_view, views, Duplicate};
use crate::vault::{
    extends, full_year_pattern, lemma_trail_push, lemma_trail_same, lemma_trail_split, since,
    Vault, VaultError, VaultEvent, WatchedVault,
};
use vstd::prelude::*;
use vstd::string::StringExecFns;

verus! {

/// Why an operation of the vault failed.
#[derive(Debug)]
pub enum DomainError {
    /// The note is not in the index.
    NotIndexed(NoteId),
    /// The note was written, but the index does not hold it.
    UnavailableAfterWrite(NoteId),
    /// The note of the day was made, but the index does not hold it.
    UnavailableAfterCreation(NoteId),
    /// The date has no text, so its note has no file name.
    NoFileName(Date),
    /// The vault failed.
    Vault(VaultError),
    /// The store failed.
    Store(StoreError),
}

impl DomainError {
    /// The error in words.
    pub open spec fn text(&self) -> Seq<char> {
        match self {
            DomainError::NotIndexed(id) => "note "@ + id@ + " not indexed"@,
            DomainError::UnavailableAfterWrite(id) => "note "@ + id@ + " unavailable after write"@,
            DomainError::UnavailableAfterCreation(id) => "note "@ + id@
                + " unavailable after creation"@,
            DomainError::NoFileName(_) => "date out of range"@,
            DomainError::Vault(e) => e.message@,
            DomainError::Store(e) => e.message@,
        }
    }

    /// The error in words.
    pub fn message(&self) -> (text: String)
        ensures
            text@ == self.text(),
    {
        match self {
            DomainError::NotIndexed(id) => {
                let mut text = String::from_str("note ");
                text.append(id.0.as_str());
                text.append(" not indexed");
                text
            },
            DomainError::UnavailableAfterWrite(id) => {
                let mut text = String::from_str("note ");
                text.append(id.0.as_str());
                text.append(" unavailable after write");
                text
            },
            DomainError::UnavailableAfterCreation(id) => {
                let mut text = String::from_str("note ");
                text.append(id.0.as_str());
                text.append(" unavailable after creation");
                text
            },
            DomainError::NoFileName(_) => String::from_str("date out of range"),
            DomainError::Vault(e) => e.message.clone(),
            DomainError::Store(e) => e.message.clone(),
        }
    }
}

/// The records with each of `notes` put in, one after the other.
pub open spec fn with_notes(recs: Seq<ParsedNoteView>, notes: Seq<ParsedNoteView>) -> Seq<
    ParsedNoteView,
>
    decreases notes.len(),
{
    if notes.len() == 0 {
        recs
    } else {
        with_note(with_notes(recs, notes.drop_last()), notes.last())
    }
}

/// The range that holds one day.
pub open spec fn day_range(date: Date) -> DateRange {
    DateRange { start: date, end: date }
}

/// Whether the index holds a note of the day `date` that a lookup finds:
/// the first of the notes listed for that day.
pub open spec fn holds_note_of_day(recs: Seq<ParsedNoteView>, date: Date) -> bool {
    let listed = notes_in_range(recs, day_range(date));
    listed.len() > 0 && note_with_id(recs, listed[0].id) is Some
}

/// What opening the note of the day `date` leaves where it goes well: the
/// index holds the note that is returned. Where the index held a note of
/// the day, that note is returned and the index stays; else one reading
/// was put in.
pub open spec fn opened_daily(
    before: Seq<ParsedNoteView>,
    after: Seq<ParsedNoteView>,
    date: Date,
    note: NoteView,
) -> bool {
    let listed = notes_in_range(before, day_range(date));
    &&& note_with_id(after, note.id) == Some(note)
    &&& holds_note_of_day(before, date) ==> Some(note) == note_with_id(before, listed[0].id)
        && after == before
    &&& !holds_note_of_day(before, date) ==> exists|parsed: ParsedNoteView|
        after == with_note(before, parsed)
}

/// The name of the file of the note of a day: the date and `.md`.
pub open spec fn daily_name(date: Date) -> Option<Seq<char>> {
    match formatted_date(date, full_year_pattern()) {
        Some(text) => Some(text + ".md"@),
        None => None,
    }
}

/// What the note of a day holds when it is made: the date as its title, and
/// the two sections, empty.
pub open spec fn daily_template(date_text: Seq<char>) -> Seq<char> {
    "# "@ + date_text + "\n\n## Tasks\n\n## Log\n"@
}

/// The file name of the note of `date`, and the text it starts with.
pub fn daily_note_file(date: Date) -> (r: Option<(String, String)>)
    ensures
        match formatted_date(date, full_year_pattern()) {
            Some(text) => r matches Some(pair) && Some(pair.0@) == daily_name(date) && pair.1@
                == daily_template(text),
            None => r is None,
        },
{
    match format_date(date, "%Y-%m-%d") {
        Some(text) => {
            let mut name = text.clone();
            name.append(".md");
            let mut template = String::from_str("# ");
            template.append(text.as_str());
            template.append("\n\n## Tasks\n\n## Log\n");
            Some((name, template))
        },
        None => None,
    }
}

/// The task was made within the range.
pub open spec fn created_within(task: TaskView, range: DateRange) -> bool {
    range.contains(task.created_at.date)
}

/// The task was closed within the range.
pub open spec fn closed_within(task: TaskView, range: DateRange) -> bool {
    task.closed_at is Some && range.contains(task.closed_at->0.date)
}

/// The test whether a task was made within the range.
pub open spec fn is_created_within(range: DateRange) -> spec_fn(TaskView) -> bool {
    |t: TaskView| created_within(t, range)
}

/// The test whether a task was closed within the range.
pub open spec fn is_closed_within(range: DateRange) -> spec_fn(TaskView) -> bool {
    |t: TaskView| closed_within(t, range)
}

/// The summary of a range of dates: of all tasks of the index, those made
/// and those closed within the range; the notes dated within it; and the
/// ten tags that the tasks of the index carry most.
pub open spec fn weekly_summary_of(recs: Seq<ParsedNoteView>, range: DateRange) -> WeeklySummaryView {
    let tasks = tasks_matching(recs, TaskFilterView::all());
    WeeklySummaryView {
        new_tasks: tasks.filter(is_created_within(range)),
        completed_tasks: tasks.filter(is_closed_within(range)),
        notes: notes_in_range(recs, range),
        top_tags: top_tags(tags_of_tasks(tasks)),
    }
}

/// The tasks among `tasks` that were made within the range.
pub fn select_created(tasks: &Vec<Task>, range: &DateRange) -> (r: Vec<Task>)
    ensures
        views(r@) == views(tasks@).filter(is_created_within(*range)),
{
    let ghost all = views(tasks@);
    let ghost p = is_created_within(*range);
    let mut r: Vec<Task> = Vec::new();
    let mut i: usize = 0;
    proof {
        assert(all.take(0) =~= Seq::empty());
        reveal(Seq::filter);
        assert(views(r@) =~= Seq::empty());
    }
    while i < tasks.len()
        invariant
            i <= tasks.len(),
            all == views(tasks@),
            p == is_created_within(*range),
            views(r@) == all.take(i as int).filter(p),
        decreases tasks.len() - i,
    {
        proof {
            all.take(i as int).lemma_filter_push(all[i as int], p);
            assert(all.take(i as int).push(all[i as int]) =~= all.take(i + 1));
        }
        if range.includes(&tasks[i].created_at.date) {
            let ghost before = r@;
            let copy = tasks[i].duplicate();
            r.push(copy);
            proof {
                lemma_views_push(before, copy);
            }
        }
        i = i + 1;
    }
    assert(all.take(tasks.len() as int) =~= all);
    r
}

/// The tasks among `tasks` that were closed within the range.
pub fn select_closed(tasks: &Vec<Task>, range: &DateRange) -> (r: Vec<Task>)
    ensures
        views(r@) == views(tasks@).filter(is_closed_within(*range)),
{
    let ghost all = views(tasks@);
    let ghost p = is_closed_within(*range);
    let mut r: Vec<Task> = Vec::new();
    let mut i: usize = 0;
    proof {
        assert(all.take(0) =~= Seq::empty());
        reveal(Seq::filter);
        assert(views(r@) =~= Seq::empty());
    }
    while i < tasks.len()
        invariant
            i <= tasks.len(),
            all == views(tasks@),
            p == is_closed_within(*range),
            views(r@) == all.take(i as int).filter(p),
        decreases tasks.len() - i,
    {
        proof {
            all.take(i as int).lemma_filter_push(all[i as int], p);
            assert(all.take(i as int).push(all[i as int]) =~= all.take(i + 1));
        }
        let closed = match &tasks[i].closed_at {
            Some(at) => range.includes(&at.date),
            None => false,
        };
        if closed {
            let ghost before = r@;
            let copy = tasks[i].duplicate();
            r.push(copy);
            proof {
                lemma_views_push(before, copy);
            }
        }
        i = i + 1;
    }
    assert(all.take(tasks.len() as int) =~= all);
    r
}

/// The ten tags that `tasks` carry most.
pub fn top_tags_of(tasks: &Vec<Task>) -> (top: Vec<(String, usize)>)
    ensures
        pair_views(top@) == top_tags(tags_of_tasks(views(tasks@))),
{
    let mut refs: Vec<&Task> = Vec::new();
    assert(views(refs@) =~= Seq::empty());
    append_refs(&mut refs, tasks);
    assert(views(refs@) =~= views(tasks@));
    let none: Vec<&LogEntry> = Vec::new();
    let tags = collect_tags(&refs, &none);
    proof {
        assert(views(none@) =~= Seq::<LogEntryView>::empty());
        lemma_flat_map_empty::<LogEntryView, Seq<char>>(|e: LogEntryView| e.tags);
        assert(views(tags@) =~= tags_of_tasks(views(tasks@)));
    }
    let counts = count_tags(&tags);
    most_frequent(&counts)
}

/// The event is that the note at `path` was asked for.
pub open spec fn is_read_of(event: VaultEvent, path: Seq<char>) -> bool {
    match event {
        VaultEvent::Read(asked, _) => asked == path,
        _ => false,
    }
}

/// The note that the event read, where it is a reading that went well.
pub open spec fn note_read(event: VaultEvent) -> Option<NoteView> {
    match event {
        VaultEvent::Read(_, got) => got,
        _ => None,
    }
}

/// The index `after` is `before` with one reading of `note` put in.
pub open spec fn reading_put_in(
    reads: spec_fn(NoteView, ParsedNoteView) -> bool,
    before: Seq<ParsedNoteView>,
    after: Seq<ParsedNoteView>,
    note: NoteView,
) -> bool {
    exists|parsed: ParsedNoteView|
        reads(note, parsed) && after == with_note(before, parsed)
}

/// What indexing a note leaves: a reading of it in the index, or the
/// failure of the store and the index as it was.
pub open spec fn note_indexed(
    reads: spec_fn(NoteView, ParsedNoteView) -> bool,
    before: Seq<ParsedNoteView>,
    after: Seq<ParsedNoteView>,
    note: NoteView,
    r: Result<(), DomainError>,
) -> bool {
    match r {
        Ok(_) => reading_put_in(reads, before, after, note),
        Err(e) => e is Store && after == before,
    }
}

/// What asking for the note at `path` and indexing it leaves, where
/// `event` is the request and its answer: the failure of the vault where no
/// note came, else what indexing that note leaves.
pub open spec fn read_indexed(
    reads: spec_fn(NoteView, ParsedNoteView) -> bool,
    before: Seq<ParsedNoteView>,
    after: Seq<ParsedNoteView>,
    event: VaultEvent,
    path: Seq<char>,
    r: Result<(), DomainError>,
) -> bool {
    &&& is_read_of(event, path)
    &&& match note_read(event) {
        None => r is Err && r->Err_0 is Vault && after == before,
        Some(note) => note_indexed(reads, before, after, note, r),
    }
}

/// What reading the notes at `paths` leaves, where `tail` holds the
/// requests made: round `i` asks for the note at `paths[i]`; each note that
/// came was put into the index, in this order; the first request that
/// failed, or whose note the store refused, was the last one made.
pub open spec fn paths_reindexed(
    reads: spec_fn(NoteView, ParsedNoteView) -> bool,
    before: Seq<ParsedNoteView>,
    after: Seq<ParsedNoteView>,
    tail: Seq<VaultEvent>,
    paths: Seq<Seq<char>>,
    r: Result<(), DomainError>,
) -> bool {
    exists|notes: Seq<ParsedNoteView>|
        rounds_done(reads, before, after, tail, paths, notes) && match r {
            Ok(_) => notes.len() == paths.len(),
            Err(e) => tail.len() == notes.len() + 1 && (if note_read(tail.last()) is None {
                e is Vault
            } else {
                e is Store
            }),
        }
}

/// The readings `notes` were put into the index, one for each of the first
/// requests of `tail`, and request `i` asked for the note at `paths[i]`.
pub open spec fn rounds_done(
    reads: spec_fn(NoteView, ParsedNoteView) -> bool,
    before: Seq<ParsedNoteView>,
    after: Seq<ParsedNoteView>,
    tail: Seq<VaultEvent>,
    paths: Seq<Seq<char>>,
    notes: Seq<ParsedNoteView>,
) -> bool {
    &&& after == with_notes(before, notes)
    &&& notes.len() <= tail.len() <= paths.len()
    &&& forall|i: int| 0 <= i < tail.len() ==> #[trigger] round_asks(tail, paths, i)
    &&& forall|i: int| 0 <= i < notes.len() ==> #[trigger] round_reads(reads, tail, notes, i)
}

/// Request `i` asked for the note at `paths[i]`.
pub open spec fn round_asks(tail: Seq<VaultEvent>, paths: Seq<Seq<char>>, i: int) -> bool {
    is_read_of(tail[i], paths[i])
}

/// Request `i` brought a note, and `notes[i]` is a reading of it.
pub open spec fn round_reads(
    reads: spec_fn(NoteView, ParsedNoteView) -> bool,
    tail: Seq<VaultEvent>,
    notes: Seq<ParsedNoteView>,
    i: int,
) -> bool {
    note_read(tail[i]) is Some && reads(note_read(tail[i])->0, notes[i])
}

/// What indexing the whole vault leaves, where `tail` holds the requests
/// made: first the paths are asked for; where none came, the vault failed
/// and the index stays; else the notes at these paths are read.
pub open spec fn vault_reindexed(
    reads: spec_fn(NoteView, ParsedNoteView) -> bool,
    before: Seq<ParsedNoteView>,
    after: Seq<ParsedNoteView>,
    tail: Seq<VaultEvent>,
    r: Result<(), DomainError>,
) -> bool {
    &&& tail.len() >= 1
    &&& match tail[0] {
        VaultEvent::Listed(Some(paths)) => paths_reindexed(
            reads,
            before,
            after,
            tail.skip(1),
            paths,
            r,
        ),
        VaultEvent::Listed(None) => tail.len() == 1 && after == before && r is Err && r->Err_0
            is Vault,
        _ => false,
    }
}

/// The failure that the note `id` is not in the index after it was put in:
/// after a write, or after the note was made.
pub open spec fn is_missing_error(e: DomainError, id: Seq<char>, written: bool) -> bool {
    match e {
        DomainError::UnavailableAfterWrite(missing) => written && missing@ == id,
        DomainError::UnavailableAfterCreation(missing) => !written && missing@ == id,
        _ => false,
    }
}

/// The note `id` as the index `after` holds it, or the failure that it is
/// missing.
pub open spec fn found_after(
    after: Seq<ParsedNoteView>,
    id: Seq<char>,
    written: bool,
    r: Result<Note, DomainError>,
) -> bool {
    match note_with_id(after, id) {
        Some(held) => r is Ok && r->Ok_0@ == held,
        None => r is Err && is_missing_error(r->Err_0, id, written),
    }
}

/// What asking for the note at `path`, indexing it and looking up the note
/// `id` leaves, where `event` is the request and its answer.
pub open spec fn read_indexed_and_found(
    reads: spec_fn(NoteView, ParsedNoteView) -> bool,
    before: Seq<ParsedNoteView>,
    after: Seq<ParsedNoteView>,
    event: VaultEvent,
    path: Seq<char>,
    id: Seq<char>,
    written: bool,
    r: Result<Note, DomainError>,
) -> bool {
    &&& is_read_of(event, path)
    &&& match note_read(event) {
        None => after == before && r is Err && r->Err_0 is Vault,
        Some(note) => (after == before && r is Err && r->Err_0 is Store) || (reading_put_in(
            reads,
            before,
            after,
            note,
        ) && found_after(after, id, written, r)),
    }
}

/// What writing the note `id` leaves, where `tail` holds the requests made.
/// A note that the index does not hold is not written: nothing is asked of
/// the vault. Else `content` is written to the path of the note; where that
/// went well, the note at that path is read, indexed and looked up.
pub open spec fn note_written(
    reads: spec_fn(NoteView, ParsedNoteView) -> bool,
    before: Seq<ParsedNoteView>,
    after: Seq<ParsedNoteView>,
    tail: Seq<VaultEvent>,
    id: Seq<char>,
    content: Seq<char>,
    r: Result<Note, DomainError>,
) -> bool {
    match note_with_id(before, id) {
        None => tail.len() == 0 && after == before && r is Err && (r->Err_0 matches DomainError::NotIndexed(
            missing,
        ) && missing@ == id),
        Some(held) => {
            &&& tail.len() >= 1
            &&& match tail[0] {
                VaultEvent::Wrote(path, text, went_well) => {
                    &&& path == held.path
                    &&& text == content
                    &&& if went_well {
                        tail.len() == 2 && read_indexed_and_found(
                            reads,
                            before,
                            after,
                            tail[1],
                            held.path,
                            id,
                            true,
                            r,
                        )
                    } else {
                        tail.len() == 1 && after == before && r is Err && r->Err_0 is Vault
                    }
                },
                _ => false,
            }
        },
    }
}

/// What opening the note in the file at `path` leaves, where `tail` holds
/// the requests made. First the vault is asked whether a file stands at
/// `path`. Where none does, the file is made with the text `template`, and
/// in no other case; where that fails, nothing more is asked. Then the note
/// at `path` is read, indexed and looked up under the identifier `path`.
pub open spec fn note_opened(
    reads: spec_fn(NoteView, ParsedNoteView) -> bool,
    before: Seq<ParsedNoteView>,
    after: Seq<ParsedNoteView>,
    tail: Seq<VaultEvent>,
    path: Seq<char>,
    template: Seq<char>,
    r: Result<Note, DomainError>,
) -> bool {
    &&& tail.len() >= 2
    &&& match tail[0] {
        VaultEvent::Asked(asked, true) => asked == path && tail.len() == 2
            && read_indexed_and_found(reads, before, after, tail[1], path, path, false, r),
        VaultEvent::Asked(asked, false) => asked == path && match tail[1] {
            VaultEvent::Made(made, text, went_well) => {
                &&& made == path
                &&& text == template
                &&& if went_well {
                    tail.len() == 3 && read_indexed_and_found(
                        reads,
                        before,
                        after,
                        tail[2],
                        path,
                        path,
                        false,
                        r,
                    )
                } else {
                    tail.len() == 2 && after == before && r is Err && r->Err_0 is Vault
                }
            },
            _ => false,
        },
        _ => false,
    }
}

/// The path that the first request of `tail` gave for a file in the root
/// of the vault.
pub open spec fn path_placed(tail: Seq<VaultEvent>) -> Seq<char> {
    match tail[0] {
        VaultEvent::Placed(_, _, path) => path,
        _ => Seq::empty(),
    }
}

/// The first request of `tail` asked for the path of the file `name` in
/// the root of the vault.
pub open spec fn is_placing(tail: Seq<VaultEvent>, name: Seq<char>) -> bool {
    &&& tail.len() >= 1
    &&& match tail[0] {
        VaultEvent::Placed(_, asked, _) => asked == name,
        _ => false,
    }
}

/// What opening the note of the day `date` leaves, where `tail` holds the
/// requests made. Where the index holds a note of the day, that note is
/// returned, and nothing is asked of the vault. Where it holds none and the
/// date has no text, the call fails, and nothing is asked of the vault.
/// Else the path of the file named by the date is asked for, and the note
/// is opened in the file at that path, with the template of the day.
pub open spec fn daily_opened(
    reads: spec_fn(NoteView, ParsedNoteView) -> bool,
    before: Seq<ParsedNoteView>,
    after: Seq<ParsedNoteView>,
    tail: Seq<VaultEvent>,
    date: Date,
    r: Result<Note, DomainError>,
) -> bool {
    if holds_note_of_day(before, date) {
        tail.len() == 0 && after == before && r is Ok && Some(r->Ok_0@) == note_with_id(
            before,
            notes_in_range(before, day_range(date))[0].id,
        )
    } else {
        match formatted_date(date, full_year_pattern()) {
            None => tail.len() == 0 && after == before && r is Err && r->Err_0
                == DomainError::NoFileName(date),
            Some(text) => is_placing(tail, text + ".md"@) && note_opened(
                reads,
                before,
                after,
                tail.skip(1),
                path_placed(tail),
                daily_template(text),
                r,
            ),
        }
    }
}

/// The text to write to a file that is to hold a note: the template where
/// no file is there, and nothing where one is.
pub fn text_to_write(file_is_there: bool, template: &str) -> (text: Option<String>)
    ensures
        file_is_there ==> text is None,
        !file_is_there ==> text is Some && text->0@ == template@,
{
    if file_is_there {
        None
    } else {
        Some(template.to_owned())
    }
}


/// Reads notes from a vault, parses them and puts them into an index.
pub struct VaultIndexManager<V: Vault, I: IndexStore> {
    pub vault: WatchedVault<V>,
    pub index: I,
    pub parser: Box<dyn NoteParser>,
}

impl<V: Vault, I: IndexStore> VaultIndexManager<V, I> {
    pub fn new(vault: V, index: I, parser: Box<dyn NoteParser>) -> (manager: Self)
        ensures
            manager.vault.inner() == vault,
            manager.trail() == Seq::<VaultEvent>::empty(),
            manager.index == index,
    {
        VaultIndexManager { vault: WatchedVault::new(vault), index, parser }
    }

    /// What was asked of the vault so far.
    pub open spec fn trail(&self) -> Seq<VaultEvent> {
        self.vault.trail()
    }

    /// Whether `parsed` is a reading of `note` that the parser may give.
    pub open spec fn reads(&self, note: NoteView, parsed: ParsedNoteView) -> bool {
        self.parser.parses(note, parsed)
    }

    /// The readings that the parser may give, as a relation of notes and
    /// readings.
    pub open spec fn readings(&self) -> spec_fn(NoteView, ParsedNoteView) -> bool {
        |note: NoteView, parsed: ParsedNoteView| self.parser.parses(note, parsed)
    }

    /// Whether `parsed` is a reading that the parser may give of some note.
    pub open spec fn is_reading(&self, parsed: ParsedNoteView) -> bool {
        exists|note: NoteView| self.reads(note, parsed)
    }

    /// Whether each of `notes` is a reading of the parser.
    pub open spec fn are_readings(&self, notes: Seq<ParsedNoteView>) -> bool {
        forall|k: int| 0 <= k < notes.len() ==> self.is_reading(#[trigger] notes[k])
    }

    /// The records of the index.
    pub open spec fn records(&self) -> Seq<ParsedNoteView> {
        self.index.records()
    }

    /// The manager differs from `before` in its index and in what was
    /// asked of the vault alone: the vault and the parser are those of
    /// `before`.
    pub open spec fn same_parts(&self, before: &Self) -> bool {
        self.vault.inner() == before.vault.inner() && self.parser == before.parser
    }

    /// A reading that was put in is a reading of the parser.
    pub proof fn lemma_reading_put_in(
        &self,
        before: Seq<ParsedNoteView>,
        after: Seq<ParsedNoteView>,
        note: NoteView,
    )
        requires
            reading_put_in(self.readings(), before, after, note),
        ensures
            exists|parsed: ParsedNoteView|
                self.is_reading(parsed) && after == with_note(before, parsed),
    {
        let reads = self.readings();
        let parsed = choose|parsed: ParsedNoteView|
            reads(note, parsed) && after == with_note(before, parsed);
        assert(self.reads(note, parsed));
        assert(self.is_reading(parsed) && after == with_note(before, parsed));
    }

    /// Parses the note and puts it into the index, in place of what the
    /// index held of it. Nothing is asked of the vault.
    pub fn index_note(&mut self, note: Note) -> (r: Result<(), DomainError>)
        ensures
            final(self).same_parts(old(self)),
            final(self).trail() == old(self).trail(),
            note_indexed(old(self).readings(), old(self).records(), final(self).records(), note@, r),
    {
        let parsed = self.parser.parse(note);
        let ghost reading = parsed@;
        match self.index.upsert_parsed_note(parsed) {
            Ok(()) => {
                assert(old(self).readings()(note@, reading));
                assert(self.records() == with_note(old(self).records(), reading));
                Ok(())
            },
            Err(e) => Err(DomainError::Store(e)),
        }
    }

    /// Reads the note at `path` and puts it into the index: the one thing
    /// asked of the vault is the note at `path`.
    pub fn reindex_note_path(&mut self, path: &str) -> (r: Result<(), DomainError>)
        ensures
            final(self).same_parts(old(self)),
            final(self).trail() == old(self).trail().push(final(self).trail().last()),
            read_indexed(
                old(self).readings(),
                old(self).records(),
                final(self).records(),
                final(self).trail().last(),
                path@,
                r,
            ),
            r is Ok ==> exists|parsed: ParsedNoteView|
                old(self).is_reading(parsed) && final(self).records() == with_note(
                    old(self).records(),
                    parsed,
                ),
            r is Err ==> final(self).records() == old(self).records(),
            r is Err ==> r->Err_0 is Vault || r->Err_0 is Store,
    {
        match self.vault.read_note(path) {
            Ok(note) => {
                let r = self.index_note(note);
                proof {
                    if r is Ok {
                        old(self).lemma_reading_put_in(
                            old(self).records(),
                            self.records(),
                            note@,
                        );
                    }
                }
                r
            },
            Err(e) => Err(DomainError::Vault(e)),
        }
    }

    /// Reads the note at each of `paths`, in their order, and puts it into
    /// the index. The first note that cannot be read or put in ends the
    /// work; the notes before it stay indexed. So the index holds one
    /// reading for each path where all went well, and fewer where not.
    pub fn reindex_paths(&mut self, paths: &Vec<String>) -> (r: Result<(), DomainError>)
        ensures
            final(self).same_parts(old(self)),
            extends(old(self).trail(), final(self).trail()),
            paths_reindexed(
                old(self).readings(),
                old(self).records(),
                final(self).records(),
                since(old(self).trail(), final(self).trail()),
                views(paths@),
                r,
            ),
            exists|notes: Seq<ParsedNoteView>|
                old(self).are_readings(notes) && final(self).records() == with_notes(
                    old(self).records(),
                    notes,
                ) && notes.len() <= paths@.len() && (r is Ok ==> notes.len() == paths@.len()) && (r
                    is Err ==> notes.len() < paths@.len()),
            r is Err ==> r->Err_0 is Vault || r->Err_0 is Store,
    {
        let ghost all = views(paths@);
        let ghost start = self.trail();
        let ghost mut done: Seq<ParsedNoteView> = Seq::empty();
        let mut i: usize = 0;
        proof {
            lemma_trail_same(start);
        }
        while i < paths.len()
            invariant
                i <= paths.len(),
                done.len() == i,
                all == views(paths@),
                start == old(self).trail(),
                self.same_parts(old(self)),
                old(self).are_readings(done),
                extends(start, self.trail()),
                since(start, self.trail()).len() == i,
                rounds_done(
                    old(self).readings(),
                    old(self).records(),
                    self.records(),
                    since(start, self.trail()),
                    all,
                    done,
                ),
            decreases paths.len() - i,
        {
            let ghost before = self.records();
            let ghost trail_before = self.trail();
            let r = self.reindex_note_path(paths[i].as_str());
            let ghost event = self.trail().last();
            let ghost tail = since(start, self.trail());
            let ghost earlier = since(start, trail_before);
            let ghost reads = old(self).readings();
            proof {
                lemma_trail_push(start, trail_before, event);
                assert(tail == earlier.push(event));
                assert(is_read_of(event, all[i as int]));
                assert forall|k: int| 0 <= k < tail.len() implies #[trigger] round_asks(
                    tail,
                    all,
                    k,
                ) by {
                    if k < earlier.len() {
                        assert(round_asks(earlier, all, k));
                        assert(tail[k] == earlier[k]);
                    }
                }
                assert forall|k: int| 0 <= k < done.len() implies #[trigger] round_reads(
                    reads,
                    tail,
                    done,
                    k,
                ) by {
                    assert(round_reads(reads, earlier, done, k));
                    assert(tail[k] == earlier[k]);
                }
            }
            match r {
                Ok(()) => {
                    proof {
                        let note = note_read(event)->0;
                        let parsed = choose|parsed: ParsedNoteView|
                            reads(note, parsed) && self.records() == with_note(before, parsed);
                        assert(old(self).reads(note, parsed));
                        assert(done.push(parsed).drop_last() =~= done);
                        let more = done.push(parsed);
                        assert forall|k: int| 0 <= k < more.len() implies #[trigger] round_reads(
                            reads,
                            tail,
                            more,
                            k,
                        ) by {
                            if k < done.len() {
                                assert(round_reads(reads, tail, done, k));
                                assert(more[k] == done[k]);
                            }
                        }
                        done = more;
                    }
                },
                Err(e) => {
                    proof {
                        assert(rounds_done(
                            reads,
                            old(self).records(),
                            self.records(),
                            tail,
                            all,
                            done,
                        ));
                    }
                    return Err(e);
                },
            }
            i = i + 1;
        }
        Ok(())
    }

    /// Reads every note of the vault and puts it into the index: the paths
    /// that the vault lists are handed to `reindex_paths`. Where the vault
    /// cannot list them, the index stays as it is.
    pub fn full_reindex(&mut self) -> (r: Result<(), DomainError>)
        ensures
            final(self).same_parts(old(self)),
            extends(old(self).trail(), final(self).trail()),
            vault_reindexed(
                old(self).readings(),
                old(self).records(),
                final(self).records(),
                since(old(self).trail(), final(self).trail()),
                r,
            ),
            exists|notes: Seq<ParsedNoteView>|
                old(self).are_readings(notes) && final(self).records() == with_notes(
                    old(self).records(),
                    notes,
                ),
            r is Err ==> r->Err_0 is Vault || r->Err_0 is Store,
    {
        let ghost start = self.trail();
        proof {
            lemma_trail_same(start);
        }
        match self.vault.list_note_paths() {
            Ok(paths) => {
                let ghost listed = self.trail();
                let ghost mid = *self;
                proof {
                    lemma_trail_push(start, start, listed.last());
                    assert(mid.readings() =~= old(self).readings());
                }
                let r = self.reindex_paths(&paths);
                proof {
                    let tail = since(start, self.trail());
                    lemma_trail_split(start, listed, self.trail());
                    assert(tail[0] == listed.last());
                    assert(tail.skip(1) =~= since(listed, self.trail()));
                    let notes = choose|notes: Seq<ParsedNoteView>|
                        mid.are_readings(notes) && self.records() == with_notes(
                            mid.records(),
                            notes,
                        );
                    assert forall|k: int| 0 <= k < notes.len() implies old(self).is_reading(
                        #[trigger] notes[k],
                    ) by {
                        let note = choose|note: NoteView| mid.reads(note, notes[k]);
                        assert(old(self).reads(note, notes[k]));
                    }
                    assert(old(self).are_readings(notes));
                }
                r
            },
            Err(e) => {
                proof {
                    let tail = since(start, self.trail());
                    lemma_trail_push(start, start, self.trail().last());
                    assert(tail =~= seq![self.trail().last()]);
                    assert(old(self).are_readings(Seq::empty()) && self.records() == with_notes(
                        old(self).records(),
                        Seq::empty(),
                    ));
                }
                Err(DomainError::Vault(e))
            },
        }
    }
}


/// The vault with its index: what a caller of the vault can ask for.
pub struct Domain<V: Vault, I: IndexStore> {
    pub index_mgr: VaultIndexManager<V, I>,
}

impl<V: Vault, I: IndexStore> Domain<V, I> {
    pub fn new(index_mgr: VaultIndexManager<V, I>) -> (domain: Self)
        ensures
            domain.index_mgr == index_mgr,
    {
        Domain { index_mgr }
    }

    /// The records of the index.
    pub open spec fn records(&self) -> Seq<ParsedNoteView> {
        self.index_mgr.index.records()
    }

    /// The domain differs from `before` in its index and in what was asked
    /// of the vault alone: vault and parser are those of `before`.
    pub open spec fn same_parts(&self, before: &Self) -> bool {
        self.index_mgr.same_parts(&before.index_mgr)
    }

    /// What was asked of the vault so far.
    pub open spec fn trail(&self) -> Seq<VaultEvent> {
        self.index_mgr.vault.trail()
    }

    /// Reads every note of the vault and puts it into the index.
    pub fn reindex_all(&mut self) -> (r: Result<(), DomainError>)
        ensures
            final(self).same_parts(old(self)),
            extends(old(self).trail(), final(self).trail()),
            vault_reindexed(
                old(self).index_mgr.readings(),
                old(self).records(),
                final(self).records(),
                since(old(self).trail(), final(self).trail()),
                r,
            ),
            exists|notes: Seq<ParsedNoteView>|
                old(self).index_mgr.are_readings(notes) && final(self).records() == with_notes(
                    old(self).records(),
                    notes,
                ),
            r is Err ==> r->Err_0 is Vault || r->Err_0 is Store,
    {
        let r = self.index_mgr.full_reindex();
        proof {
            let notes = choose|notes: Seq<ParsedNoteView>|
                old(self).index_mgr.are_readings(notes) && self.index_mgr.records() == with_notes(
                    old(self).index_mgr.records(),
                    notes,
                );
            assert(old(self).index_mgr.are_readings(notes) && self.records() == with_notes(
                old(self).records(),
                notes,
            ));
        }
        r
    }


    /// The tasks that meet the filter.
    pub fn list_tasks(&self, filter: &TaskFilter) -> (r: Vec<Task>)
        ensures
            views(r@) == tasks_matching(self.records(), filter@),
    {
        self.index_mgr.index.list_tasks(filter)
    }

    /// The task `id` with its mentions, where the index holds the task.
    pub fn task_detail(&self, id: &TaskId) -> (r: Option<(Task, Vec<TaskMention>)>)
        ensures
            match task_with_id(all_tasks(self.records()), id@) {
                Some(task) => r matches Some(pair) && pair.0@ == task && views(pair.1@)
                    == mentions_naming(all_mentions(self.records()), id@),
                None => r is None,
            },
    {
        match self.index_mgr.index.get_task(id) {
            Some(task) => {
                let mentions = self.index_mgr.index.get_mentions_for_task(id);
                Some((task, mentions))
            },
            None => None,
        }
    }

    /// The tasks and log entries that carry `tag`.
    pub fn items_for_tag(&self, tag: &str) -> (r: TagResult)
        ensures
            r@ == items_tagged(self.records(), tag@),
    {
        self.index_mgr.index.items_for_tag(tag)
    }

    /// The notes that are dated within the range, by date.
    pub fn notes_in_range(&self, range: &DateRange) -> (r: Vec<NoteMeta>)
        ensures
            views(r@) == notes_in_range(self.records(), *range),
    {
        self.index_mgr.index.list_notes_by_date(range)
    }

    /// The tags of the index, in lexicographic order, each once.
    pub fn list_tags(&self) -> (r: Vec<String>)
        ensures
            lists_tags(self.records(), views(r@)),
    {
        self.index_mgr.index.list_tags()
    }

    /// The note `id`.
    pub fn read_note(&self, id: &NoteId) -> (r: Option<Note>)
        ensures
            optional_view(r) == note_with_id(self.records(), id@),
    {
        self.index_mgr.index.get_note(id)
    }

    /// Writes `content` to the file of the note `id` and indexes the note
    /// anew. A note that the index does not hold is not written.
    pub fn write_note(&mut self, id: &NoteId, content: &str) -> (r: Result<Note, DomainError>)
        ensures
            final(self).same_parts(old(self)),
            extends(old(self).trail(), final(self).trail()),
            note_written(
                old(self).index_mgr.readings(),
                old(self).records(),
                final(self).records(),
                since(old(self).trail(), final(self).trail()),
                id@,
                content@,
                r,
            ),
    {
        let ghost start = self.trail();
        proof {
            lemma_trail_same(start);
        }
        let note = match self.index_mgr.index.get_note(id) {
            Some(note) => note,
            None => {
                return Err(DomainError::NotIndexed(id.duplicate()));
            },
        };
        let wrote = self.index_mgr.vault.write_file(note.path.as_str(), content);
        let ghost written = self.trail();
        let ghost mid = *self;
        proof {
            lemma_trail_push(start, start, written.last());
            assert(since(start, written) =~= seq![written.last()]);
            assert(mid.index_mgr.readings() =~= old(self).index_mgr.readings());
        }
        match wrote {
            Ok(()) => {},
            Err(e) => {
                return Err(DomainError::Vault(e));
            },
        }
        let indexed = self.index_mgr.reindex_note_path(note.path.as_str());
        proof {
            let tail = since(start, self.trail());
            lemma_trail_push(start, written, self.trail().last());
            assert(tail =~= seq![written.last(), self.trail().last()]);
        }
        match indexed {
            Ok(()) => {},
            Err(e) => {
                return Err(e);
            },
        }
        match self.index_mgr.index.get_note(id) {
            Some(note) => Ok(note),
            None => Err(DomainError::UnavailableAfterWrite(id.duplicate())),
        }
    }

    /// The note in the file at `path`. Where the vault has no file there,
    /// one is made first, with the text `template`. The note is read,
    /// parsed and put into the index, and returned as the index holds it
    /// under the identifier `path`.
    pub fn open_note_at(&mut self, path: String, template: &str) -> (r: Result<Note, DomainError>)
        ensures
            final(self).same_parts(old(self)),
            extends(old(self).trail(), final(self).trail()),
            note_opened(
                old(self).index_mgr.readings(),
                old(self).records(),
                final(self).records(),
                since(old(self).trail(), final(self).trail()),
                path@,
                template@,
                r,
            ),
    {
        let ghost start = self.trail();
        let there = self.index_mgr.vault.has_file(path.as_str());
        let ghost asked = self.trail();
        proof {
            lemma_trail_same(start);
            lemma_trail_push(start, start, asked.last());
            assert(since(start, asked) =~= seq![asked.last()]);
        }
        match text_to_write(there, template) {
            Some(text) => {
                let made = self.index_mgr.vault.create_file(path.as_str(), text.as_str());
                proof {
                    lemma_trail_push(start, asked, self.trail().last());
                    assert(since(start, self.trail()) =~= seq![asked.last(), self.trail().last()]);
                }
                match made {
                    Ok(()) => {},
                    Err(e) => {
                        return Err(DomainError::Vault(e));
                    },
                }
            },
            None => {},
        }
        let ghost ready = self.trail();
        let ghost mid = *self;
        proof {
            assert(mid.index_mgr.readings() =~= old(self).index_mgr.readings());
        }
        let indexed = self.index_mgr.reindex_note_path(path.as_str());
        proof {
            lemma_trail_push(start, ready, self.trail().last());
        }
        match indexed {
            Ok(()) => {},
            Err(e) => {
                return Err(e);
            },
        }
        let id = NoteId(path);
        match self.index_mgr.index.get_note(&id) {
            Some(note) => Ok(note),
            None => Err(DomainError::UnavailableAfterCreation(id)),
        }
    }

    /// The note of the day `date`. Where the index holds a note of that
    /// day, that note is returned and nothing is asked of the vault. Else
    /// the file of the day is made in the root of the vault, unless it is
    /// there, and indexed.
    pub fn open_daily(&mut self, date: Date) -> (r: Result<Note, DomainError>)
        ensures
            final(self).same_parts(old(self)),
            extends(old(self).trail(), final(self).trail()),
            daily_opened(
                old(self).index_mgr.readings(),
                old(self).records(),
                final(self).records(),
                since(old(self).trail(), final(self).trail()),
                date,
                r,
            ),
    {
        let ghost start = self.trail();
        proof {
            lemma_trail_same(start);
        }
        let range = DateRange { start: date, end: date };
        let found = self.index_mgr.index.list_notes_by_date(&range);
        if found.len() > 0 {
            match self.index_mgr.index.get_note(&found[0].id) {
                Some(note) => {
                    return Ok(note);
                },
                None => {},
            }
        }
        let (name, template) = match daily_note_file(date) {
            Some(file) => file,
            None => {
                return Err(DomainError::NoFileName(date));
            },
        };
        let path = self.index_mgr.vault.place(name.as_str());
        let ghost placed = self.trail();
        let ghost mid = *self;
        proof {
            lemma_trail_push(start, start, placed.last());
            assert(mid.index_mgr.readings() =~= old(self).index_mgr.readings());
        }
        let r = self.open_note_at(path, template.as_str());
        proof {
            let tail = since(start, self.trail());
            lemma_trail_split(start, placed, self.trail());
            assert(since(start, placed) =~= seq![placed.last()]);
            assert(tail[0] == placed.last());
            assert(tail.skip(1) =~= since(placed, self.trail()));
        }
        r
    }


    /// The summary of the range.
    pub fn weekly_summary(&self, range: &DateRange) -> (r: WeeklySummary)
        ensures
            r@ == weekly_summary_of(self.records(), *range),
    {
        let filter = TaskFilter::default();
        let all_tasks = self.index_mgr.index.list_tasks(&filter);
        let new_tasks = select_created(&all_tasks, range);
        let completed_tasks = select_closed(&all_tasks, range);
        let notes = self.index_mgr.index.list_notes_by_date(range);
        let top_tags = top_tags_of(&all_tasks);
        WeeklySummary { new_tasks, completed_tasks, notes, top_tags }
    }
}

} // verus!
