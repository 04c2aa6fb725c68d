//! The records of the vault: notes, tasks, log entries and task mentions,
//! each with the mathematical value that contracts speak of.

use crate::date::{Date, DateTime};
use crate::text::{duplicate_all, duplicate_optional, optional_text, views, Duplicate};
use vstd::prelude::*;

verus! {

/// Identifier of a note: the text of its storage path.
#[derive(Debug, PartialEq, Eq, Hash)]
pub struct NoteId(pub String);

/// Identifier of a task, as its author wrote it (`T-2025-001`).
#[derive(Debug, PartialEq, Eq, Hash)]
pub struct TaskId(pub String);

/// Identifier of a log entry: the note's identifier, a colon and the line number.
#[derive(Debug, PartialEq, Eq, Hash)]
pub struct LogEntryId(pub String);

impl View for NoteId {
    type V = Seq<char>;

    open spec fn view(&self) -> Seq<char> {
        self.0@
    }
}

impl View for TaskId {
    type V = Seq<char>;

    open spec fn view(&self) -> Seq<char> {
        self.0@
    }
}

impl View for LogEntryId {
    type V = Seq<char>;

    open spec fn view(&self) -> Seq<char> {
        self.0@
    }
}

impl Duplicate for NoteId {
    fn duplicate(&self) -> (r: NoteId) {
        NoteId(self.0.clone())
    }
}

impl Duplicate for TaskId {
    fn duplicate(&self) -> (r: TaskId) {
        TaskId(self.0.clone())
    }
}

impl Duplicate for LogEntryId {
    fn duplicate(&self) -> (r: LogEntryId) {
        LogEntryId(self.0.clone())
    }
}

impl Clone for NoteId {
    fn clone(&self) -> (r: NoteId)
        ensures
            r@ == self@,
    {
        self.duplicate()
    }
}

impl Clone for TaskId {
    fn clone(&self) -> (r: TaskId)
        ensures
            r@ == self@,
    {
        self.duplicate()
    }
}

impl Clone for LogEntryId {
    fn clone(&self) -> (r: LogEntryId)
        ensures
            r@ == self@,
    {
        self.duplicate()
    }
}

/// The identifier that an optional note identifier holds, as text.
pub open spec fn optional_note_id(id: Option<NoteId>) -> Option<Seq<char>> {
    match id {
        Some(id) => Some(id@),
        None => None,
    }
}

/// The identifier that an optional log entry identifier holds, as text.
pub open spec fn optional_entry_id(id: Option<LogEntryId>) -> Option<Seq<char>> {
    match id {
        Some(id) => Some(id@),
        None => None,
    }
}

/// A Markdown note as it was loaded from the vault.
#[derive(Debug)]
pub struct Note {
    pub id: NoteId,
    pub path: String,
    pub title: String,
    pub date: Option<Date>,
    pub content: String,
}

pub struct NoteView {
    pub id: Seq<char>,
    pub path: Seq<char>,
    pub title: Seq<char>,
    pub date: Option<Date>,
    pub content: Seq<char>,
}

impl View for Note {
    type V = NoteView;

    open spec fn view(&self) -> NoteView {
        NoteView {
            id: self.id@,
            path: self.path@,
            title: self.title@,
            date: self.date,
            content: self.content@,
        }
    }
}

impl Duplicate for Note {
    fn duplicate(&self) -> (r: Note) {
        Note {
            id: self.id.duplicate(),
            path: self.path.clone(),
            title: self.title.clone(),
            date: self.date,
            content: self.content.clone(),
        }
    }
}

impl Clone for Note {
    fn clone(&self) -> (r: Note)
        ensures
            r@ == self@,
    {
        self.duplicate()
    }
}

/// What a list of notes shows of a note: everything but its content.
#[derive(Debug)]
pub struct NoteMeta {
    pub id: NoteId,
    pub path: String,
    pub title: String,
    pub date: Option<Date>,
}

pub struct NoteMetaView {
    pub id: Seq<char>,
    pub path: Seq<char>,
    pub title: Seq<char>,
    pub date: Option<Date>,
}

impl View for NoteMeta {
    type V = NoteMetaView;

    open spec fn view(&self) -> NoteMetaView {
        NoteMetaView { id: self.id@, path: self.path@, title: self.title@, date: self.date }
    }
}

impl Duplicate for NoteMeta {
    fn duplicate(&self) -> (r: NoteMeta) {
        NoteMeta {
            id: self.id.duplicate(),
            path: self.path.clone(),
            title: self.title.clone(),
            date: self.date,
        }
    }
}

impl Clone for NoteMeta {
    fn clone(&self) -> (r: NoteMeta)
        ensures
            r@ == self@,
    {
        self.duplicate()
    }
}

impl NoteView {
    /// The note without its content.
    pub open spec fn meta(self) -> NoteMetaView {
        NoteMetaView { id: self.id, path: self.path, title: self.title, date: self.date }
    }
}

impl Note {
    /// The note without its content.
    pub fn meta(&self) -> (m: NoteMeta)
        ensures
            m@ == self@.meta(),
    {
        NoteMeta {
            id: self.id.duplicate(),
            path: self.path.clone(),
            title: self.title.clone(),
            date: self.date,
        }
    }
}

/// Where a task stands in its life.
#[derive(Clone, Copy, Debug, PartialEq, Eq, Structural)]
pub enum TaskStatus {
    Open,
    InProgress,
    Done,
    Blocked,
}

impl Default for TaskStatus {
    fn default() -> (s: TaskStatus)
        ensures
            s == TaskStatus::Open,
    {
        TaskStatus::Open
    }
}

/// A task of the `## Tasks` section of a note.
#[derive(Debug)]
pub struct Task {
    pub id: TaskId,
    pub title: String,
    pub status: TaskStatus,
    pub created_at: DateTime,
    pub updated_at: DateTime,
    pub closed_at: Option<DateTime>,
    pub tags: Vec<String>,
    pub description_md: Option<String>,
    pub source_note_id: Option<NoteId>,
}

pub struct TaskView {
    pub id: Seq<char>,
    pub title: Seq<char>,
    pub status: TaskStatus,
    pub created_at: DateTime,
    pub updated_at: DateTime,
    pub closed_at: Option<DateTime>,
    pub tags: Seq<Seq<char>>,
    pub description_md: Option<Seq<char>>,
    pub source_note_id: Option<Seq<char>>,
}

impl View for Task {
    type V = TaskView;

    open spec fn view(&self) -> TaskView {
        TaskView {
            id: self.id@,
            title: self.title@,
            status: self.status,
            created_at: self.created_at,
            updated_at: self.updated_at,
            closed_at: self.closed_at,
            tags: views(self.tags@),
            description_md: optional_text(self.description_md),
            source_note_id: optional_note_id(self.source_note_id),
        }
    }
}

impl Duplicate for Task {
    fn duplicate(&self) -> (r: Task) {
        Task {
            id: self.id.duplicate(),
            title: self.title.clone(),
            status: self.status,
            created_at: self.created_at,
            updated_at: self.updated_at,
            closed_at: self.closed_at,
            tags: duplicate_all(&self.tags),
            description_md: duplicate_optional(&self.description_md),
            source_note_id: match &self.source_note_id {
                Some(id) => Some(id.duplicate()),
                None => None,
            },
        }
    }
}

impl Clone for Task {
    fn clone(&self) -> (r: Task)
        ensures
            r@ == self@,
    {
        self.duplicate()
    }
}

/// A bullet of the `## Log` section of a note.
#[derive(Debug)]
pub struct LogEntry {
    pub id: LogEntryId,
    pub note_id: NoteId,
    pub line_number: usize,
    pub timestamp: Option<String>,
    pub content_md: String,
    pub tags: Vec<String>,
    pub task_ids: Vec<TaskId>,
}

pub struct LogEntryView {
    pub id: Seq<char>,
    pub note_id: Seq<char>,
    pub line_number: nat,
    pub timestamp: Option<Seq<char>>,
    pub content_md: Seq<char>,
    pub tags: Seq<Seq<char>>,
    pub task_ids: Seq<Seq<char>>,
}

impl View for LogEntry {
    type V = LogEntryView;

    open spec fn view(&self) -> LogEntryView {
        LogEntryView {
            id: self.id@,
            note_id: self.note_id@,
            line_number: self.line_number as nat,
            timestamp: optional_text(self.timestamp),
            content_md: self.content_md@,
            tags: views(self.tags@),
            task_ids: views(self.task_ids@),
        }
    }
}

impl Duplicate for LogEntry {
    fn duplicate(&self) -> (r: LogEntry) {
        LogEntry {
            id: self.id.duplicate(),
            note_id: self.note_id.duplicate(),
            line_number: self.line_number,
            timestamp: duplicate_optional(&self.timestamp),
            content_md: self.content_md.clone(),
            tags: duplicate_all(&self.tags),
            task_ids: duplicate_all(&self.task_ids),
        }
    }
}

impl Clone for LogEntry {
    fn clone(&self) -> (r: LogEntry)
        ensures
            r@ == self@,
    {
        self.duplicate()
    }
}

/// A backlink: a log entry of some note names a task.
#[derive(Debug)]
pub struct TaskMention {
    pub task_id: TaskId,
    pub note_id: NoteId,
    pub log_entry_id: Option<LogEntryId>,
    pub excerpt: String,
}

pub struct TaskMentionView {
    pub task_id: Seq<char>,
    pub note_id: Seq<char>,
    pub log_entry_id: Option<Seq<char>>,
    pub excerpt: Seq<char>,
}

impl View for TaskMention {
    type V = TaskMentionView;

    open spec fn view(&self) -> TaskMentionView {
        TaskMentionView {
            task_id: self.task_id@,
            note_id: self.note_id@,
            log_entry_id: optional_entry_id(self.log_entry_id),
            excerpt: self.excerpt@,
        }
    }
}

impl Duplicate for TaskMention {
    fn duplicate(&self) -> (r: TaskMention) {
        TaskMention {
            task_id: self.task_id.duplicate(),
            note_id: self.note_id.duplicate(),
            log_entry_id: match &self.log_entry_id {
                Some(id) => Some(id.duplicate()),
                None => None,
            },
            excerpt: self.excerpt.clone(),
        }
    }
}

impl Clone for TaskMention {
    fn clone(&self) -> (r: TaskMention)
        ensures
            r@ == self@,
    {
        self.duplicate()
    }
}

/// A note with everything the parser found in it.
#[derive(Debug)]
pub struct ParsedNote {
    pub note: Note,
    pub tasks: Vec<Task>,
    pub log_entries: Vec<LogEntry>,
    pub mentions: Vec<TaskMention>,
}

pub struct ParsedNoteView {
    pub note: NoteView,
    pub tasks: Seq<TaskView>,
    pub log_entries: Seq<LogEntryView>,
    pub mentions: Seq<TaskMentionView>,
}

impl View for ParsedNote {
    type V = ParsedNoteView;

    open spec fn view(&self) -> ParsedNoteView {
        ParsedNoteView {
            note: self.note@,
            tasks: views(self.tasks@),
            log_entries: views(self.log_entries@),
            mentions: views(self.mentions@),
        }
    }
}

impl Duplicate for ParsedNote {
    fn duplicate(&self) -> (r: ParsedNote) {
        ParsedNote {
            note: self.note.duplicate(),
            tasks: duplicate_all(&self.tasks),
            log_entries: duplicate_all(&self.log_entries),
            mentions: duplicate_all(&self.mentions),
        }
    }
}

impl Clone for ParsedNote {
    fn clone(&self) -> (r: ParsedNote)
        ensures
            r@ == self@,
    {
        self.duplicate()
    }
}

/// What a query for tasks asks for. A field that is unset, or an empty list
/// of tags, asks for nothing.
#[derive(Debug)]
pub struct TaskFilter {
    pub status: Option<TaskStatus>,
    pub tags: Vec<String>,
    pub text_search: Option<String>,
    pub touched_since: Option<Date>,
}

pub struct TaskFilterView {
    pub status: Option<TaskStatus>,
    pub tags: Seq<Seq<char>>,
    pub text_search: Option<Seq<char>>,
    pub touched_since: Option<Date>,
}

impl View for TaskFilter {
    type V = TaskFilterView;

    open spec fn view(&self) -> TaskFilterView {
        TaskFilterView {
            status: self.status,
            tags: views(self.tags@),
            text_search: optional_text(self.text_search),
            touched_since: self.touched_since,
        }
    }
}

impl TaskFilterView {
    /// The filter that asks for nothing.
    pub open spec fn all() -> TaskFilterView {
        TaskFilterView {
            status: None,
            tags: Seq::empty(),
            text_search: None,
            touched_since: None,
        }
    }
}

impl Default for TaskFilter {
    fn default() -> (f: TaskFilter)
        ensures
            f@ == TaskFilterView::all(),
    {
        let f = TaskFilter { status: None, tags: Vec::new(), text_search: None, touched_since: None };
        assert(f@.tags =~= Seq::empty());
        f
    }
}

impl Duplicate for TaskFilter {
    fn duplicate(&self) -> (r: TaskFilter) {
        TaskFilter {
            status: self.status,
            tags: duplicate_all(&self.tags),
            text_search: duplicate_optional(&self.text_search),
            touched_since: self.touched_since,
        }
    }
}

impl Clone for TaskFilter {
    fn clone(&self) -> (r: TaskFilter)
        ensures
            r@ == self@,
    {
        self.duplicate()
    }
}

/// The tasks and log entries that carry one tag.
#[derive(Debug)]
pub struct TagResult {
    pub tag: String,
    pub tasks: Vec<Task>,
    pub log_entries: Vec<LogEntry>,
}

pub struct TagResultView {
    pub tag: Seq<char>,
    pub tasks: Seq<TaskView>,
    pub log_entries: Seq<LogEntryView>,
}

impl View for TagResult {
    type V = TagResultView;

    open spec fn view(&self) -> TagResultView {
        TagResultView {
            tag: self.tag@,
            tasks: views(self.tasks@),
            log_entries: views(self.log_entries@),
        }
    }
}

impl Duplicate for TagResult {
    fn duplicate(&self) -> (r: TagResult) {
        TagResult {
            tag: self.tag.clone(),
            tasks: duplicate_all(&self.tasks),
            log_entries: duplicate_all(&self.log_entries),
        }
    }
}

impl Clone for TagResult {
    fn clone(&self) -> (r: TagResult)
        ensures
            r@ == self@,
    {
        self.duplicate()
    }
}

/// What a range of dates saw: the tasks made and closed in it, the notes
/// dated in it, and the tags that tasks carry most.
#[derive(Debug)]
pub struct WeeklySummary {
    pub new_tasks: Vec<Task>,
    pub completed_tasks: Vec<Task>,
    pub notes: Vec<NoteMeta>,
    pub top_tags: Vec<(String, usize)>,
}

pub struct WeeklySummaryView {
    pub new_tasks: Seq<TaskView>,
    pub completed_tasks: Seq<TaskView>,
    pub notes: Seq<NoteMetaView>,
    pub top_tags: Seq<(Seq<char>, nat)>,
}

impl View for WeeklySummary {
    type V = WeeklySummaryView;

    open spec fn view(&self) -> WeeklySummaryView {
        WeeklySummaryView {
            new_tasks: views(self.new_tasks@),
            completed_tasks: views(self.completed_tasks@),
            notes: views(self.notes@),
            top_tags: self.top_tags@.map_values(|p: (String, usize)| (p.0@, p.1 as nat)),
        }
    }
}

impl Default for WeeklySummary {
    fn default() -> (summary: WeeklySummary)
        ensures
            summary@.new_tasks.len() == 0,
            summary@.completed_tasks.len() == 0,
            summary@.notes.len() == 0,
            summary@.top_tags.len() == 0,
    {
        WeeklySummary {
            new_tasks: Vec::new(),
            completed_tasks: Vec::new(),
            notes: Vec::new(),
            top_tags: Vec::new(),
        }
    }
}

} // verus!
