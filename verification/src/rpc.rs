//! The calls that the daemon takes: their names, their parameters, what
//! each one does to the vault, and what is answered.

use crate::date::{parse_date as read_date, parsed_date, Date, DateRange};
use crate::domain::{
    daily_opened, note_written, vault_reindexed, weekly_summary_of, Domain, DomainError,
};
use crate::index::IndexStore;
use crate::model::{
    LogEntry, Note, NoteId, NoteMeta, ParsedNoteView, TagResult, Task, TaskFilter, TaskFilterView,
    TaskId, TaskMention, TaskStatus, WeeklySummary,
};
use crate::records::{
    all_log_entries, all_mentions, all_tasks, entries_naming, items_tagged, mentions_naming,
    note_with_id, notes_in_range, task_with_id, tasks_matching, with_note,
};
use crate::text::{decimal, optional_text, push_decimal, string_from_chars, views};
use crate::vault::{extends, full_year_pattern, lemma_trail_same, since, Vault};
use vstd::prelude::*;
use vstd::string::StringExecFns;

verus! {

/// The kinds of failure of a call.
#[derive(Clone, Copy, Debug, PartialEq, Eq, Structural)]
pub enum RpcErrorCode {
    ParseError,
    InvalidRequest,
    MethodNotFound,
    InvalidParams,
    InternalError,
    ServerError,
}

impl RpcErrorCode {
    /// The number of the code.
    pub open spec fn number(self) -> int {
        match self {
            RpcErrorCode::ParseError => -32700,
            RpcErrorCode::InvalidRequest => -32600,
            RpcErrorCode::MethodNotFound => -32601,
            RpcErrorCode::InvalidParams => -32602,
            RpcErrorCode::InternalError => -32603,
            RpcErrorCode::ServerError => -32000,
        }
    }

    pub fn as_i32(self) -> (n: i32)
        ensures
            n == self.number(),
    {
        match self {
            RpcErrorCode::ParseError => -32700,
            RpcErrorCode::InvalidRequest => -32600,
            RpcErrorCode::MethodNotFound => -32601,
            RpcErrorCode::InvalidParams => -32602,
            RpcErrorCode::InternalError => -32603,
            RpcErrorCode::ServerError => -32000,
        }
    }
}

/// A failure of a call.
#[derive(Debug)]
pub struct RpcError {
    pub code: RpcErrorCode,
    pub message: String,
}

pub struct RpcErrorView {
    pub code: RpcErrorCode,
    pub message: Seq<char>,
}

impl View for RpcError {
    type V = RpcErrorView;

    open spec fn view(&self) -> RpcErrorView {
        RpcErrorView { code: self.code, message: self.message@ }
    }
}

/// A failure as it is sent.
#[derive(Debug)]
pub struct RpcErrorBody {
    pub code: i32,
    pub message: String,
}

/// The decimal digits of `n`, with a minus sign before them where `n` is
/// negative.
pub open spec fn signed_decimal(n: int) -> Seq<char> {
    if n < 0 {
        seq!['-'] + decimal((-n) as nat)
    } else {
        decimal(n as nat)
    }
}

/// The failure of `kind` with the message `message`.
pub open spec fn failure(code: RpcErrorCode, message: Seq<char>) -> RpcErrorView {
    RpcErrorView { code, message }
}

impl RpcError {
    pub fn new(code: RpcErrorCode, message: &str) -> (e: RpcError)
        ensures
            e@ == failure(code, message@),
    {
        RpcError { code, message: message.to_owned() }
    }

    pub fn parse_error(message: &str) -> (e: RpcError)
        ensures
            e@ == failure(RpcErrorCode::ParseError, message@),
    {
        RpcError::new(RpcErrorCode::ParseError, message)
    }

    pub fn invalid_request(message: &str) -> (e: RpcError)
        ensures
            e@ == failure(RpcErrorCode::InvalidRequest, message@),
    {
        RpcError::new(RpcErrorCode::InvalidRequest, message)
    }

    pub fn invalid_params(message: &str) -> (e: RpcError)
        ensures
            e@ == failure(RpcErrorCode::InvalidParams, message@),
    {
        RpcError::new(RpcErrorCode::InvalidParams, message)
    }

    pub fn method_not_found(method: &str) -> (e: RpcError)
        ensures
            e@ == failure(RpcErrorCode::MethodNotFound, "unknown method '"@ + method@ + "'"@),
    {
        let mut message = String::from_str("unknown method '");
        message.append(method);
        message.append("'");
        RpcError { code: RpcErrorCode::MethodNotFound, message }
    }

    pub fn internal(message: &str) -> (e: RpcError)
        ensures
            e@ == failure(RpcErrorCode::InternalError, message@),
    {
        RpcError::new(RpcErrorCode::InternalError, message)
    }

    /// The failure of the vault as a failure of the call.
    pub fn from_domain(error: &DomainError) -> (e: RpcError)
        ensures
            e@ == failure(RpcErrorCode::ServerError, error.text()),
    {
        RpcError { code: RpcErrorCode::ServerError, message: error.message() }
    }

    /// The failure as it is sent.
    pub fn body(self) -> (b: RpcErrorBody)
        ensures
            b.code == self.code.number(),
            b.message@ == self.message@,
    {
        RpcErrorBody { code: self.code.as_i32(), message: self.message }
    }

    /// The failure in words: the message, and the number of the code.
    pub fn to_text(&self) -> (text: String)
        ensures
            text@ == self.message@ + " (code "@ + signed_decimal(self.code.number()) + ")"@,
    {
        let n: i32 = self.code.as_i32();
        let mut digits: Vec<char> = Vec::new();
        if n < 0 {
            digits.push('-');
            let m: i64 = -(n as i64);
            push_decimal(&mut digits, m as usize);
        } else {
            push_decimal(&mut digits, n as usize);
        }
        assert(digits@ =~= signed_decimal(n as int));
        let number = string_from_chars(&digits);
        let mut text = self.message.clone();
        text.append(" (code ");
        text.append(number.as_str());
        text.append(")");
        text
    }
}

/// What reading a date of a call gives: the date, or the failure that
/// names the text.
pub open spec fn date_or_failure(input: Seq<char>) -> Result<Date, RpcErrorView> {
    match parsed_date(input, full_year_pattern()) {
        Some(date) => Ok(date),
        None => Err(failure(RpcErrorCode::InvalidParams, "invalid date '"@ + input + "'"@)),
    }
}

/// What reading the two bounds of a range gives: the range, or the failure
/// of the first bound that is no date.
pub open spec fn range_or_failure(start: Seq<char>, end: Seq<char>) -> Result<
    DateRange,
    RpcErrorView,
> {
    match date_or_failure(start) {
        Err(e) => Err(e),
        Ok(start) => match date_or_failure(end) {
            Err(e) => Err(e),
            Ok(end) => Ok(DateRange { start, end }),
        },
    }
}

/// The view of what reading a date or a range gave.
pub open spec fn read_view<T>(r: Result<T, RpcError>) -> Result<T, RpcErrorView> {
    match r {
        Ok(value) => Ok(value),
        Err(e) => Err(e@),
    }
}

/// Reads a date in the form `YYYY-MM-DD`.
pub fn parse_date(input: &str) -> (r: Result<Date, RpcError>)
    ensures
        read_view(r) == date_or_failure(input@),
{
    match read_date(input, "%Y-%m-%d") {
        Some(date) => Ok(date),
        None => {
            let mut message = String::from_str("invalid date '");
            message.append(input);
            message.append("'");
            Err(RpcError { code: RpcErrorCode::InvalidParams, message })
        },
    }
}

/// Reads the two bounds of a range of dates.
pub fn parse_range(start: String, end: String) -> (r: Result<DateRange, RpcError>)
    ensures
        read_view(r) == range_or_failure(start@, end@),
{
    let start = match parse_date(start.as_str()) {
        Ok(date) => date,
        Err(e) => {
            return Err(e);
        },
    };
    let end = match parse_date(end.as_str()) {
        Ok(date) => date,
        Err(e) => {
            return Err(e);
        },
    };
    Ok(DateRange { start, end })
}

/// The calls of the daemon.
#[derive(Clone, Copy, Debug, PartialEq, Eq, Structural)]
pub enum Method {
    Reindex,
    ListTasks,
    TaskDetail,
    ItemsForTag,
    NotesInRange,
    WeeklySummary,
    OpenDaily,
    ReadNote,
    WriteNote,
}

impl Method {
    /// The call that `name` names.
    pub open spec fn named(name: Seq<char>) -> Option<Method> {
        if name == "core.reindex"@ {
            Some(Method::Reindex)
        } else if name == "core.list_tasks"@ {
            Some(Method::ListTasks)
        } else if name == "core.task_detail"@ {
            Some(Method::TaskDetail)
        } else if name == "core.items_for_tag"@ {
            Some(Method::ItemsForTag)
        } else if name == "core.notes_in_range"@ {
            Some(Method::NotesInRange)
        } else if name == "core.weekly_summary"@ {
            Some(Method::WeeklySummary)
        } else if name == "core.open_daily"@ {
            Some(Method::OpenDaily)
        } else if name == "core.read_note"@ {
            Some(Method::ReadNote)
        } else if name == "core.write_note"@ {
            Some(Method::WriteNote)
        } else {
            None
        }
    }
}

/// The call that `name` names, or the failure that names `name`.
pub fn method_named(name: &str) -> (r: Result<Method, RpcError>)
    ensures
        match Method::named(name@) {
            Some(method) => r == Ok::<Method, RpcError>(method),
            None => r is Err && r->Err_0@ == failure(
                RpcErrorCode::MethodNotFound,
                "unknown method '"@ + name@ + "'"@,
            ),
        },
{
    let text = name.to_owned();
    if text == String::from_str("core.reindex") {
        Ok(Method::Reindex)
    } else if text == String::from_str("core.list_tasks") {
        Ok(Method::ListTasks)
    } else if text == String::from_str("core.task_detail") {
        Ok(Method::TaskDetail)
    } else if text == String::from_str("core.items_for_tag") {
        Ok(Method::ItemsForTag)
    } else if text == String::from_str("core.notes_in_range") {
        Ok(Method::NotesInRange)
    } else if text == String::from_str("core.weekly_summary") {
        Ok(Method::WeeklySummary)
    } else if text == String::from_str("core.open_daily") {
        Ok(Method::OpenDaily)
    } else if text == String::from_str("core.read_note") {
        Ok(Method::ReadNote)
    } else if text == String::from_str("core.write_note") {
        Ok(Method::WriteNote)
    } else {
        Err(RpcError::method_not_found(name))
    }
}

/// Whether a request speaks version 2.0 of the protocol.
pub fn speaks_version_two(jsonrpc: &Option<String>) -> (r: bool)
    ensures
        r == (optional_text(*jsonrpc) == Some("2.0"@)),
{
    match jsonrpc {
        Some(version) => *version == String::from_str("2.0"),
        None => false,
    }
}

/// The parameters of `core.list_tasks`.
#[derive(Debug)]
pub struct ListTasksParams {
    pub status: Option<TaskStatus>,
    pub tags: Option<Vec<String>>,
    pub text_search: Option<String>,
    pub touched_since: Option<String>,
}

/// The parameters of `core.task_detail`.
#[derive(Debug)]
pub struct TaskDetailParams {
    pub task_id: String,
}

/// The parameters of `core.items_for_tag`.
#[derive(Debug)]
pub struct TagParams {
    pub tag: String,
}

/// The parameters of `core.notes_in_range` and of `core.weekly_summary`.
#[derive(Debug)]
pub struct RangeParams {
    pub start: String,
    pub end: String,
}

/// The parameters of `core.open_daily`.
#[derive(Debug)]
pub struct OpenDailyParams {
    pub date: String,
}

/// The parameters of `core.read_note`.
#[derive(Debug)]
pub struct NoteParams {
    pub note_id: String,
}

/// The parameters of `core.write_note`.
#[derive(Debug)]
pub struct WriteNoteParams {
    pub note_id: String,
    pub content: String,
}

/// What a call returns.
#[derive(Debug)]
pub enum Reply {
    /// The vault was indexed anew.
    Reindexed,
    Tasks(Vec<Task>),
    TaskDetail { task: Task, mentions: Vec<TaskMention>, log_entries: Vec<LogEntry> },
    Tagged(TagResult),
    Notes(Vec<NoteMeta>),
    Summary(WeeklySummary),
    Note(Note),
}

/// The tags that the parameters of `core.list_tasks` ask for.
pub open spec fn wanted_tags(tags: Option<Vec<String>>) -> Seq<Seq<char>> {
    match tags {
        Some(tags) => views(tags@),
        None => Seq::empty(),
    }
}

/// The filter that the parameters of `core.list_tasks` state, or the
/// failure of its date.
pub open spec fn filter_of(params: ListTasksParams) -> Result<TaskFilterView, RpcErrorView> {
    match params.touched_since {
        None => Ok(
            TaskFilterView {
                status: params.status,
                tags: wanted_tags(params.tags),
                text_search: optional_text(params.text_search),
                touched_since: None,
            },
        ),
        Some(text) => match date_or_failure(text@) {
            Err(e) => Err(e),
            Ok(date) => Ok(
                TaskFilterView {
                    status: params.status,
                    tags: wanted_tags(params.tags),
                    text_search: optional_text(params.text_search),
                    touched_since: Some(date),
                },
            ),
        },
    }
}

/// Builds the filter of `core.list_tasks`.
pub fn build_filter(params: ListTasksParams) -> (r: Result<TaskFilter, RpcError>)
    ensures
        match filter_of(params) {
            Ok(filter) => r is Ok && r->Ok_0@ == filter,
            Err(e) => r is Err && r->Err_0@ == e,
        },
{
    let touched_since = match &params.touched_since {
        Some(text) => match parse_date(text.as_str()) {
            Ok(date) => Some(date),
            Err(e) => {
                return Err(e);
            },
        },
        None => None,
    };
    let tags = match params.tags {
        Some(tags) => tags,
        None => {
            let none: Vec<String> = Vec::new();
            assert(views(none@) =~= Seq::empty());
            none
        },
    };
    Ok(TaskFilter { status: params.status, tags, text_search: params.text_search, touched_since })
}

/// `core.list_tasks`: the tasks that meet the filter of the parameters.
pub fn call_list_tasks<V: Vault, I: IndexStore>(domain: &Domain<V, I>, params: ListTasksParams) -> (r:
    Result<Reply, RpcError>)
    ensures
        match filter_of(params) {
            Ok(filter) => r matches Ok(Reply::Tasks(tasks)) && views(tasks@) == tasks_matching(
                domain.records(),
                filter,
            ),
            Err(e) => r is Err && r->Err_0@ == e,
        },
{
    match build_filter(params) {
        Ok(filter) => Ok(Reply::Tasks(domain.list_tasks(&filter))),
        Err(e) => Err(e),
    }
}

/// `core.task_detail`: the task with its mentions and the log entries that
/// name it, or the failure that the task was not found.
pub fn call_task_detail<V: Vault, I: IndexStore>(domain: &Domain<V, I>, params: TaskDetailParams) -> (r:
    Result<Reply, RpcError>)
    ensures
        match task_with_id(all_tasks(domain.records()), params.task_id@) {
            Some(found) => r matches Ok(Reply::TaskDetail { task, mentions, log_entries })
                && task@ == found && views(mentions@) == mentions_naming(
                all_mentions(domain.records()),
                params.task_id@,
            ) && views(log_entries@) == entries_naming(
                all_log_entries(domain.records()),
                params.task_id@,
            ),
            None => r is Err && r->Err_0@ == failure(
                RpcErrorCode::InvalidRequest,
                "task not found"@,
            ),
        },
{
    let id = TaskId(params.task_id);
    match domain.task_detail(&id) {
        Some((task, mentions)) => {
            let log_entries = domain.index_mgr.index.get_log_entries_for_task(&id);
            Ok(Reply::TaskDetail { task, mentions, log_entries })
        },
        None => Err(RpcError::invalid_request("task not found")),
    }
}

/// `core.notes_in_range`: the notes dated within the range of the
/// parameters.
pub fn call_notes_in_range<V: Vault, I: IndexStore>(domain: &Domain<V, I>, params: RangeParams) -> (r:
    Result<Reply, RpcError>)
    ensures
        match range_or_failure(params.start@, params.end@) {
            Ok(range) => r matches Ok(Reply::Notes(notes)) && views(notes@) == notes_in_range(
                domain.records(),
                range,
            ),
            Err(e) => r is Err && r->Err_0@ == e,
        },
{
    match parse_range(params.start, params.end) {
        Ok(range) => Ok(Reply::Notes(domain.notes_in_range(&range))),
        Err(e) => Err(e),
    }
}

/// `core.weekly_summary`: the summary of the range of the parameters.
pub fn call_weekly_summary<V: Vault, I: IndexStore>(domain: &Domain<V, I>, params: RangeParams) -> (r:
    Result<Reply, RpcError>)
    ensures
        match range_or_failure(params.start@, params.end@) {
            Ok(range) => r matches Ok(Reply::Summary(summary)) && summary@ == weekly_summary_of(
                domain.records(),
                range,
            ),
            Err(e) => r is Err && r->Err_0@ == e,
        },
{
    match parse_range(params.start, params.end) {
        Ok(range) => Ok(Reply::Summary(domain.weekly_summary(&range))),
        Err(e) => Err(e),
    }
}

/// `core.read_note`: the note, or the failure that it was not found.
pub fn call_read_note<V: Vault, I: IndexStore>(domain: &Domain<V, I>, params: NoteParams) -> (r:
    Result<Reply, RpcError>)
    ensures
        match note_with_id(domain.records(), params.note_id@) {
            Some(found) => r matches Ok(Reply::Note(note)) && note@ == found,
            None => r is Err && r->Err_0@ == failure(
                RpcErrorCode::InvalidRequest,
                "note not found"@,
            ),
        },
{
    let id = NoteId(params.note_id);
    match domain.read_note(&id) {
        Some(note) => Ok(Reply::Note(note)),
        None => Err(RpcError::invalid_request("note not found")),
    }
}

/// The answer to a call that returns a note: the note, or the failure of
/// the vault in its own words.
pub open spec fn answers_note(d: Result<Note, DomainError>, r: Result<Reply, RpcError>) -> bool {
    match d {
        Ok(note) => r matches Ok(Reply::Note(sent)) && sent@ == note@,
        Err(e) => r is Err && r->Err_0@ == failure(RpcErrorCode::ServerError, e.text()),
    }
}

/// What `core.open_daily` does. A text that is no date fails before the
/// index is read or anything is asked of the vault. Else the note of the
/// day is opened, and the result of that is the answer.
pub open spec fn opens_daily<V: Vault, I: IndexStore>(
    before: Domain<V, I>,
    after: Domain<V, I>,
    params: OpenDailyParams,
    r: Result<Reply, RpcError>,
) -> bool {
    &&& after.same_parts(&before)
    &&& extends(before.trail(), after.trail())
    &&& match date_or_failure(params.date@) {
        Err(e) => r is Err && r->Err_0@ == e && after.records() == before.records()
            && after.trail() == before.trail(),
        Ok(date) => daily_answered(before, after, date, r),
    }
}

/// The note of the day `date` was opened, and the result of that is the
/// answer `r`.
pub open spec fn daily_answered<V: Vault, I: IndexStore>(
    before: Domain<V, I>,
    after: Domain<V, I>,
    date: Date,
    r: Result<Reply, RpcError>,
) -> bool {
    exists|d: Result<Note, DomainError>| #[trigger]
        daily_opened(
            before.index_mgr.readings(),
            before.records(),
            after.records(),
            since(before.trail(), after.trail()),
            date,
            d,
        ) && answers_note(d, r)
}

/// `core.open_daily`: the note of the day of the parameters.
pub fn call_open_daily<V: Vault, I: IndexStore>(domain: &mut Domain<V, I>, params: OpenDailyParams) -> (r:
    Result<Reply, RpcError>)
    ensures
        opens_daily(*old(domain), *final(domain), params, r),
{
    proof {
        lemma_trail_same(domain.trail());
    }
    let date = match parse_date(params.date.as_str()) {
        Ok(date) => date,
        Err(e) => {
            return Err(e);
        },
    };
    let opened = domain.open_daily(date);
    let ghost d = opened;
    let r = match opened {
        Ok(note) => Ok(Reply::Note(note)),
        Err(e) => Err(RpcError::from_domain(&e)),
    };
    proof {
        assert(daily_opened(
            old(domain).index_mgr.readings(),
            old(domain).records(),
            domain.records(),
            since(old(domain).trail(), domain.trail()),
            date,
            d,
        ) && answers_note(d, r));
        assert(daily_answered(*old(domain), *domain, date, r));
    }
    r
}

/// What `core.write_note` does: the note is written as `Domain::write_note`
/// writes it, and the result of that is the answer.
pub open spec fn writes_note<V: Vault, I: IndexStore>(
    before: Domain<V, I>,
    after: Domain<V, I>,
    params: WriteNoteParams,
    r: Result<Reply, RpcError>,
) -> bool {
    &&& after.same_parts(&before)
    &&& extends(before.trail(), after.trail())
    &&& exists|d: Result<Note, DomainError>| #[trigger]
        note_written(
            before.index_mgr.readings(),
            before.records(),
            after.records(),
            since(before.trail(), after.trail()),
            params.note_id@,
            params.content@,
            d,
        ) && answers_note(d, r)
}

/// `core.write_note`: writes the note and returns it as the index holds it
/// afterwards.
pub fn call_write_note<V: Vault, I: IndexStore>(domain: &mut Domain<V, I>, params: WriteNoteParams) -> (r:
    Result<Reply, RpcError>)
    ensures
        writes_note(*old(domain), *final(domain), params, r),
{
    let id = NoteId(params.note_id);
    let written = domain.write_note(&id, params.content.as_str());
    let ghost d = written;
    let r = match written {
        Ok(note) => Ok(Reply::Note(note)),
        Err(e) => Err(RpcError::from_domain(&e)),
    };
    proof {
        assert(note_written(
            old(domain).index_mgr.readings(),
            old(domain).records(),
            domain.records(),
            since(old(domain).trail(), domain.trail()),
            params.note_id@,
            params.content@,
            d,
        ) && answers_note(d, r));
    }
    r
}

/// The answer to `core.reindex`: that it is done, or the failure of the
/// vault in its own words.
pub open spec fn answers_reindex(d: Result<(), DomainError>, r: Result<Reply, RpcError>) -> bool {
    match d {
        Ok(_) => r matches Ok(reply) && reply is Reindexed,
        Err(e) => r is Err && r->Err_0@ == failure(RpcErrorCode::ServerError, e.text()),
    }
}

/// What `core.reindex` does: the vault is indexed as `Domain::reindex_all`
/// indexes it, and the result of that is the answer.
pub open spec fn reindexes<V: Vault, I: IndexStore>(
    before: Domain<V, I>,
    after: Domain<V, I>,
    r: Result<Reply, RpcError>,
) -> bool {
    &&& after.same_parts(&before)
    &&& extends(before.trail(), after.trail())
    &&& exists|d: Result<(), DomainError>| #[trigger]
        vault_reindexed(
            before.index_mgr.readings(),
            before.records(),
            after.records(),
            since(before.trail(), after.trail()),
            d,
        ) && answers_reindex(d, r)
}

/// `core.reindex`: indexes the vault anew.
pub fn call_reindex<V: Vault, I: IndexStore>(domain: &mut Domain<V, I>) -> (r: Result<
    Reply,
    RpcError,
>)
    ensures
        reindexes(*old(domain), *final(domain), r),
{
    let indexed = domain.reindex_all();
    let ghost d = indexed;
    let r = match indexed {
        Ok(()) => Ok(Reply::Reindexed),
        Err(e) => Err(RpcError::from_domain(&e)),
    };
    proof {
        assert(vault_reindexed(
            old(domain).index_mgr.readings(),
            old(domain).records(),
            domain.records(),
            since(old(domain).trail(), domain.trail()),
            d,
        ) && answers_reindex(d, r));
    }
    r
}

/// `core.items_for_tag`: the tasks and log entries that carry the tag.
pub fn call_items_for_tag<V: Vault, I: IndexStore>(domain: &Domain<V, I>, params: TagParams) -> (r:
    Result<Reply, RpcError>)
    ensures
        r matches Ok(Reply::Tagged(items)) && items@ == items_tagged(domain.records(), params.tag@),
{
    Ok(Reply::Tagged(domain.items_for_tag(params.tag.as_str())))
}

/// A call with its parameters.
#[derive(Debug)]
pub enum Call {
    Reindex,
    ListTasks(ListTasksParams),
    TaskDetail(TaskDetailParams),
    ItemsForTag(TagParams),
    NotesInRange(RangeParams),
    WeeklySummary(RangeParams),
    OpenDaily(OpenDailyParams),
    ReadNote(NoteParams),
    WriteNote(WriteNoteParams),
}

impl Call {
    /// Whether the call only asks: it leaves the index as it is.
    pub open spec fn only_asks(self) -> bool {
        !(self is Reindex || self is OpenDaily || self is WriteNote)
    }
}

/// Performs the call on the vault.
pub fn dispatch<V: Vault, I: IndexStore>(domain: &mut Domain<V, I>, call: Call) -> (r: Result<
    Reply,
    RpcError,
>)
    ensures
        final(domain).same_parts(old(domain)),
        call.only_asks() ==> *final(domain) == *old(domain),
        call matches Call::ListTasks(params) ==> match filter_of(params) {
            Ok(filter) => r matches Ok(Reply::Tasks(tasks)) && views(tasks@) == tasks_matching(
                old(domain).records(),
                filter,
            ),
            Err(e) => r is Err && r->Err_0@ == e,
        },
        call matches Call::TaskDetail(params) ==> match task_with_id(
            all_tasks(old(domain).records()),
            params.task_id@,
        ) {
            Some(found) => r matches Ok(Reply::TaskDetail { task, mentions, log_entries })
                && task@ == found && views(mentions@) == mentions_naming(
                all_mentions(old(domain).records()),
                params.task_id@,
            ) && views(log_entries@) == entries_naming(
                all_log_entries(old(domain).records()),
                params.task_id@,
            ),
            None => r is Err && r->Err_0@ == failure(
                RpcErrorCode::InvalidRequest,
                "task not found"@,
            ),
        },
        call matches Call::ItemsForTag(params) ==> r matches Ok(Reply::Tagged(items)) && items@
            == items_tagged(old(domain).records(), params.tag@),
        call matches Call::NotesInRange(params) ==> match range_or_failure(
            params.start@,
            params.end@,
        ) {
            Ok(range) => r matches Ok(Reply::Notes(notes)) && views(notes@) == notes_in_range(
                old(domain).records(),
                range,
            ),
            Err(e) => r is Err && r->Err_0@ == e,
        },
        call matches Call::WeeklySummary(params) ==> match range_or_failure(
            params.start@,
            params.end@,
        ) {
            Ok(range) => r matches Ok(Reply::Summary(summary)) && summary@ == weekly_summary_of(
                old(domain).records(),
                range,
            ),
            Err(e) => r is Err && r->Err_0@ == e,
        },
        call matches Call::ReadNote(params) ==> match note_with_id(
            old(domain).records(),
            params.note_id@,
        ) {
            Some(found) => r matches Ok(Reply::Note(note)) && note@ == found,
            None => r is Err && r->Err_0@ == failure(
                RpcErrorCode::InvalidRequest,
                "note not found"@,
            ),
        },
        call matches Call::OpenDaily(params) ==> opens_daily(
            *old(domain),
            *final(domain),
            params,
            r,
        ),
        call matches Call::WriteNote(params) ==> writes_note(
            *old(domain),
            *final(domain),
            params,
            r,
        ),
        call is Reindex ==> reindexes(*old(domain), *final(domain), r),
{
    match call {
        Call::Reindex => call_reindex(domain),
        Call::ListTasks(params) => call_list_tasks(domain, params),
        Call::TaskDetail(params) => call_task_detail(domain, params),
        Call::ItemsForTag(params) => call_items_for_tag(domain, params),
        Call::NotesInRange(params) => call_notes_in_range(domain, params),
        Call::WeeklySummary(params) => call_weekly_summary(domain, params),
        Call::OpenDaily(params) => call_open_daily(domain, params),
        Call::ReadNote(params) => call_read_note(domain, params),
        Call::WriteNote(params) => call_write_note(domain, params),
    }
}

/// What the daemon does with the outcome of a call.
#[derive(Debug)]
pub enum Answer<T> {
    /// The result is sent.
    Result(T),
    /// The failure is sent.
    Failure(RpcError),
    /// Nothing is sent: the call was a notification and went well.
    Nothing,
    /// Nothing is sent: the call was a notification. Its failure is logged.
    Logged(RpcError),
}

/// What is answered to a call: its result or its failure where the request
/// bears an identifier, nothing where it is a notification.
pub fn answer_for<T>(has_id: bool, outcome: Result<T, RpcError>) -> (answer: Answer<T>)
    ensures
        has_id ==> match outcome {
            Ok(reply) => answer == Answer::<T>::Result(reply),
            Err(e) => answer == Answer::<T>::Failure(e),
        },
        !has_id ==> match outcome {
            Ok(_) => answer is Nothing,
            Err(e) => answer == Answer::<T>::Logged(e),
        },
{
    match outcome {
        Ok(reply) => if has_id {
            Answer::Result(reply)
        } else {
            Answer::Nothing
        },
        Err(e) => if has_id {
            Answer::Failure(e)
        } else {
            Answer::Logged(e)
        },
    }
}

/// The failure of a request that does not speak version 2.0.
pub fn wrong_version() -> (e: RpcError)
    ensures
        e@ == failure(RpcErrorCode::InvalidRequest, "jsonrpc field must be \"2.0\""@),
{
    RpcError::invalid_request("jsonrpc field must be \"2.0\"")
}

} // verus!
