use std::cell::RefCell;
use std::collections::BTreeMap;

use note_core::date::{Date, DateRange};
use note_core::domain::{Domain, VaultIndexManager};
use note_core::index::InMemoryIndexStore;
use note_core::model::{Note, TaskStatus};
use note_core::parser::MarkdownParser;
use note_core::rpc::{
    answer_for, build_filter, dispatch, method_named, parse_date, parse_range,
    speaks_version_two, wrong_version, Answer, Call, ListTasksParams, Method, NoteParams,
    OpenDailyParams, RangeParams, Reply, RpcError, RpcErrorCode, TagParams, TaskDetailParams,
    WriteNoteParams,
};
use note_core::vault::{FileSystemVault, Vault, VaultError};

struct MemoryVault {
    files: RefCell<BTreeMap<String, String>>,
}

impl Vault for MemoryVault {
    fn list_note_paths(&self) -> Result<Vec<String>, VaultError> {
        Ok(self.files.borrow().keys().cloned().collect())
    }

    fn read_note(&self, path: &str) -> Result<Note, VaultError> {
        match self.files.borrow().get(path) {
            Some(content) => Ok(FileSystemVault::note_from_text(path, content.clone())),
            None => Err(VaultError { message: format!("failed to read {}", path) }),
        }
    }

    fn root_path(&self) -> String {
        "root".to_string()
    }

    fn has_file(&self, path: &str) -> bool {
        self.files.borrow().contains_key(path)
    }

    fn write_file(&self, path: &str, content: &str) -> Result<(), VaultError> {
        if path.contains("locked") {
            return Err(VaultError { message: "read-only".to_string() });
        }
        self.files.borrow_mut().insert(path.to_string(), content.to_string());
        Ok(())
    }

    fn create_file(&self, path: &str, content: &str) -> Result<(), VaultError> {
        self.write_file(path, content)
    }
}

fn domain() -> Domain<MemoryVault, InMemoryIndexStore> {
    let mut files = BTreeMap::new();
    files.insert(
        "2025-03-10.md".to_string(),
        "## Tasks\n- [ ] [T-1] Buy milk #errand\n- [x] [T-2] Ship #work\n## Log\n- 09:00 did [T-1] #errand\n".to_string(),
    );
    files.insert("locked.md".to_string(), "## Log\n- again [T-1]\n".to_string());
    let vault = MemoryVault { files: RefCell::new(files) };
    Domain::new(VaultIndexManager::new(
        vault,
        InMemoryIndexStore::new(),
        Box::new(MarkdownParser::new()),
    ))
}

fn indexed() -> Domain<MemoryVault, InMemoryIndexStore> {
    let mut d = domain();
    assert!(matches!(dispatch(&mut d, Call::Reindex), Ok(Reply::Reindexed)));
    d
}

#[test]
fn error_codes() {
    assert_eq!(RpcErrorCode::ParseError.as_i32(), -32700);
    assert_eq!(RpcErrorCode::InvalidRequest.as_i32(), -32600);
    assert_eq!(RpcErrorCode::MethodNotFound.as_i32(), -32601);
    assert_eq!(RpcErrorCode::InvalidParams.as_i32(), -32602);
    assert_eq!(RpcErrorCode::InternalError.as_i32(), -32603);
    assert_eq!(RpcErrorCode::ServerError.as_i32(), -32000);
}

#[test]
fn errors_by_kind() {
    let e = RpcError::parse_error("bad json");
    assert_eq!((e.code, e.message.as_str()), (RpcErrorCode::ParseError, "bad json"));
    let e = RpcError::invalid_request("no");
    assert_eq!((e.code, e.message.as_str()), (RpcErrorCode::InvalidRequest, "no"));
    let e = RpcError::invalid_params("wrong");
    assert_eq!((e.code, e.message.as_str()), (RpcErrorCode::InvalidParams, "wrong"));
    let e = RpcError::internal("oops");
    assert_eq!((e.code, e.message.as_str()), (RpcErrorCode::InternalError, "oops"));
    let e = RpcError::method_not_found("core.fly");
    assert_eq!((e.code, e.message.as_str()), (RpcErrorCode::MethodNotFound, "unknown method 'core.fly'"));
    let e = RpcError::new(RpcErrorCode::ServerError, "down");
    assert_eq!(e.to_text(), "down (code -32000)");
    assert_eq!(RpcError::parse_error("x").to_text(), "x (code -32700)");
    let body = RpcError::invalid_params("wrong").body();
    assert_eq!((body.code, body.message.as_str()), (-32602, "wrong"));
    let e = wrong_version();
    assert_eq!((e.code, e.message.as_str()), (RpcErrorCode::InvalidRequest, "jsonrpc field must be \"2.0\""));
}

#[test]
fn dates_of_calls() {
    assert_eq!(parse_date("2025-03-15").unwrap(), Date { year: 2025, month: 3, day: 15 });
    let e = parse_date("15.03.2025").unwrap_err();
    assert_eq!((e.code, e.message.as_str()), (RpcErrorCode::InvalidParams, "invalid date '15.03.2025'"));
    assert!(parse_date("2025-02-29").is_err());
    assert!(parse_date("").is_err());
    assert_eq!(parse_date("25-03-15").unwrap(), Date { year: 25, month: 3, day: 15 });
    assert!(parse_date("2025-03-15 ").is_err());
    assert!(parse_date("2025/03/15").is_err());
    let range = parse_range("2025-03-10".into(), "2025-03-16".into()).unwrap();
    assert_eq!(
        range,
        DateRange {
            start: Date { year: 2025, month: 3, day: 10 },
            end: Date { year: 2025, month: 3, day: 16 }
        }
    );
    assert_eq!(parse_range("x".into(), "y".into()).unwrap_err().message, "invalid date 'x'");
    assert_eq!(parse_range("2025-03-10".into(), "y".into()).unwrap_err().message, "invalid date 'y'");
}

#[test]
fn names_of_calls() {
    let names = [
        ("core.reindex", Method::Reindex),
        ("core.list_tasks", Method::ListTasks),
        ("core.task_detail", Method::TaskDetail),
        ("core.items_for_tag", Method::ItemsForTag),
        ("core.notes_in_range", Method::NotesInRange),
        ("core.weekly_summary", Method::WeeklySummary),
        ("core.open_daily", Method::OpenDaily),
        ("core.read_note", Method::ReadNote),
        ("core.write_note", Method::WriteNote),
    ];
    for (name, method) in names {
        assert_eq!(method_named(name).unwrap(), method);
    }
    let e = method_named("core.Reindex").unwrap_err();
    assert_eq!((e.code, e.message.as_str()), (RpcErrorCode::MethodNotFound, "unknown method 'core.Reindex'"));
    assert!(method_named("").is_err());
    assert!(method_named("reindex").is_err());
}

#[test]
fn versions() {
    assert!(speaks_version_two(&Some("2.0".to_string())));
    assert!(!speaks_version_two(&Some("1.0".to_string())));
    assert!(!speaks_version_two(&Some("2".to_string())));
    assert!(!speaks_version_two(&None));
}

#[test]
fn answers() {
    assert!(matches!(answer_for(true, Ok(Reply::Reindexed)), Answer::Result(Reply::Reindexed)));
    assert!(matches!(answer_for(false, Ok(Reply::Reindexed)), Answer::Nothing));
    assert!(matches!(answer_for(true, Ok(7u8)), Answer::Result(7)));
    assert!(matches!(
        answer_for::<Reply>(true, Err(RpcError::internal("x"))),
        Answer::Failure(e) if e.message == "x"
    ));
    assert!(matches!(
        answer_for::<u8>(false, Err(RpcError::internal("x"))),
        Answer::Logged(e) if e.message == "x"
    ));
}

fn list(status: Option<TaskStatus>, tags: Option<Vec<&str>>, text: Option<&str>, since: Option<&str>) -> Call {
    Call::ListTasks(ListTasksParams {
        status,
        tags: tags.map(|t| t.into_iter().map(|s| s.to_string()).collect()),
        text_search: text.map(|s| s.to_string()),
        touched_since: since.map(|s| s.to_string()),
    })
}

fn task_ids(reply: Result<Reply, RpcError>) -> Vec<String> {
    match reply {
        Ok(Reply::Tasks(tasks)) => tasks.iter().map(|t| t.id.0.clone()).collect(),
        other => panic!("no tasks: {:?}", other),
    }
}

#[test]
fn list_tasks_by_parameters() {
    let mut d = indexed();
    assert_eq!(task_ids(dispatch(&mut d, list(None, None, None, None))), vec!["T-1", "T-2"]);
    assert_eq!(task_ids(dispatch(&mut d, list(Some(TaskStatus::Done), None, None, None))), vec!["T-2"]);
    assert_eq!(task_ids(dispatch(&mut d, list(None, Some(vec!["errand"]), None, None))), vec!["T-1"]);
    assert_eq!(task_ids(dispatch(&mut d, list(None, Some(vec![]), Some("SHIP"), None))), vec!["T-2"]);
    assert_eq!(task_ids(dispatch(&mut d, list(None, None, None, Some("2000-01-01")))), vec!["T-1", "T-2"]);
    assert!(task_ids(dispatch(&mut d, list(None, None, None, Some("9999-01-01")))).is_empty());
    let e = dispatch(&mut d, list(None, None, None, Some("soon"))).unwrap_err();
    assert_eq!((e.code, e.message.as_str()), (RpcErrorCode::InvalidParams, "invalid date 'soon'"));
    let filter = build_filter(ListTasksParams {
        status: Some(TaskStatus::Open),
        tags: None,
        text_search: Some("x".into()),
        touched_since: Some("2025-03-01".into()),
    })
    .unwrap();
    assert_eq!(filter.status, Some(TaskStatus::Open));
    assert!(filter.tags.is_empty());
    assert_eq!(filter.text_search.as_deref(), Some("x"));
    assert_eq!(filter.touched_since, Some(Date { year: 2025, month: 3, day: 1 }));
}

#[test]
fn task_detail_and_notes() {
    let mut d = indexed();
    match dispatch(&mut d, Call::TaskDetail(TaskDetailParams { task_id: "T-1".into() })).unwrap() {
        Reply::TaskDetail { task, mentions, log_entries } => {
            assert_eq!(task.title, "Buy milk");
            assert_eq!(mentions.len(), 2);
            assert_eq!(log_entries.len(), 2);
        }
        other => panic!("{:?}", other),
    }
    let e = dispatch(&mut d, Call::TaskDetail(TaskDetailParams { task_id: "T-9".into() })).unwrap_err();
    assert_eq!((e.code, e.message.as_str()), (RpcErrorCode::InvalidRequest, "task not found"));

    match dispatch(&mut d, Call::ReadNote(NoteParams { note_id: "locked.md".into() })).unwrap() {
        Reply::Note(note) => assert_eq!(note.content, "## Log\n- again [T-1]\n"),
        other => panic!("{:?}", other),
    }
    let e = dispatch(&mut d, Call::ReadNote(NoteParams { note_id: "none.md".into() })).unwrap_err();
    assert_eq!((e.code, e.message.as_str()), (RpcErrorCode::InvalidRequest, "note not found"));

    match dispatch(&mut d, Call::ItemsForTag(TagParams { tag: "errand".into() })).unwrap() {
        Reply::Tagged(result) => {
            assert_eq!(result.tag, "errand");
            assert_eq!(result.tasks.len(), 1);
            assert_eq!(result.log_entries.len(), 1);
        }
        other => panic!("{:?}", other),
    }
}

#[test]
fn ranges() {
    let mut d = indexed();
    let range = |a: &str, b: &str| RangeParams { start: a.into(), end: b.into() };
    match dispatch(&mut d, Call::NotesInRange(range("2025-03-10", "2025-03-10"))).unwrap() {
        Reply::Notes(notes) => {
            assert_eq!(notes.len(), 1);
            assert_eq!(notes[0].id.0, "2025-03-10.md");
        }
        other => panic!("{:?}", other),
    }
    match dispatch(&mut d, Call::NotesInRange(range("2025-03-11", "2025-03-12"))).unwrap() {
        Reply::Notes(notes) => assert!(notes.is_empty()),
        other => panic!("{:?}", other),
    }
    let e = dispatch(&mut d, Call::NotesInRange(range("a", "2025-03-12"))).unwrap_err();
    assert_eq!(e.message, "invalid date 'a'");
    match dispatch(&mut d, Call::WeeklySummary(range("2000-01-01", "2100-01-01"))).unwrap() {
        Reply::Summary(summary) => {
            assert_eq!(summary.new_tasks.len(), 2);
            assert_eq!(summary.completed_tasks.len(), 1);
            assert_eq!(summary.notes.len(), 1);
            assert_eq!(summary.top_tags, vec![("errand".to_string(), 1), ("work".to_string(), 1)]);
        }
        other => panic!("{:?}", other),
    }
    let e = dispatch(&mut d, Call::WeeklySummary(range("2025-03-12", "b"))).unwrap_err();
    assert_eq!((e.code, e.message.as_str()), (RpcErrorCode::InvalidParams, "invalid date 'b'"));
}

#[test]
fn writing_calls() {
    let mut d = indexed();
    match dispatch(&mut d, Call::OpenDaily(OpenDailyParams { date: "2025-03-10".into() })).unwrap() {
        Reply::Note(note) => assert_eq!(note.id.0, "2025-03-10.md"),
        other => panic!("{:?}", other),
    }
    match dispatch(&mut d, Call::OpenDaily(OpenDailyParams { date: "2025-03-11".into() })).unwrap() {
        Reply::Note(note) => {
            assert_eq!(note.date, Some(Date { year: 2025, month: 3, day: 11 }));
            assert_eq!(note.content, "# 2025-03-11\n\n## Tasks\n\n## Log\n");
        }
        other => panic!("{:?}", other),
    }
    let e = dispatch(&mut d, Call::OpenDaily(OpenDailyParams { date: "tomorrow".into() })).unwrap_err();
    assert_eq!((e.code, e.message.as_str()), (RpcErrorCode::InvalidParams, "invalid date 'tomorrow'"));

    let write = |id: &str, content: &str| {
        Call::WriteNote(WriteNoteParams { note_id: id.into(), content: content.into() })
    };
    match dispatch(&mut d, write("2025-03-10.md", "## Tasks\n- [ ] [T-5] New\n")).unwrap() {
        Reply::Note(note) => assert_eq!(note.content, "## Tasks\n- [ ] [T-5] New\n"),
        other => panic!("{:?}", other),
    }
    assert_eq!(task_ids(dispatch(&mut d, list(None, None, None, None))), vec!["T-5"]);
    let e = dispatch(&mut d, write("none.md", "x")).unwrap_err();
    assert_eq!((e.code, e.message.as_str()), (RpcErrorCode::ServerError, "note none.md not indexed"));
    let e = dispatch(&mut d, write("locked.md", "x")).unwrap_err();
    assert_eq!((e.code, e.message.as_str()), (RpcErrorCode::ServerError, "read-only"));
}
