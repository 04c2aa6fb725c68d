use note_core::date::{Date, DateRange, DateTime};
use note_core::index::{InMemoryIndexStore, IndexStore};
use note_core::model::{
    LogEntry, LogEntryId, Note, NoteId, ParsedNote, Task, TaskFilter, TaskId, TaskMention,
    TaskStatus,
};
use note_core::parser::parse_note_at;

fn day(year: i32, month: u32, day: u32) -> Date {
    Date { year, month, day }
}

fn at(date: Date) -> DateTime {
    DateTime { date, secs: 0, nanos: 0 }
}

fn note(id: &str, date: Option<Date>, content: &str) -> Note {
    Note { id: NoteId(id.into()), path: id.into(), title: id.into(), date, content: content.into() }
}

fn parsed(id: &str, date: Option<Date>, content: &str) -> ParsedNote {
    parse_note_at(note(id, date, content), at(day(2025, 3, 15)))
}

fn parsed_at(id: &str, now: DateTime, content: &str) -> ParsedNote {
    parse_note_at(note(id, None, content), now)
}

fn ids(tasks: &[Task]) -> Vec<String> {
    tasks.iter().map(|t| t.id.0.clone()).collect()
}

fn all() -> TaskFilter {
    TaskFilter::default()
}

fn is_empty(store: &InMemoryIndexStore) -> bool {
    store.list_tasks(&all()).is_empty()
        && store.list_tags().is_empty()
        && store
            .list_notes_by_date(&DateRange { start: day(i32::MIN, 0, 0), end: day(i32::MAX, 99, 99) })
            .is_empty()
        && store.get_mentions_for_task(&TaskId("T-1".into())).is_empty()
        && store.get_log_entries_for_task(&TaskId("T-1".into())).is_empty()
        && store.items_for_tag("errand").tasks.is_empty()
        && store.items_for_tag("errand").log_entries.is_empty()
        && store.get_task(&TaskId("T-1".into())).is_none()
        && store.get_note(&NoteId("a.md".into())).is_none()
}

const A: &str = "## Tasks\n- [ ] [T-1] Buy milk #errand #home\n- [x] [T-2] Ship it #work\n## Log\n- 09:00 discussed [T-1] and [T-2] #errand\n- 10:00 again [T-1] [T-1]\n";

#[test]
fn upsert_then_remove_leaves_an_empty_store() {
    let mut store = InMemoryIndexStore::new();
    assert!(is_empty(&store));
    store.upsert_parsed_note(parsed("a.md", Some(day(2025, 3, 15)), A)).unwrap();
    assert!(!is_empty(&store));
    assert_eq!(store.list_tags(), vec!["errand", "home", "work"]);
    assert_eq!(store.get_mentions_for_task(&TaskId("T-1".into())).len(), 3);
    store.remove_note(&NoteId("a.md".into())).unwrap();
    assert!(is_empty(&store));
    assert!(store.list_tags().is_empty());
    assert!(store.get_mentions_for_task(&TaskId("T-2".into())).is_empty());
}

#[test]
fn upsert_then_remove_leaves_the_other_notes() {
    let mut store = InMemoryIndexStore::new();
    store
        .upsert_parsed_note(parsed("b.md", None, "## Tasks\n- [ ] [T-9] Other #keep\n## Log\n- see [T-1]\n"))
        .unwrap();
    let tasks_before = ids(&store.list_tasks(&all()));
    let tags_before = store.list_tags();
    let mentions_before = store.get_mentions_for_task(&TaskId("T-1".into())).len();
    store.upsert_parsed_note(parsed("a.md", None, A)).unwrap();
    store.remove_note(&NoteId("a.md".into())).unwrap();
    assert_eq!(ids(&store.list_tasks(&all())), tasks_before);
    assert_eq!(store.list_tags(), tags_before);
    assert_eq!(store.get_mentions_for_task(&TaskId("T-1".into())).len(), mentions_before);
    assert_eq!(mentions_before, 1);
    assert!(store.get_note(&NoteId("a.md".into())).is_none());
    assert!(store.get_note(&NoteId("b.md".into())).is_some());
}

#[test]
fn removing_an_unknown_note_changes_nothing() {
    let mut store = InMemoryIndexStore::new();
    store.remove_note(&NoteId("nowhere.md".into())).unwrap();
    assert!(is_empty(&store));
    store.upsert_parsed_note(parsed("a.md", None, A)).unwrap();
    store.remove_note(&NoteId("nowhere.md".into())).unwrap();
    assert_eq!(ids(&store.list_tasks(&all())), vec!["T-1", "T-2"]);
}

fn answers(store: &InMemoryIndexStore) -> String {
    let range = DateRange { start: day(2000, 1, 1), end: day(2100, 1, 1) };
    format!(
        "{:?}|{:?}|{:?}|{:?}|{:?}|{:?}|{:?}|{:?}",
        store.list_tasks(&all()),
        store.list_tags(),
        store.list_notes_by_date(&range),
        store.get_mentions_for_task(&TaskId("T-1".into())),
        store.get_log_entries_for_task(&TaskId("T-1".into())),
        store.items_for_tag("errand"),
        store.get_task(&TaskId("T-2".into())),
        store.get_note(&NoteId("a.md".into())),
    )
}

#[test]
fn upserting_twice_is_upserting_once() {
    let mut once = InMemoryIndexStore::new();
    once.upsert_parsed_note(parsed("b.md", Some(day(2025, 1, 1)), "## Log\n- see [T-1] #x\n")).unwrap();
    once.upsert_parsed_note(parsed("a.md", Some(day(2025, 3, 15)), A)).unwrap();
    let mut twice = InMemoryIndexStore::new();
    twice.upsert_parsed_note(parsed("b.md", Some(day(2025, 1, 1)), "## Log\n- see [T-1] #x\n")).unwrap();
    twice.upsert_parsed_note(parsed("a.md", Some(day(2025, 3, 15)), A)).unwrap();
    twice.upsert_parsed_note(parsed("a.md", Some(day(2025, 3, 15)), A)).unwrap();
    assert_eq!(answers(&once), answers(&twice));
    assert_eq!(twice.get_mentions_for_task(&TaskId("T-1".into())).len(), 4);
    assert_eq!(twice.list_tasks(&all()).len(), 2);
}

#[test]
fn a_later_upsert_replaces_the_note() {
    let mut store = InMemoryIndexStore::new();
    store.upsert_parsed_note(parsed("a.md", None, A)).unwrap();
    store
        .upsert_parsed_note(parsed("a.md", None, "## Tasks\n- [ ] [T-3] New #fresh\n"))
        .unwrap();
    assert_eq!(ids(&store.list_tasks(&all())), vec!["T-3"]);
    assert_eq!(store.list_tags(), vec!["fresh"]);
    assert!(store.get_task(&TaskId("T-1".into())).is_none());
    assert!(store.get_mentions_for_task(&TaskId("T-1".into())).is_empty());
    assert!(store.get_log_entries_for_task(&TaskId("T-1".into())).is_empty());
    assert_eq!(
        store.get_note(&NoteId("a.md".into())).unwrap().content,
        "## Tasks\n- [ ] [T-3] New #fresh\n"
    );
}

#[test]
fn removing_the_only_task_with_a_tag_prunes_the_tag() {
    let mut store = InMemoryIndexStore::new();
    store.upsert_parsed_note(parsed("a.md", None, "## Tasks\n- [ ] [T-1] One #x #shared\n")).unwrap();
    store.upsert_parsed_note(parsed("b.md", None, "## Tasks\n- [ ] [T-2] Two #shared\n")).unwrap();
    assert_eq!(store.list_tags(), vec!["shared", "x"]);
    store.remove_note(&NoteId("a.md".into())).unwrap();
    assert_eq!(store.list_tags(), vec!["shared"]);
    assert!(store.items_for_tag("x").tasks.is_empty());
    store.remove_note(&NoteId("b.md".into())).unwrap();
    assert!(store.list_tags().is_empty());
}

#[test]
fn a_tag_of_a_log_entry_stays_while_the_entry_stays() {
    let mut store = InMemoryIndexStore::new();
    store.upsert_parsed_note(parsed("a.md", None, "## Tasks\n- [ ] [T-1] One #x\n")).unwrap();
    store.upsert_parsed_note(parsed("b.md", None, "## Log\n- saw it #x\n")).unwrap();
    store.remove_note(&NoteId("a.md".into())).unwrap();
    assert_eq!(store.list_tags(), vec!["x"]);
    assert_eq!(store.items_for_tag("x").log_entries.len(), 1);
    assert!(store.items_for_tag("x").tasks.is_empty());
}

#[test]
fn tags_are_sorted_and_listed_once() {
    let mut store = InMemoryIndexStore::new();
    store
        .upsert_parsed_note(parsed(
            "a.md",
            None,
            "## Tasks\n- [ ] [T-1] One #zeta #Alpha #beta #beta\n## Log\n- x #alpha #\u{e9}t\u{e9} #beta #a #ab\n",
        ))
        .unwrap();
    assert_eq!(store.list_tags(), vec!["Alpha", "a", "ab", "alpha", "beta", "zeta", "\u{e9}t\u{e9}"]);
}

#[test]
fn notes_on_the_bounds_of_a_range_are_within_it() {
    let mut store = InMemoryIndexStore::new();
    store.upsert_parsed_note(parsed("before.md", Some(day(2025, 3, 9)), "")).unwrap();
    store.upsert_parsed_note(parsed("end.md", Some(day(2025, 3, 16)), "")).unwrap();
    store.upsert_parsed_note(parsed("start.md", Some(day(2025, 3, 10)), "")).unwrap();
    store.upsert_parsed_note(parsed("after.md", Some(day(2025, 3, 17)), "")).unwrap();
    store.upsert_parsed_note(parsed("undated.md", None, "")).unwrap();
    store.upsert_parsed_note(parsed("mid.md", Some(day(2025, 3, 12)), "")).unwrap();
    store.upsert_parsed_note(parsed("mid2.md", Some(day(2025, 3, 12)), "")).unwrap();
    let range = DateRange { start: day(2025, 3, 10), end: day(2025, 3, 16) };
    let listed: Vec<String> =
        store.list_notes_by_date(&range).iter().map(|m| m.id.0.clone()).collect();
    assert_eq!(listed, vec!["start.md", "mid.md", "mid2.md", "end.md"]);
    let metas = store.list_notes_by_date(&range);
    assert_eq!(metas[0].date, Some(day(2025, 3, 10)));
    assert_eq!(metas[0].path, "start.md");
    assert_eq!(metas[0].title, "start.md");

    let one_day = DateRange { start: day(2025, 3, 12), end: day(2025, 3, 12) };
    assert_eq!(store.list_notes_by_date(&one_day).len(), 2);
    let backwards = DateRange { start: day(2025, 3, 16), end: day(2025, 3, 10) };
    assert!(store.list_notes_by_date(&backwards).is_empty());
    let years = DateRange { start: day(2024, 12, 31), end: day(2025, 1, 1) };
    assert!(store.list_notes_by_date(&years).is_empty());
    store.upsert_parsed_note(parsed("ny.md", Some(day(2025, 1, 1)), "")).unwrap();
    store.upsert_parsed_note(parsed("eve.md", Some(day(2024, 12, 31)), "")).unwrap();
    store.upsert_parsed_note(parsed("old.md", Some(day(-5, 12, 31)), "")).unwrap();
    let listed: Vec<String> =
        store.list_notes_by_date(&years).iter().map(|m| m.id.0.clone()).collect();
    assert_eq!(listed, vec!["eve.md", "ny.md"]);
    let wide = DateRange { start: day(-100, 1, 1), end: day(2024, 12, 31) };
    let listed: Vec<String> =
        store.list_notes_by_date(&wide).iter().map(|m| m.id.0.clone()).collect();
    assert_eq!(listed, vec!["old.md", "eve.md"]);
}

fn store_with_tasks() -> InMemoryIndexStore {
    let mut store = InMemoryIndexStore::new();
    store
        .upsert_parsed_note(parsed_at(
            "a.md",
            at(day(2025, 3, 10)),
            "## Tasks\n- [ ] [T-1] Buy MILK #errand #home\n- [x] [T-2] Ship it #errand\n- [x] [T-3] Clean #home\n",
        ))
        .unwrap();
    store
        .upsert_parsed_note(parsed_at(
            "b.md",
            at(day(2025, 3, 20)),
            "## Tasks\n- [ ] [T-4] Milk the cow #farm #errand\n- [x] [T-5] \u{c9}cole #school\n",
        ))
        .unwrap();
    store
}

#[test]
fn a_filter_asks_for_all_its_demands() {
    let store = store_with_tasks();
    assert_eq!(ids(&store.list_tasks(&all())), vec!["T-1", "T-2", "T-3", "T-4", "T-5"]);

    let mut filter = all();
    filter.status = Some(TaskStatus::Done);
    assert_eq!(ids(&store.list_tasks(&filter)), vec!["T-2", "T-3", "T-5"]);
    filter.tags = vec!["errand".to_string()];
    let both = store.list_tasks(&filter);
    assert_eq!(ids(&both), vec!["T-2"]);
    for task in &both {
        assert_eq!(task.status, TaskStatus::Done);
        assert!(task.tags.contains(&"errand".to_string()));
    }

    let mut filter = all();
    filter.tags = vec!["errand".to_string(), "home".to_string()];
    assert_eq!(ids(&store.list_tasks(&filter)), vec!["T-1"]);
    filter.tags = vec!["Errand".to_string()];
    assert!(store.list_tasks(&filter).is_empty());

    let mut filter = all();
    filter.status = Some(TaskStatus::Blocked);
    assert!(store.list_tasks(&filter).is_empty());
    filter.status = Some(TaskStatus::InProgress);
    assert!(store.list_tasks(&filter).is_empty());
    filter.status = Some(TaskStatus::Open);
    assert_eq!(ids(&store.list_tasks(&filter)), vec!["T-1", "T-4"]);
}

#[test]
fn text_search_ignores_the_case_of_letters() {
    let store = store_with_tasks();
    let mut filter = all();
    filter.text_search = Some("milk".to_string());
    assert_eq!(ids(&store.list_tasks(&filter)), vec!["T-1", "T-4"]);
    filter.text_search = Some("MILK".to_string());
    assert_eq!(ids(&store.list_tasks(&filter)), vec!["T-1", "T-4"]);
    filter.text_search = Some("\u{e9}COLE".to_string());
    assert_eq!(ids(&store.list_tasks(&filter)), vec!["T-5"]);
    filter.text_search = Some("".to_string());
    assert_eq!(store.list_tasks(&filter).len(), 5);
    filter.text_search = Some("milk the".to_string());
    assert_eq!(ids(&store.list_tasks(&filter)), vec!["T-4"]);
    filter.text_search = Some("errand".to_string());
    assert!(store.list_tasks(&filter).is_empty());
}

#[test]
fn text_search_reads_the_description() {
    let mut store = InMemoryIndexStore::new();
    let mut p = parsed("a.md", None, "## Tasks\n- [ ] [T-1] Title\n- [ ] [T-2] Other\n");
    p.tasks[0].description_md = Some("Some HIDDEN words".to_string());
    store.upsert_parsed_note(p).unwrap();
    let mut filter = all();
    filter.text_search = Some("hidden".to_string());
    assert_eq!(ids(&store.list_tasks(&filter)), vec!["T-1"]);
    assert_eq!(
        store.get_task(&TaskId("T-1".into())).unwrap().description_md.as_deref(),
        Some("Some HIDDEN words")
    );
}

#[test]
fn touched_since_reads_update_and_closing() {
    let mut store = store_with_tasks();
    let mut filter = all();
    filter.touched_since = Some(day(2025, 3, 20));
    assert_eq!(ids(&store.list_tasks(&filter)), vec!["T-4", "T-5"]);
    filter.touched_since = Some(day(2025, 3, 10));
    assert_eq!(store.list_tasks(&filter).len(), 5);
    filter.touched_since = Some(day(2025, 3, 21));
    assert!(store.list_tasks(&filter).is_empty());

    let mut p = parsed_at("c.md", at(day(2025, 1, 1)), "## Tasks\n- [x] [T-6] Late\n- [ ] [T-7] Old\n");
    p.tasks[0].closed_at = Some(at(day(2025, 4, 1)));
    store.upsert_parsed_note(p).unwrap();
    filter.touched_since = Some(day(2025, 3, 21));
    assert_eq!(ids(&store.list_tasks(&filter)), vec!["T-6"]);
    filter.status = Some(TaskStatus::Open);
    assert!(store.list_tasks(&filter).is_empty());
}

#[test]
fn a_later_task_with_the_same_id_replaces_the_earlier_one() {
    let mut store = InMemoryIndexStore::new();
    store.upsert_parsed_note(parsed("a.md", None, "## Tasks\n- [ ] [T-1] First #old\n")).unwrap();
    store.upsert_parsed_note(parsed("b.md", None, "## Tasks\n- [x] [T-1] Second #new\n")).unwrap();
    let tasks = store.list_tasks(&all());
    assert_eq!(tasks.len(), 1);
    assert_eq!(tasks[0].title, "Second");
    assert_eq!(store.get_task(&TaskId("T-1".into())).unwrap().title, "Second");
    assert_eq!(store.list_tags(), vec!["new"]);
    assert!(store.items_for_tag("old").tasks.is_empty());
    store.remove_note(&NoteId("b.md".into())).unwrap();
    assert_eq!(store.get_task(&TaskId("T-1".into())).unwrap().title, "First");
    assert_eq!(store.list_tags(), vec!["old"]);

    let mut store = InMemoryIndexStore::new();
    store
        .upsert_parsed_note(parsed("a.md", None, "## Tasks\n- [ ] [T-1] First\n- [ ] [T-2] Mid\n- [ ] [T-1] Last\n"))
        .unwrap();
    let tasks = store.list_tasks(&all());
    assert_eq!(ids(&tasks), vec!["T-2", "T-1"]);
    assert_eq!(tasks[1].title, "Last");
}

#[test]
fn mentions_and_log_entries_of_a_task() {
    let mut store = InMemoryIndexStore::new();
    store.upsert_parsed_note(parsed("a.md", None, A)).unwrap();
    store.upsert_parsed_note(parsed("b.md", None, "## Log\n- later [T-2]\n- none\n")).unwrap();
    let t1 = TaskId("T-1".into());
    let t2 = TaskId("T-2".into());
    let entries: Vec<String> =
        store.get_log_entries_for_task(&t1).iter().map(|e| e.id.0.clone()).collect();
    assert_eq!(entries, vec!["a.md:5", "a.md:6", "a.md:6"]);
    let entries: Vec<String> =
        store.get_log_entries_for_task(&t2).iter().map(|e| e.id.0.clone()).collect();
    assert_eq!(entries, vec!["a.md:5", "b.md:2"]);
    let mentions = store.get_mentions_for_task(&t2);
    assert_eq!(mentions.len(), 2);
    assert_eq!(mentions[0].note_id.0, "a.md");
    assert_eq!(mentions[0].excerpt, "discussed [T-1] and [T-2] #errand");
    assert_eq!(mentions[1].note_id.0, "b.md");
    assert_eq!(mentions[1].log_entry_id.as_ref().unwrap().0, "b.md:2");
    assert!(store.get_mentions_for_task(&TaskId("T-404".into())).is_empty());
    assert!(store.get_log_entries_for_task(&TaskId("T-404".into())).is_empty());

    store.remove_note(&NoteId("a.md".into())).unwrap();
    assert_eq!(store.get_mentions_for_task(&t2).len(), 1);
    assert!(store.get_mentions_for_task(&t1).is_empty());
    assert!(store.get_task(&t2).is_none());
}

#[test]
fn mentions_of_other_notes_outlive_a_new_upsert_of_the_task() {
    let mut store = InMemoryIndexStore::new();
    store.upsert_parsed_note(parsed("log.md", None, "## Log\n- see [T-1]\n")).unwrap();
    store.upsert_parsed_note(parsed("a.md", None, "## Tasks\n- [ ] [T-1] Task\n")).unwrap();
    assert_eq!(store.get_mentions_for_task(&TaskId("T-1".into())).len(), 1);
    store.upsert_parsed_note(parsed("a.md", None, "## Tasks\n- [ ] [T-1] Task\n")).unwrap();
    assert_eq!(store.get_mentions_for_task(&TaskId("T-1".into())).len(), 1);
    assert_eq!(store.get_log_entries_for_task(&TaskId("T-1".into())).len(), 1);
}

#[test]
fn items_for_tag_matches_the_tag_exactly() {
    let mut store = InMemoryIndexStore::new();
    store.upsert_parsed_note(parsed("a.md", None, A)).unwrap();
    let result = store.items_for_tag("errand");
    assert_eq!(result.tag, "errand");
    assert_eq!(ids(&result.tasks), vec!["T-1"]);
    assert_eq!(result.log_entries.len(), 1);
    assert_eq!(result.log_entries[0].id.0, "a.md:5");
    assert!(store.items_for_tag("Errand").tasks.is_empty());
    assert!(store.items_for_tag("erran").tasks.is_empty());
    assert!(store.items_for_tag("").tasks.is_empty());
    let result = store.items_for_tag("nothing");
    assert_eq!(result.tag, "nothing");
    assert!(result.tasks.is_empty() && result.log_entries.is_empty());
}

#[test]
fn point_lookups() {
    let mut store = InMemoryIndexStore::new();
    assert!(store.get_task(&TaskId("T-1".into())).is_none());
    assert!(store.get_note(&NoteId("a.md".into())).is_none());
    store.upsert_parsed_note(parsed("a.md", Some(day(2025, 3, 15)), A)).unwrap();
    let task = store.get_task(&TaskId("T-2".into())).unwrap();
    assert_eq!(task.title, "Ship it");
    assert_eq!(task.status, TaskStatus::Done);
    assert_eq!(task.tags, vec!["work".to_string()]);
    assert_eq!(task.source_note_id.unwrap().0, "a.md");
    assert!(store.get_task(&TaskId("t-2".into())).is_none());
    let note = store.get_note(&NoteId("a.md".into())).unwrap();
    assert_eq!(note.content, A);
    assert_eq!(note.date, Some(day(2025, 3, 15)));
    assert!(store.get_note(&NoteId("A.md".into())).is_none());
}

#[test]
fn records_made_by_hand_are_indexed_as_given() {
    let mut store = InMemoryIndexStore::default();
    let p = ParsedNote {
        note: note("h.md", None, "free text"),
        tasks: vec![Task {
            id: TaskId("anything".into()),
            title: "By hand".into(),
            status: TaskStatus::Blocked,
            created_at: at(day(2020, 1, 1)),
            updated_at: at(day(2020, 1, 2)),
            closed_at: None,
            tags: vec!["t".into(), "t".into()],
            description_md: None,
            source_note_id: None,
        }],
        log_entries: vec![LogEntry {
            id: LogEntryId("entry".into()),
            note_id: NoteId("elsewhere".into()),
            line_number: 7,
            timestamp: None,
            content_md: "c".into(),
            tags: vec!["t".into()],
            task_ids: vec![TaskId("anything".into())],
        }],
        mentions: vec![TaskMention {
            task_id: TaskId("anything".into()),
            note_id: NoteId("elsewhere".into()),
            log_entry_id: None,
            excerpt: "e".into(),
        }],
    };
    store.upsert_parsed_note(p).unwrap();
    let mut filter = all();
    filter.status = Some(TaskStatus::Blocked);
    assert_eq!(store.list_tasks(&filter).len(), 1);
    assert_eq!(store.items_for_tag("t").tasks.len(), 2);
    assert_eq!(store.items_for_tag("t").log_entries.len(), 1);
    assert_eq!(store.list_tags(), vec!["t"]);
    assert_eq!(store.get_mentions_for_task(&TaskId("anything".into())).len(), 1);
    store.remove_note(&NoteId("h.md".into())).unwrap();
    assert!(is_empty(&store));
    assert!(store.get_mentions_for_task(&TaskId("anything".into())).is_empty());
}
