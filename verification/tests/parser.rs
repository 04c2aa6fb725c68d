use note_core::date::{Date, DateTime};
use note_core::model::{Note, NoteId, ParsedNote, TaskStatus};
use note_core::parser::{
    build_excerpt, collect_continuation, combine_with_continuation, find_task_refs,
    match_task_line, match_time_prefix, parse_note_at, split_title_and_tags, strip_markers,
    MarkdownParser, NoteParser,
};

fn make_note(content: &str) -> Note {
    Note {
        id: NoteId("note-1".into()),
        path: "note.md".into(),
        title: "note".into(),
        date: None,
        content: content.into(),
    }
}

fn chars(s: &str) -> Vec<char> {
    s.chars().collect()
}

fn text(v: &[char]) -> String {
    v.iter().collect()
}

fn texts(v: &[Vec<char>]) -> Vec<String> {
    v.iter().map(|x| text(x)).collect()
}

fn noon() -> DateTime {
    DateTime { date: Date { year: 2025, month: 3, day: 15 }, secs: 43200, nanos: 0 }
}

fn parse(content: &str) -> ParsedNote {
    parse_note_at(make_note(content), noon())
}

#[test]
fn parses_multiline_tasks_and_logs() {
    let parser = MarkdownParser::new();
    let content = r#"
# 2025-03-15

## Tasks
- [ ] [T-2025-001] Implement parser #projects/note-app
  capture multiline context
  more detail #people/jack
- [x] [T-2025-002] Finish docs

## Log
- 09:10 Investigated spec [T-2025-001] #projects/note-app
  linked follow-up [T-2025-002]
- Wrote general notes
"#;
    let note = make_note(content);
    let parsed = parser.parse(note);

    assert_eq!(parsed.tasks.len(), 2);
    let first_task = &parsed.tasks[0];
    assert_eq!(first_task.id.0, "T-2025-001");
    assert!(first_task.title.contains("Implement parser"));
    assert!(first_task.title.contains("capture multiline context"));
    assert_eq!(
        first_task.tags,
        vec!["projects/note-app".to_string(), "people/jack".to_string()]
    );

    assert_eq!(parsed.log_entries.len(), 2);
    let first_entry = &parsed.log_entries[0];
    assert_eq!(first_entry.timestamp.as_deref(), Some("09:10"));
    assert_eq!(first_entry.task_ids.len(), 2);
    assert!(first_entry.content_md.contains("Investigated spec"));
    assert!(first_entry.content_md.contains("linked follow-up"));

    let mentions = &parsed.mentions;
    assert_eq!(mentions.len(), 2);
    assert!(mentions.iter().any(|mention| mention.task_id.0 == "T-2025-001"));
    assert!(mentions.iter().any(|mention| mention.task_id.0 == "T-2025-002"));
}

#[test]
fn parses_ampm_timestamps() {
    let parser = MarkdownParser::new();
    let content = r#"
## Log
- 10:45pm Reviewed plan
"#;
    let parsed = parser.parse(make_note(content));
    assert_eq!(parsed.log_entries.len(), 1);
    assert_eq!(parsed.log_entries[0].timestamp.as_deref(), Some("10:45pm"));
}

#[test]
fn tolerates_indented_headings() {
    let parser = MarkdownParser::new();
    let content = r#"
  ## Tasks
  - [ ] [T-2025-010] Indented heading still works

    ## Log
    - 12:00 Something [T-2025-010]
"#;
    let parsed = parser.parse(make_note(content));
    assert_eq!(parsed.tasks.len(), 1);
    assert_eq!(parsed.tasks[0].id.0, "T-2025-010");
    assert_eq!(parsed.log_entries.len(), 1);
    assert_eq!(parsed.mentions.len(), 1);
}

#[test]
fn multiline_note_in_full() {
    let content = "\n# 2025-03-15\n\n## Tasks\n- [ ] [T-2025-001] Implement parser #projects/note-app\n  capture multiline context\n  more detail #people/jack\n- [x] [T-2025-002] Finish docs\n\n## Log\n- 09:10 Investigated spec [T-2025-001] #projects/note-app\n  linked follow-up [T-2025-002]\n- Wrote general notes\n";
    let parsed = parse(content);
    assert_eq!(parsed.note.content, content);
    assert_eq!(parsed.tasks.len(), 2);
    assert_eq!(
        parsed.tasks[0].title,
        "Implement parser capture multiline context more detail"
    );
    assert_eq!(parsed.tasks[0].status, TaskStatus::Open);
    assert_eq!(parsed.tasks[0].source_note_id.as_ref().unwrap().0, "note-1");
    assert_eq!(parsed.tasks[0].description_md, None);
    assert_eq!(parsed.tasks[1].id.0, "T-2025-002");
    assert_eq!(parsed.tasks[1].title, "Finish docs");
    assert_eq!(parsed.tasks[1].status, TaskStatus::Done);
    assert!(parsed.tasks[1].tags.is_empty());

    let first = &parsed.log_entries[0];
    assert_eq!(first.id.0, "note-1:11");
    assert_eq!(first.note_id.0, "note-1");
    assert_eq!(first.line_number, 11);
    assert_eq!(first.content_md, "Investigated spec [T-2025-001] linked follow-up [T-2025-002]");
    assert_eq!(first.tags, vec!["projects/note-app".to_string()]);
    assert_eq!(first.task_ids[0].0, "T-2025-001");
    assert_eq!(first.task_ids[1].0, "T-2025-002");
    let second = &parsed.log_entries[1];
    assert_eq!(second.id.0, "note-1:13");
    assert_eq!(second.line_number, 13);
    assert_eq!(second.timestamp, None);
    assert_eq!(second.content_md, "Wrote general notes");
    assert!(second.task_ids.is_empty());

    for mention in &parsed.mentions {
        assert_eq!(mention.note_id.0, "note-1");
        assert_eq!(mention.log_entry_id.as_ref().unwrap().0, "note-1:11");
        assert_eq!(
            mention.excerpt,
            "Investigated spec [T-2025-001] #projects/note-app\nlinked follow-up [T-2025-002]"
        );
    }
}

#[test]
fn checkbox_line_yields_open_task() {
    let parsed = parse("## Tasks\n- [ ] [T-1] Buy milk #errand\n");
    assert_eq!(parsed.tasks.len(), 1);
    let task = &parsed.tasks[0];
    assert_eq!(task.id.0, "T-1");
    assert_eq!(task.title, "Buy milk");
    assert_eq!(task.tags, vec!["errand".to_string()]);
    assert_eq!(task.status, TaskStatus::Open);
    assert_eq!(task.closed_at, None);
    assert_eq!(task.created_at, noon());
    assert_eq!(task.updated_at, noon());
    assert!(parsed.log_entries.is_empty());
    assert!(parsed.mentions.is_empty());
}

#[test]
fn continuation_line_joins_the_task_text() {
    let lines = vec![
        chars("- [ ] [T-1] Buy milk #errand"),
        chars("  extra detail"),
        chars("- [ ] [T-2] next"),
    ];
    let extras = collect_continuation(&lines, 1);
    assert_eq!(texts(&extras), vec!["extra detail".to_string()]);
    let combined = combine_with_continuation(&chars("Buy milk #errand"), &extras);
    assert_eq!(text(&combined), "Buy milk #errand\nextra detail");
    assert!(text(&combined).contains("Buy milk"));
    assert!(text(&combined).contains("extra detail"));

    let parsed = parse("## Tasks\n- [ ] [T-1] Buy milk #errand\n  extra detail\n");
    assert_eq!(parsed.tasks.len(), 1);
    assert_eq!(parsed.tasks[0].title, "Buy milk extra detail");
    assert_eq!(parsed.tasks[0].tags, vec!["errand".to_string()]);
}

#[test]
fn closed_task_is_done_with_all_times_equal() {
    let parsed = parse("## Tasks\n- [x] [T-2] Ship it\n");
    assert_eq!(parsed.tasks.len(), 1);
    let task = &parsed.tasks[0];
    assert_eq!(task.id.0, "T-2");
    assert_eq!(task.title, "Ship it");
    assert_eq!(task.status, TaskStatus::Done);
    assert_eq!(task.closed_at, Some(task.created_at));
    assert_eq!(task.closed_at, Some(task.updated_at));
    assert_eq!(task.created_at, noon());

    let parser = MarkdownParser::new();
    let parsed = parser.parse(make_note("## Tasks\n- [x] [T-2] Ship it\n"));
    let task = &parsed.tasks[0];
    assert_eq!(task.status, TaskStatus::Done);
    assert_eq!(task.closed_at, Some(task.created_at));
    assert_eq!(task.created_at, task.updated_at);
    assert!(task.created_at.date.year >= 2024);
    assert!(task.created_at.date.month >= 1 && task.created_at.date.month <= 12);
    assert!(task.created_at.date.day >= 1 && task.created_at.date.day <= 31);
    assert!(task.created_at.secs < 86_400);
}

#[test]
fn capital_mark_closes_a_task() {
    let parsed = parse("## Tasks\n- [X] [T-3] Loud\n");
    assert_eq!(parsed.tasks.len(), 1);
    assert_eq!(parsed.tasks[0].status, TaskStatus::Done);
    assert_eq!(parsed.tasks[0].closed_at, Some(noon()));
}

#[test]
fn log_line_makes_one_mention_for_each_task() {
    let parsed = parse("## Log\n- 09:00 discussed [T-1] and [T-2]\n");
    assert_eq!(parsed.log_entries.len(), 1);
    let entry = &parsed.log_entries[0];
    assert_eq!(entry.timestamp.as_deref(), Some("09:00"));
    assert_eq!(entry.content_md, "discussed [T-1] and [T-2]");
    assert_eq!(entry.id.0, "note-1:2");
    assert_eq!(parsed.mentions.len(), 2);
    assert_eq!(parsed.mentions[0].task_id.0, "T-1");
    assert_eq!(parsed.mentions[1].task_id.0, "T-2");
    assert_eq!(parsed.mentions[0].excerpt, parsed.mentions[1].excerpt);
    assert_eq!(parsed.mentions[0].excerpt, "discussed [T-1] and [T-2]");
    assert_eq!(parsed.mentions[0].log_entry_id, parsed.mentions[1].log_entry_id);
    assert_eq!(parsed.mentions[0].log_entry_id.as_ref().unwrap().0, "note-1:2");
    assert_eq!(parsed.mentions[0].note_id.0, "note-1");
}

#[test]
fn lines_outside_the_two_sections_are_passed_over() {
    let parsed = parse("- [ ] [T-1] before any heading\n## Notes\n- [ ] [T-2] elsewhere\n- 09:00 log [T-3]\n## tasks\n- [ ] [T-4] kept\n## LOG\n- kept too\n## Other\n- [ ] [T-5] no\n");
    assert_eq!(parsed.tasks.len(), 1);
    assert_eq!(parsed.tasks[0].id.0, "T-4");
    assert_eq!(parsed.log_entries.len(), 1);
    assert_eq!(parsed.log_entries[0].content_md, "kept too");
    assert_eq!(parsed.log_entries[0].line_number, 8);
}

#[test]
fn empty_and_unrecognized_text_yield_nothing() {
    let parsed = parse("");
    assert!(parsed.tasks.is_empty() && parsed.log_entries.is_empty() && parsed.mentions.is_empty());
    let parsed = parse("## Tasks\nnot a task\n- [ ] no id\n- [y] [T-1] bad mark\n[ ] [T-2] no dash\n- [ ][T-3] no blank\n- [ ] [X-3] bad prefix\n- [ ] [T-] empty id\n- [ ] [T-a b] blank in id\n");
    assert!(parsed.tasks.is_empty());
    let parsed = parse("## Log\nplain\n-no blank\n* star\n");
    assert!(parsed.log_entries.is_empty());
}

#[test]
fn task_lines_in_the_log_and_log_lines_among_tasks() {
    let parsed = parse("## Log\n- [ ] [T-1] a task line in the log\n## Tasks\n- 09:00 a log line [T-2]\n");
    assert!(parsed.tasks.is_empty());
    assert_eq!(parsed.log_entries.len(), 1);
    assert_eq!(parsed.log_entries[0].content_md, "[ ] [T-1] a task line in the log");
    assert_eq!(parsed.mentions.len(), 1);
    assert_eq!(parsed.mentions[0].task_id.0, "T-1");
}

#[test]
fn continuation_stops_at_blank_heading_item_and_flush_lines() {
    let parsed = parse("## Tasks\n- [ ] [T-1] one\n  two\n\n  three\n- [ ] [T-2] four\n  five\nsix\n  seven\n- [ ] [T-3] eight\n  ## Log\n  nine\n");
    assert_eq!(parsed.tasks.len(), 3);
    assert_eq!(parsed.tasks[0].title, "one two");
    assert_eq!(parsed.tasks[1].title, "four five");
    assert_eq!(parsed.tasks[2].title, "eight");
    assert!(parsed.log_entries.is_empty());

    let parsed = parse("## Log\n- 09:00 one\n\ttabbed\n   \n  lost\n- two\n  - nested\n");
    assert_eq!(parsed.log_entries.len(), 3);
    assert_eq!(parsed.log_entries[0].content_md, "one tabbed");
    assert_eq!(parsed.log_entries[1].content_md, "two");
    assert_eq!(parsed.log_entries[1].line_number, 6);
    assert_eq!(parsed.log_entries[2].content_md, "- nested");
    assert_eq!(parsed.log_entries[2].line_number, 7);
}

#[test]
fn carriage_returns_end_lines() {
    let parsed = parse("## Tasks\r\n- [ ] [T-1] one #a\r\n  two\r\n## Log\r\n- 1:05 AM note [T-1]\r\n");
    assert_eq!(parsed.tasks.len(), 1);
    assert_eq!(parsed.tasks[0].title, "one two");
    assert_eq!(parsed.log_entries.len(), 1);
    assert_eq!(parsed.log_entries[0].timestamp.as_deref(), Some("1:05 AM"));
    assert_eq!(parsed.log_entries[0].content_md, "note [T-1]");
    assert_eq!(parsed.log_entries[0].line_number, 5);
}

#[test]
fn tag_only_text_keeps_its_tags_as_title() {
    let (title, tags) = split_title_and_tags(&chars("  #a #b  "));
    assert_eq!(text(&title), "#a #b");
    assert_eq!(texts(&tags), vec!["a".to_string(), "b".to_string()]);
    let (title, tags) = split_title_and_tags(&chars("Buy   milk #errand # #x #errand"));
    assert_eq!(text(&title), "Buy milk #");
    assert_eq!(texts(&tags), vec!["errand".to_string(), "x".to_string(), "errand".to_string()]);
    let (title, tags) = split_title_and_tags(&chars(""));
    assert_eq!(text(&title), "");
    assert!(tags.is_empty());
    let (title, tags) = split_title_and_tags(&chars("a\nb\t#t\u{a0}c"));
    assert_eq!(text(&title), "a b c");
    assert_eq!(texts(&tags), vec!["t".to_string()]);
}

#[test]
fn combine_skips_the_line_feed_behind_an_empty_start() {
    let extras = vec![chars(" one "), chars("two")];
    assert_eq!(text(&combine_with_continuation(&chars("  "), &extras)), "one\ntwo");
    assert_eq!(text(&combine_with_continuation(&chars(" base "), &extras)), "base\none\ntwo");
    assert_eq!(text(&combine_with_continuation(&chars(" base "), &Vec::new())), "base");
    assert_eq!(text(&combine_with_continuation(&chars(""), &vec![chars(""), chars("x")])), "x");
}

#[test]
fn excerpt_is_cut_after_120_characters() {
    let short: String = "a".repeat(120);
    assert_eq!(text(&build_excerpt(&chars(&short))), short);
    let long: String = "b".repeat(121);
    let cut = text(&build_excerpt(&chars(&long)));
    assert_eq!(cut.chars().count(), 121);
    assert_eq!(cut, format!("{}\u{2026}", "b".repeat(120)));
    let wide: String = "\u{e9}".repeat(130);
    let cut = text(&build_excerpt(&chars(&wide)));
    assert_eq!(cut, format!("{}\u{2026}", "\u{e9}".repeat(120)));
    assert_eq!(text(&build_excerpt(&chars(""))), "");

    let body = format!("{} [T-9]", "word ".repeat(30));
    let parsed = parse(&format!("## Log\n- {}\n", body));
    assert_eq!(parsed.mentions.len(), 1);
    let expected: String = body.trim().chars().take(120).collect::<String>() + "\u{2026}";
    assert_eq!(parsed.mentions[0].excerpt, expected);
}

#[test]
fn clock_times() {
    let cases: Vec<(&str, Option<(&str, &str)>)> = vec![
        ("- 09:10 text", Some(("09:10", "text"))),
        ("- 9:10 text", Some(("9:10", "text"))),
        ("- 10:45pm Walked", Some(("10:45pm", "Walked"))),
        ("- 10:45 pm Walked", Some(("10:45 pm", "Walked"))),
        ("- 10:45 PM  Walked ", Some(("10:45 PM", "Walked"))),
        ("- 10:45AM x", Some(("10:45AM", "x"))),
        ("- 10:45 amx y", Some(("10:45", "amx y"))),
        ("- 10:45 Pm y", Some(("10:45", "Pm y"))),
        ("- 10:45pm", None),
        ("- 10:45", None),
        ("- 10:45 ", Some(("10:45", ""))),
        ("- 10:45pm ", Some(("10:45pm", ""))),
        ("-10:45 x", Some(("10:45", "x"))),
        ("  -  10:45 x", Some(("10:45", "x"))),
        ("- 123:45 x", None),
        ("- 12:345 x", None),
        ("- 12:3 x", None),
        ("- :30 x", None),
        ("- 1a:30 x", None),
        ("10:45 x", None),
        ("- x 10:45 y", None),
        ("", None),
    ];
    for (line, expected) in cases {
        let got = match_time_prefix(&chars(line));
        let got = got.map(|t| (text(&t.time), text(&t.rest)));
        let expected = expected.map(|(a, b)| (a.to_string(), b.to_string()));
        assert_eq!(got, expected, "line {:?}", line);
    }
}

#[test]
fn untimed_log_lines_lose_their_markers() {
    assert_eq!(text(&strip_markers(&chars("- note"))), "note");
    assert_eq!(text(&strip_markers(&chars("- - - note "))), "note");
    assert_eq!(text(&strip_markers(&chars("  - note"))), "- note");
    assert_eq!(text(&strip_markers(&chars("-note"))), "-note");
    assert_eq!(text(&strip_markers(&chars("- "))), "");
    assert_eq!(text(&strip_markers(&chars(""))), "");
}

#[test]
fn task_references() {
    assert_eq!(
        texts(&find_task_refs(&chars("[T-1] and [T-2][T-a_b-9] [T-] [T-x y] [X-1] [[T-3]] [T-4"))),
        vec!["T-1", "T-2", "T-a_b-9", "T-3"]
    );
    assert!(find_task_refs(&chars("")).is_empty());
    assert!(find_task_refs(&chars("[T-\u{e9}]")).is_empty());
    assert_eq!(texts(&find_task_refs(&chars("[T-1]\n[T-2]"))), vec!["T-1", "T-2"]);
}

#[test]
fn task_lines() {
    let cases: Vec<(&str, Option<(bool, &str, &str)>)> = vec![
        ("- [ ] [T-1] Buy milk", Some((false, "T-1", "Buy milk"))),
        ("- [x] [T-2] Ship it", Some((true, "T-2", "Ship it"))),
        ("- [X] [T-2] Ship it", Some((true, "T-2", "Ship it"))),
        ("-[ ] [T-1]x", Some((false, "T-1", "x"))),
        ("  -   [ ]\t[T-1]", Some((false, "T-1", ""))),
        ("- [ ] [T-1]   spaced  out  ", Some((false, "T-1", "spaced  out"))),
        ("- [ ][T-1] x", None),
        ("- [] [T-1] x", None),
        ("- [  ] [T-1] x", None),
        ("- [ ] T-1 x", None),
        ("- [ ] [T-1 x", None),
        ("- [ ] [T-] x", None),
        ("- [ ] [t-1] x", None),
        ("* [ ] [T-1] x", None),
        ("", None),
        ("-", None),
    ];
    for (line, expected) in cases {
        let got = match_task_line(&chars(line)).map(|t| (t.done, text(&t.id), text(&t.rest)));
        let expected = expected.map(|(d, i, r)| (d, i.to_string(), r.to_string()));
        assert_eq!(got, expected, "line {:?}", line);
    }
}

#[test]
fn parsing_leaves_the_note_as_it_is() {
    let note = Note {
        id: NoteId("dir/2025-03-15.md".into()),
        path: "dir/2025-03-15.md".into(),
        title: "2025-03-15".into(),
        date: Some(Date { year: 2025, month: 3, day: 15 }),
        content: "## Log\n- x [T-1]\n".into(),
    };
    let parsed = parse_note_at(note, noon());
    assert_eq!(parsed.note.id.0, "dir/2025-03-15.md");
    assert_eq!(parsed.note.path, "dir/2025-03-15.md");
    assert_eq!(parsed.note.title, "2025-03-15");
    assert_eq!(parsed.note.date, Some(Date { year: 2025, month: 3, day: 15 }));
    assert_eq!(parsed.log_entries[0].id.0, "dir/2025-03-15.md:2");
    assert_eq!(parsed.mentions[0].note_id.0, "dir/2025-03-15.md");
}

#[test]
fn line_numbers_have_all_their_digits() {
    let mut content = String::from("## Log\n");
    for i in 0..1234 {
        content.push_str(&format!("- entry {}\n", i));
    }
    let parsed = parse(&content);
    assert_eq!(parsed.log_entries.len(), 1234);
    assert_eq!(parsed.log_entries[8].id.0, "note-1:10");
    assert_eq!(parsed.log_entries[98].id.0, "note-1:100");
    assert_eq!(parsed.log_entries[1233].id.0, "note-1:1235");
    assert_eq!(parsed.log_entries[1233].line_number, 1235);
}
