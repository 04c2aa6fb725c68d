//! The Markdown parser: from the text of a note to its tasks, log entries
//! and task mentions.
//!
//! The format is given as specification functions over the characters of a
//! line; the executable recognisers are proved to compute them.

use crate::date::{now_utc, DateTime};
use crate::model::{
    LogEntry, LogEntryId, LogEntryView, Note, NoteId, NoteView, ParsedNote, ParsedNoteView, Task,
    TaskId, TaskMention, TaskMentionView, TaskStatus, TaskView,
};
use crate::text::{
    char_is_digit, char_is_space, chars_of, copy_range, decimal, equal_ignoring_ascii_case,
    is_digit, is_space, join_words, lemma_views_push, lines, optional_view, push_chars,
    push_decimal, same_ignoring_ascii_case, scan_id_chars, scan_spaces, scan_trailing_spaces,
    skip_id_chars, skip_spaces, split_lines, split_words, string_from_chars, strings_from, trim,
    trim_end, trim_start, trimmed, trimmed_range, views, words, Duplicate,
};
use vstd::prelude::*;

verus! {

/// The section of a note that a line stands in.
#[derive(Clone, Copy, Debug, PartialEq, Eq, Structural)]
pub enum Section {
    Tasks,
    Log,
    Other,
}

/// A line that opens a section: `## ` and a name.
pub open spec fn is_heading(t: Seq<char>) -> bool {
    t.len() >= 3 && t[0] == '#' && t[1] == '#' && t[2] == ' '
}

/// A line that opens a list item: `- `.
pub open spec fn is_list_item(t: Seq<char>) -> bool {
    t.len() >= 2 && t[0] == '-' && t[1] == ' '
}

/// The section that the heading `t` opens: `Tasks` and `Log` by their names,
/// in any case of letters; `Other` for every other name.
pub open spec fn heading_section(t: Seq<char>) -> Section {
    let name = trim(t.subrange(3, t.len() as int));
    if same_ignoring_ascii_case(name, seq!['t', 'a', 's', 'k', 's']) {
        Section::Tasks
    } else if same_ignoring_ascii_case(name, seq!['l', 'o', 'g']) {
        Section::Log
    } else {
        Section::Other
    }
}

/// Where the task reference that starts at `i` ends: `[T-`, one or more
/// identifier characters, `]`. `None` where no reference starts at `i`.
pub open spec fn task_ref_end(s: Seq<char>, i: int) -> Option<int> {
    if 0 <= i && i + 3 < s.len() && s[i] == '[' && s[i + 1] == 'T' && s[i + 2] == '-' {
        let e = skip_id_chars(s, i + 3);
        if e > i + 3 && e < s.len() && s[e] == ']' {
            Some(e + 1)
        } else {
            None
        }
    } else {
        None
    }
}

/// The identifier inside the task reference `s[i..end]`.
pub open spec fn task_ref_id(s: Seq<char>, i: int, end: int) -> Seq<char> {
    s.subrange(i + 1, end - 1)
}

/// What a task line holds.
pub struct TaskLine {
    pub done: bool,
    pub id: Seq<char>,
    pub rest: Seq<char>,
}

/// A check mark: blank for an open task, `x` in either case for a done one.
pub open spec fn is_mark(c: char) -> bool {
    c == ' ' || c == 'x' || c == 'X'
}

/// The task that the line `t` states, if it states one: a dash, a checkbox
/// `[ ]` or `[x]`, white space, a task reference, and the rest of the line.
/// White space may stand before the dash, between dash and checkbox, and
/// around the rest.
pub open spec fn task_line(t: Seq<char>) -> Option<TaskLine> {
    let a = skip_spaces(t, 0);
    if !(a < t.len() && t[a] == '-') {
        None
    } else {
        let b = skip_spaces(t, a + 1);
        if !(b + 2 < t.len() && t[b] == '[' && is_mark(t[b + 1]) && t[b + 2] == ']') {
            None
        } else {
            let c = skip_spaces(t, b + 3);
            if c == b + 3 {
                None
            } else {
                match task_ref_end(t, c) {
                    None => None,
                    Some(e) => Some(
                        TaskLine {
                            done: t[b + 1] != ' ',
                            id: task_ref_id(t, c, e),
                            rest: trim(t.subrange(e, t.len() as int)),
                        },
                    ),
                }
            }
        }
    }
}

/// `am`, `pm`, `AM` or `PM` at position `i`.
pub open spec fn is_meridiem_at(s: Seq<char>, i: int) -> bool {
    &&& 0 <= i
    &&& i + 1 < s.len()
    &&& {
        ||| ((s[i] == 'a' || s[i] == 'p') && s[i + 1] == 'm')
        ||| ((s[i] == 'A' || s[i] == 'P') && s[i + 1] == 'M')
    }
}

/// Where the clock time `H:MM` or `HH:MM` that starts at `i` ends.
pub open spec fn clock_end(s: Seq<char>, i: int) -> Option<int> {
    if 0 <= i && i + 3 < s.len() && is_digit(s[i]) && s[i + 1] == ':' && is_digit(s[i + 2])
        && is_digit(s[i + 3]) {
        Some(i + 4)
    } else if 0 <= i && i + 4 < s.len() && is_digit(s[i]) && is_digit(s[i + 1]) && s[i + 2] == ':'
        && is_digit(s[i + 3]) && is_digit(s[i + 4]) {
        Some(i + 5)
    } else {
        None
    }
}

/// Where the `am` or `pm` behind a clock time that ends at `i` ends: the
/// suffix may follow at once or after one white space.
pub open spec fn meridiem_end(s: Seq<char>, i: int) -> Option<int> {
    if 0 <= i < s.len() && is_space(s[i]) && is_meridiem_at(s, i + 1) {
        Some(i + 3)
    } else if is_meridiem_at(s, i) {
        Some(i + 2)
    } else {
        None
    }
}

/// A log line that starts with a clock time.
pub struct TimedLine {
    pub time: Seq<char>,
    pub rest: Seq<char>,
}

/// The clock time at the start of a log line and the text behind it: a
/// dash, a clock time with an optional `am` or `pm`, white space, and the
/// rest. The suffix belongs to the time only where white space follows it.
pub open spec fn time_prefix(s: Seq<char>) -> Option<TimedLine> {
    let a = skip_spaces(s, 0);
    if !(a < s.len() && s[a] == '-') {
        None
    } else {
        let b = skip_spaces(s, a + 1);
        match clock_end(s, b) {
            None => None,
            Some(t0) => {
                let with_suffix = meridiem_end(s, t0);
                if with_suffix is Some && with_suffix->0 < s.len() && is_space(s[with_suffix->0]) {
                    let t1 = with_suffix->0;
                    Some(
                        TimedLine {
                            time: s.subrange(b, t1),
                            rest: trim(s.subrange(t1, s.len() as int)),
                        },
                    )
                } else if t0 < s.len() && is_space(s[t0]) {
                    Some(
                        TimedLine {
                            time: s.subrange(b, t0),
                            rest: trim(s.subrange(t0, s.len() as int)),
                        },
                    )
                } else {
                    None
                }
            },
        }
    }
}

/// First position at or after `i` where no list marker `- ` starts.
pub open spec fn skip_markers(s: Seq<char>, i: int) -> int
    decreases s.len() - i,
{
    if 0 <= i && i + 1 < s.len() && s[i] == '-' && s[i + 1] == ' ' {
        skip_markers(s, i + 2)
    } else {
        i
    }
}

/// The text of a log line without a clock time: the line without the list
/// markers it starts with, trimmed.
pub open spec fn untimed_body(s: Seq<char>) -> Seq<char> {
    trim(s.subrange(skip_markers(s, 0), s.len() as int))
}

/// The identifiers of the task references in `s[i..]`, from left to right.
/// References do not overlap: the search goes on behind each one found.
pub open spec fn task_refs(s: Seq<char>, i: int) -> Seq<Seq<char>>
    decreases s.len() - i,
{
    if i < 0 || i >= s.len() {
        Seq::empty()
    } else {
        match task_ref_end(s, i) {
            Some(e) => seq![task_ref_id(s, i, e)] + task_refs(s, e),
            None => task_refs(s, i + 1),
        }
    }
}

pub fn starts_heading(t: &Vec<char>) -> (r: bool)
    ensures
        r == is_heading(t@),
{
    t.len() >= 3 && t[0] == '#' && t[1] == '#' && t[2] == ' '
}

pub fn starts_list_item(t: &Vec<char>) -> (r: bool)
    ensures
        r == is_list_item(t@),
{
    t.len() >= 2 && t[0] == '-' && t[1] == ' '
}

/// The section that a heading opens.
pub fn section_of_heading(t: &Vec<char>) -> (r: Section)
    requires
        is_heading(t@),
    ensures
        r == heading_section(t@),
{
    let name = trimmed_range(t, 3);
    let tasks: Vec<char> = vec!['t', 'a', 's', 'k', 's'];
    let log: Vec<char> = vec!['l', 'o', 'g'];
    assert(tasks@ =~= seq!['t', 'a', 's', 'k', 's']);
    assert(log@ =~= seq!['l', 'o', 'g']);
    if equal_ignoring_ascii_case(&name, &tasks) {
        Section::Tasks
    } else if equal_ignoring_ascii_case(&name, &log) {
        Section::Log
    } else {
        Section::Other
    }
}

/// The end of the task reference that starts at `i`, if one does.
pub fn find_task_ref_end(s: &Vec<char>, i: usize) -> (r: Option<usize>)
    requires
        i <= s.len(),
    ensures
        match r {
            Some(e) => task_ref_end(s@, i as int) == Some(e as int) && i + 5 <= e <= s.len(),
            None => task_ref_end(s@, i as int) is None,
        },
{
    if s.len() - i > 3 && s[i] == '[' && s[i + 1] == 'T' && s[i + 2] == '-' {
        let e = scan_id_chars(s, i + 3);
        if e > i + 3 && e < s.len() && s[e] == ']' {
            Some(e + 1)
        } else {
            None
        }
    } else {
        None
    }
}

/// A task line, as the recogniser hands it out.
pub struct TaskLineParts {
    pub done: bool,
    pub id: Vec<char>,
    pub rest: Vec<char>,
}

impl View for TaskLineParts {
    type V = TaskLine;

    open spec fn view(&self) -> TaskLine {
        TaskLine { done: self.done, id: self.id@, rest: self.rest@ }
    }
}

/// Recognises a task line.
pub fn match_task_line(t: &Vec<char>) -> (r: Option<TaskLineParts>)
    ensures
        optional_view(r) == task_line(t@),
{
    let a = scan_spaces(t, 0);
    if !(a < t.len() && t[a] == '-') {
        return None;
    }
    let b = scan_spaces(t, a + 1);
    if !(t.len() - b > 2 && t[b] == '[' && (t[b + 1] == ' ' || t[b + 1] == 'x' || t[b + 1] == 'X')
        && t[b + 2] == ']') {
        return None;
    }
    let c = scan_spaces(t, b + 3);
    if c == b + 3 {
        return None;
    }
    match find_task_ref_end(t, c) {
        None => None,
        Some(e) => {
            let id = copy_range(t, c + 1, e - 1);
            let rest = trimmed_range(t, e);
            Some(TaskLineParts { done: t[b + 1] != ' ', id, rest })
        },
    }
}

pub fn has_meridiem_at(s: &Vec<char>, i: usize) -> (r: bool)
    requires
        i <= s.len(),
    ensures
        r == is_meridiem_at(s@, i as int),
{
    s.len() - i > 1 && (((s[i] == 'a' || s[i] == 'p') && s[i + 1] == 'm') || ((s[i] == 'A' || s[i]
        == 'P') && s[i + 1] == 'M'))
}

pub fn find_clock_end(s: &Vec<char>, i: usize) -> (r: Option<usize>)
    requires
        i <= s.len(),
    ensures
        match r {
            Some(e) => clock_end(s@, i as int) == Some(e as int) && i < e <= s.len(),
            None => clock_end(s@, i as int) is None,
        },
{
    let left: usize = s.len() - i;
    if left > 3 && char_is_digit(s[i]) && s[i + 1] == ':' && char_is_digit(s[i + 2])
        && char_is_digit(s[i + 3]) {
        Some(i + 4)
    } else if left > 4 && char_is_digit(s[i]) && char_is_digit(s[i + 1]) && s[i + 2] == ':'
        && char_is_digit(s[i + 3]) && char_is_digit(s[i + 4]) {
        Some(i + 5)
    } else {
        None
    }
}

pub fn find_meridiem_end(s: &Vec<char>, i: usize) -> (r: Option<usize>)
    requires
        i <= s.len(),
    ensures
        match r {
            Some(e) => meridiem_end(s@, i as int) == Some(e as int) && i < e <= s.len(),
            None => meridiem_end(s@, i as int) is None,
        },
{
    if i < s.len() && char_is_space(s[i]) && has_meridiem_at(s, i + 1) {
        Some(i + 3)
    } else if has_meridiem_at(s, i) {
        Some(i + 2)
    } else {
        None
    }
}

/// A log line with a clock time, as the recogniser hands it out.
pub struct TimedLineParts {
    pub time: Vec<char>,
    pub rest: Vec<char>,
}

impl View for TimedLineParts {
    type V = TimedLine;

    open spec fn view(&self) -> TimedLine {
        TimedLine { time: self.time@, rest: self.rest@ }
    }
}

/// Recognises the clock time at the start of a log line.
pub fn match_time_prefix(s: &Vec<char>) -> (r: Option<TimedLineParts>)
    ensures
        optional_view(r) == time_prefix(s@),
{
    let a = scan_spaces(s, 0);
    if !(a < s.len() && s[a] == '-') {
        return None;
    }
    let b = scan_spaces(s, a + 1);
    match find_clock_end(s, b) {
        None => None,
        Some(t0) => {
            let with_suffix = find_meridiem_end(s, t0);
            match with_suffix {
                Some(t1) => {
                    if t1 < s.len() && char_is_space(s[t1]) {
                        let time = copy_range(s, b, t1);
                        let rest = trimmed_range(s, t1);
                        return Some(TimedLineParts { time, rest });
                    }
                },
                None => {},
            }
            if t0 < s.len() && char_is_space(s[t0]) {
                let time = copy_range(s, b, t0);
                let rest = trimmed_range(s, t0);
                Some(TimedLineParts { time, rest })
            } else {
                None
            }
        },
    }
}

/// The text of a log line that starts with no clock time.
pub fn strip_markers(s: &Vec<char>) -> (r: Vec<char>)
    ensures
        r@ == untimed_body(s@),
{
    let mut i: usize = 0;
    while s.len() - i > 1 && s[i] == '-' && s[i + 1] == ' '
        invariant
            i <= s.len(),
            skip_markers(s@, 0) == skip_markers(s@, i as int),
        decreases s.len() - i,
    {
        i = i + 2;
    }
    trimmed_range(s, i)
}

/// The identifiers of the task references in `s`.
pub fn find_task_refs(s: &Vec<char>) -> (r: Vec<Vec<char>>)
    ensures
        views(r@) == task_refs(s@, 0),
{
    let mut r: Vec<Vec<char>> = Vec::new();
    let mut i: usize = 0;
    while i < s.len()
        invariant
            i <= s.len(),
            views(r@) + task_refs(s@, i as int) == task_refs(s@, 0),
        decreases s.len() - i,
    {
        match find_task_ref_end(s, i) {
            Some(e) => {
                let id = copy_range(s, i + 1, e - 1);
                let ghost before = r@;
                r.push(id);
                proof {
                    lemma_views_push(before, id);
                    assert(views(r@) + task_refs(s@, e as int) =~= views(before) + task_refs(
                        s@,
                        i as int,
                    ));
                }
                i = e;
            },
            None => {
                i = i + 1;
            },
        }
    }
    assert(views(r@) =~= task_refs(s@, 0));
    r
}

/// A line that continues the list item before it: it starts with a blank
/// or a tab, holds more than white space, and opens neither a section nor a
/// list item.
pub open spec fn is_continuation(line: Seq<char>) -> bool {
    &&& !is_heading(trim_start(line))
    &&& !is_list_item(trim_start(line))
    &&& trim(line).len() > 0
    &&& line.len() > 0
    &&& (line[0] == ' ' || line[0] == '\t')
}

/// How many of the lines from `i` on continue the item before them.
pub open spec fn continuation_len(lines: Seq<Seq<char>>, i: int) -> nat
    decreases lines.len() - i,
{
    if 0 <= i < lines.len() && is_continuation(lines[i]) {
        1 + continuation_len(lines, i + 1)
    } else {
        0
    }
}

/// The continuation lines from `i` on, each trimmed.
pub open spec fn continuation(lines: Seq<Seq<char>>, i: int) -> Seq<Seq<char>> {
    lines.subrange(i, i + continuation_len(lines, i)).map_values(|l: Seq<char>| trim(l))
}

/// The trimmed `base` and the trimmed `extras`, with a line feed between
/// each two, but none behind an empty start.
pub open spec fn combine(base: Seq<char>, extras: Seq<Seq<char>>) -> Seq<char>
    decreases extras.len(),
{
    if extras.len() == 0 {
        trim(base)
    } else {
        let head = combine(base, extras.drop_last());
        if head.len() > 0 {
            head + seq!['\n'] + trim(extras.last())
        } else {
            trim(extras.last())
        }
    }
}

/// A word that is a tag: `#` and at least one more character.
pub open spec fn is_tag_word(w: Seq<char>) -> bool {
    w.len() > 1 && w[0] == '#'
}

/// The tags among `ws`, without their `#`, in their order; a tag that
/// occurs twice is listed twice.
pub open spec fn tags_of(ws: Seq<Seq<char>>) -> Seq<Seq<char>>
    decreases ws.len(),
{
    if ws.len() == 0 {
        Seq::empty()
    } else if is_tag_word(ws.last()) {
        tags_of(ws.drop_last()).push(ws.last().drop_first())
    } else {
        tags_of(ws.drop_last())
    }
}

/// The words among `ws` that are no tags, in their order.
pub open spec fn plain_words(ws: Seq<Seq<char>>) -> Seq<Seq<char>>
    decreases ws.len(),
{
    if ws.len() == 0 {
        Seq::empty()
    } else if is_tag_word(ws.last()) {
        plain_words(ws.drop_last())
    } else {
        plain_words(ws.drop_last()).push(ws.last())
    }
}

/// The tags of a text.
pub open spec fn tags_in(input: Seq<char>) -> Seq<Seq<char>> {
    tags_of(words(input))
}

/// A text without its tags: the other words, joined by single spaces. A
/// text of tags alone is its own title, trimmed.
pub open spec fn title_in(input: Seq<char>) -> Seq<char> {
    let plain = plain_words(words(input));
    if plain.len() == 0 {
        trim(input)
    } else {
        join_words(plain)
    }
}

/// The longest excerpt, in characters.
pub const MAX_EXCERPT: usize = 120;

/// The sign that an excerpt was cut.
pub const ELLIPSIS: char = '\u{2026}';

/// The first 120 characters of `content`, with an ellipsis where
/// characters were cut.
pub open spec fn excerpt(content: Seq<char>) -> Seq<char> {
    if content.len() <= MAX_EXCERPT {
        content
    } else {
        content.take(MAX_EXCERPT as int).push(ELLIPSIS)
    }
}

pub proof fn lemma_continuation_len_bound(lines: Seq<Seq<char>>, i: int)
    requires
        0 <= i <= lines.len(),
    ensures
        i + continuation_len(lines, i) <= lines.len(),
    decreases lines.len() - i,
{
    if i < lines.len() && is_continuation(lines[i]) {
        lemma_continuation_len_bound(lines, i + 1);
    }
}

/// Whether `line` continues the list item before it.
pub fn continues_item(line: &Vec<char>) -> (r: bool)
    ensures
        r == is_continuation(line@),
{
    let a = scan_spaces(line, 0);
    let start = copy_range(line, a, line.len());
    if starts_heading(&start) || starts_list_item(&start) {
        return false;
    }
    let whole = trimmed(line);
    if whole.len() == 0 {
        return false;
    }
    line.len() > 0 && (line[0] == ' ' || line[0] == '\t')
}

/// The lines from `start` on that continue the item before them, trimmed.
pub fn collect_continuation(lines: &Vec<Vec<char>>, start: usize) -> (extras: Vec<Vec<char>>)
    requires
        start <= lines.len(),
    ensures
        views(extras@) == continuation(views(lines@), start as int),
        extras.len() == continuation_len(views(lines@), start as int),
        start + extras.len() <= lines.len(),
{
    let ghost all = views(lines@);
    let mut extras: Vec<Vec<char>> = Vec::new();
    let mut i: usize = start;
    while i < lines.len() && continues_item(&lines[i])
        invariant
            start <= i <= lines.len(),
            all == views(lines@),
            extras.len() == i - start,
            continuation_len(all, start as int) == (i - start) + continuation_len(all, i as int),
            views(extras@) == all.subrange(start as int, i as int).map_values(
                |l: Seq<char>| trim(l),
            ),
        decreases lines.len() - i,
    {
        let line = trimmed(&lines[i]);
        let ghost before = extras@;
        extras.push(line);
        proof {
            lemma_views_push(before, line);
            assert(views(extras@) =~= all.subrange(start as int, i + 1).map_values(
                |l: Seq<char>| trim(l),
            ));
        }
        i = i + 1;
    }
    extras
}

/// Joins a trimmed start and trimmed continuation lines by line feeds.
pub fn combine_with_continuation(base: &Vec<char>, continuation: &Vec<Vec<char>>) -> (combined:
    Vec<char>)
    ensures
        combined@ == combine(base@, views(continuation@)),
{
    let ghost extras = views(continuation@);
    let mut combined = trimmed(base);
    assert(extras.take(0) =~= Seq::<Seq<char>>::empty());
    let mut i: usize = 0;
    while i < continuation.len()
        invariant
            i <= continuation.len(),
            extras == views(continuation@),
            combined@ == combine(base@, extras.take(i as int)),
        decreases continuation.len() - i,
    {
        let extra = trimmed(&continuation[i]);
        proof {
            assert(extras.take(i + 1).drop_last() =~= extras.take(i as int));
            assert(extras.take(i + 1).last() == extras[i as int]);
        }
        let ghost head = combined@;
        if combined.len() > 0 {
            combined.push('\n');
            push_chars(&mut combined, &extra);
            assert(combined@ =~= head + seq!['\n'] + extra@);
        } else {
            push_chars(&mut combined, &extra);
            assert(combined@ =~= extra@);
        }
        i = i + 1;
    }
    assert(extras.take(continuation.len() as int) =~= extras);
    combined
}

/// The words of `ws` joined by single spaces.
pub fn join_with_spaces(ws: &Vec<Vec<char>>) -> (r: Vec<char>)
    ensures
        r@ == join_words(views(ws@)),
{
    let ghost all = views(ws@);
    let mut r: Vec<char> = Vec::new();
    let mut i: usize = 0;
    assert(all.take(0) =~= Seq::<Seq<char>>::empty());
    while i < ws.len()
        invariant
            i <= ws.len(),
            all == views(ws@),
            r@ == join_words(all.take(i as int)),
        decreases ws.len() - i,
    {
        proof {
            assert(all.take(i + 1).drop_last() =~= all.take(i as int));
            assert(all.take(i + 1).last() == all[i as int]);
            assert(all.take(i + 1)[0] == all[0]);
        }
        let ghost head = r@;
        if i > 0 {
            r.push(' ');
            push_chars(&mut r, &ws[i]);
            assert(r@ =~= head + seq![' '] + all[i as int]);
        } else {
            push_chars(&mut r, &ws[i]);
            assert(r@ =~= all[0]);
        }
        i = i + 1;
    }
    assert(all.take(ws.len() as int) =~= all);
    r
}

/// Splits a text into its title and its tags.
pub fn split_title_and_tags(input: &Vec<char>) -> (r: (Vec<char>, Vec<Vec<char>>))
    ensures
        r.0@ == title_in(input@),
        views(r.1@) == tags_in(input@),
{
    let ws = split_words(input);
    let ghost all = views(ws@);
    let mut plain: Vec<Vec<char>> = Vec::new();
    let mut tags: Vec<Vec<char>> = Vec::new();
    let mut i: usize = 0;
    assert(all.take(0) =~= Seq::<Seq<char>>::empty());
    while i < ws.len()
        invariant
            i <= ws.len(),
            all == views(ws@),
            views(plain@) == plain_words(all.take(i as int)),
            views(tags@) == tags_of(all.take(i as int)),
        decreases ws.len() - i,
    {
        proof {
            assert(all.take(i + 1).drop_last() =~= all.take(i as int));
            assert(all.take(i + 1).last() == all[i as int]);
        }
        let word = &ws[i];
        if word.len() > 1 && word[0] == '#' {
            let tag = copy_range(word, 1, word.len());
            assert(tag@ =~= word@.drop_first());
            let ghost before = tags@;
            tags.push(tag);
            proof {
                lemma_views_push(before, tag);
            }
        } else {
            let copy = word.duplicate();
            let ghost before = plain@;
            plain.push(copy);
            proof {
                lemma_views_push(before, copy);
            }
        }
        i = i + 1;
    }
    assert(all.take(ws.len() as int) =~= all);
    let title = if plain.len() == 0 {
        trimmed(input)
    } else {
        join_with_spaces(&plain)
    };
    (title, tags)
}

/// The excerpt of a log entry's text.
pub fn build_excerpt(content: &Vec<char>) -> (r: Vec<char>)
    ensures
        r@ == excerpt(content@),
{
    if content.len() <= MAX_EXCERPT {
        content.duplicate()
    } else {
        let mut r = copy_range(content, 0, MAX_EXCERPT);
        r.push(ELLIPSIS);
        r
    }
}

/// The task that a task line and its continuation lines state, read at `now`.
pub open spec fn task_from_line(
    note_id: Seq<char>,
    now: DateTime,
    line: TaskLine,
    extras: Seq<Seq<char>>,
) -> TaskView {
    let combined = combine(line.rest, extras);
    TaskView {
        id: line.id,
        title: title_in(combined),
        status: if line.done {
            TaskStatus::Done
        } else {
            TaskStatus::Open
        },
        created_at: now,
        updated_at: now,
        closed_at: if line.done {
            Some(now)
        } else {
            None
        },
        tags: tags_in(combined),
        description_md: None,
        source_note_id: Some(note_id),
    }
}

/// The clock time at the start of a log line.
pub open spec fn log_time(raw: Seq<char>) -> Option<Seq<char>> {
    match time_prefix(raw) {
        Some(timed) => Some(timed.time),
        None => None,
    }
}

/// The whole text of a log entry: the line without marker and clock time,
/// and its continuation lines.
pub open spec fn log_text(raw: Seq<char>, extras: Seq<Seq<char>>) -> Seq<char> {
    match time_prefix(raw) {
        Some(timed) => combine(timed.rest, extras),
        None => combine(untimed_body(raw), extras),
    }
}

/// The identifier of the log entry at a line of a note.
pub open spec fn log_entry_id(note_id: Seq<char>, line_number: nat) -> Seq<char> {
    note_id + seq![':'] + decimal(line_number)
}

/// The log entry that the line `raw`, at `line_number`, states with its
/// continuation lines.
pub open spec fn log_entry_from_line(
    note_id: Seq<char>,
    raw: Seq<char>,
    line_number: nat,
    extras: Seq<Seq<char>>,
) -> LogEntryView {
    let combined = log_text(raw, extras);
    LogEntryView {
        id: log_entry_id(note_id, line_number),
        note_id,
        line_number,
        timestamp: log_time(raw),
        content_md: title_in(combined),
        tags: tags_in(combined),
        task_ids: task_refs(combined, 0),
    }
}

/// The mention of the task `task_id` by the log entry `entry_id`.
pub open spec fn mention_of(
    task_id: Seq<char>,
    note_id: Seq<char>,
    entry_id: Seq<char>,
    combined: Seq<char>,
) -> TaskMentionView {
    TaskMentionView { task_id, note_id, log_entry_id: Some(entry_id), excerpt: excerpt(combined) }
}

/// One mention for each task reference in the text of a log entry.
pub open spec fn mentions_from_line(
    note_id: Seq<char>,
    raw: Seq<char>,
    line_number: nat,
    extras: Seq<Seq<char>>,
) -> Seq<TaskMentionView> {
    let combined = log_text(raw, extras);
    task_refs(combined, 0).map_values(
        |id: Seq<char>| mention_of(id, note_id, log_entry_id(note_id, line_number), combined),
    )
}

/// What the parser has found: tasks, log entries and mentions, each in the
/// order of the text.
pub struct Items {
    pub tasks: Seq<TaskView>,
    pub log_entries: Seq<LogEntryView>,
    pub mentions: Seq<TaskMentionView>,
}

impl Items {
    pub open spec fn empty() -> Items {
        Items { tasks: Seq::empty(), log_entries: Seq::empty(), mentions: Seq::empty() }
    }

    /// These items with those of `next` behind them.
    pub open spec fn followed_by(self, next: Items) -> Items {
        Items {
            tasks: self.tasks + next.tasks,
            log_entries: self.log_entries + next.log_entries,
            mentions: self.mentions + next.mentions,
        }
    }
}

/// The views of what the parser holds.
pub open spec fn items_of(
    tasks: Seq<Task>,
    log_entries: Seq<LogEntry>,
    mentions: Seq<TaskMention>,
) -> Items {
    Items { tasks: views(tasks), log_entries: views(log_entries), mentions: views(mentions) }
}

/// What one step of the parser yields: the items found, the line to go on
/// with, and the section that line stands in.
pub struct Step {
    pub items: Items,
    pub next: int,
    pub section: Section,
}

/// The step at line `i`, which stands in `section`.
///
/// A heading changes the section. In `Tasks`, a task line with the lines
/// that continue it is a task. In `Log`, a list item with the lines that
/// continue it is a log entry, with one mention for each task it names.
/// Every other line is passed over. Lines count from 1.
pub open spec fn step(
    lines: Seq<Seq<char>>,
    i: int,
    section: Section,
    note_id: Seq<char>,
    now: DateTime,
) -> Step {
    let raw = lines[i];
    let t = trim_start(trim_end(raw));
    let extras = continuation(lines, i + 1);
    let behind = i + 1 + continuation_len(lines, i + 1);
    if is_heading(t) {
        Step { items: Items::empty(), next: i + 1, section: heading_section(t) }
    } else if section == Section::Tasks && task_line(t) is Some {
        Step {
            items: Items {
                tasks: seq![task_from_line(note_id, now, task_line(t)->0, extras)],
                log_entries: Seq::empty(),
                mentions: Seq::empty(),
            },
            next: behind,
            section,
        }
    } else if section == Section::Log && is_list_item(trim_start(raw)) {
        Step {
            items: Items {
                tasks: Seq::empty(),
                log_entries: seq![log_entry_from_line(note_id, raw, (i + 1) as nat, extras)],
                mentions: mentions_from_line(note_id, raw, (i + 1) as nat, extras),
            },
            next: behind,
            section,
        }
    } else {
        Step { items: Items::empty(), next: i + 1, section }
    }
}

/// What the lines from `i` on hold, when line `i` stands in `section`: the
/// items of each step, one behind the other.
pub open spec fn scan(
    lines: Seq<Seq<char>>,
    i: int,
    section: Section,
    note_id: Seq<char>,
    now: DateTime,
) -> Items
    decreases lines.len() - i,
{
    if i < 0 || i >= lines.len() {
        Items::empty()
    } else {
        let here = step(lines, i, section, note_id, now);
        proof {
            lemma_continuation_len_bound(lines, i + 1);
        }
        here.items.followed_by(scan(lines, here.next, here.section, note_id, now))
    }
}

/// The note with everything that its text holds, read at `now`.
pub open spec fn parsed_note(note: NoteView, now: DateTime) -> ParsedNoteView {
    let items = scan(lines(note.content), 0, Section::Other, note.id, now);
    ParsedNoteView {
        note,
        tasks: items.tasks,
        log_entries: items.log_entries,
        mentions: items.mentions,
    }
}

/// Builds the task of a recognised task line.
pub fn build_task(note_id: &Vec<char>, now: DateTime, line: &TaskLineParts, extras: &Vec<Vec<char>>) -> (task:
    Task)
    ensures
        task@ == task_from_line(note_id@, now, line@, views(extras@)),
{
    let combined = combine_with_continuation(&line.rest, extras);
    let (title, tags) = split_title_and_tags(&combined);
    Task {
        id: TaskId(string_from_chars(&line.id)),
        title: string_from_chars(&title),
        status: if line.done {
            TaskStatus::Done
        } else {
            TaskStatus::Open
        },
        created_at: now,
        updated_at: now,
        closed_at: if line.done {
            Some(now)
        } else {
            None
        },
        tags: strings_from(&tags),
        description_md: None,
        source_note_id: Some(NoteId(string_from_chars(note_id))),
    }
}

/// Builds the log entry of a list item of the log, and the mentions of the
/// tasks it names. A line that is no list item is no log entry.
pub fn parse_log_line(
    note_id: &Vec<char>,
    raw: &Vec<char>,
    line_number: usize,
    extras: &Vec<Vec<char>>,
) -> (r: (LogEntry, Vec<TaskMention>))
    requires
        is_list_item(trim_start(raw@)),
    ensures
        r.0@ == log_entry_from_line(note_id@, raw@, line_number as nat, views(extras@)),
        views(r.1@) == mentions_from_line(note_id@, raw@, line_number as nat, views(extras@)),
{
    let timed = match_time_prefix(raw);
    let mut timestamp: Option<String> = None;
    let remainder: Vec<char>;
    match timed {
        Some(parts) => {
            timestamp = Some(string_from_chars(&parts.time));
            remainder = parts.rest;
        },
        None => {
            remainder = strip_markers(raw);
        },
    }
    let combined = combine_with_continuation(&remainder, extras);
    assert(combined@ == log_text(raw@, views(extras@)));
    let (content, tags) = split_title_and_tags(&combined);
    let refs = find_task_refs(&combined);
    let mut entry_id = note_id.duplicate();
    entry_id.push(':');
    push_decimal(&mut entry_id, line_number);
    assert(entry_id@ =~= log_entry_id(note_id@, line_number as nat));
    let snippet = build_excerpt(&combined);
    let ghost all = views(refs@);
    let ghost wanted = mentions_from_line(note_id@, raw@, line_number as nat, views(extras@));
    let mut task_ids: Vec<TaskId> = Vec::new();
    let mut mentions: Vec<TaskMention> = Vec::new();
    let mut i: usize = 0;
    while i < refs.len()
        invariant
            i <= refs.len(),
            all == views(refs@),
            all == task_refs(combined@, 0),
            snippet@ == excerpt(combined@),
            entry_id@ == log_entry_id(note_id@, line_number as nat),
            wanted == all.map_values(
                |id: Seq<char>|
                    mention_of(id, note_id@, log_entry_id(note_id@, line_number as nat), combined@),
            ),
            views(task_ids@) == all.take(i as int),
            views(mentions@) == wanted.take(i as int),
        decreases refs.len() - i,
    {
        let id = TaskId(string_from_chars(&refs[i]));
        let mention = TaskMention {
            task_id: id.duplicate(),
            note_id: NoteId(string_from_chars(note_id)),
            log_entry_id: Some(LogEntryId(string_from_chars(&entry_id))),
            excerpt: string_from_chars(&snippet),
        };
        let ghost ids_before = task_ids@;
        let ghost mentions_before = mentions@;
        task_ids.push(id);
        mentions.push(mention);
        proof {
            lemma_views_push(ids_before, id);
            lemma_views_push(mentions_before, mention);
            assert(views(task_ids@) =~= all.take(i + 1));
            assert(views(mentions@) =~= wanted.take(i + 1));
        }
        i = i + 1;
    }
    assert(all.take(refs.len() as int) =~= all);
    assert(wanted.take(refs.len() as int) =~= wanted);
    let entry = LogEntry {
        id: LogEntryId(string_from_chars(&entry_id)),
        note_id: NoteId(string_from_chars(note_id)),
        line_number,
        timestamp,
        content_md: string_from_chars(&content),
        tags: strings_from(&tags),
        task_ids,
    };
    (entry, mentions)
}

/// The views of two sequences, one behind the other.
pub proof fn lemma_views_add<T: View>(a: Seq<T>, b: Seq<T>)
    ensures
        views(a + b) == views(a) + views(b),
{
    assert(views(a + b) =~= views(a) + views(b));
}

/// What one step of the parser found, as the parser holds it.
pub struct StepParts {
    pub tasks: Vec<Task>,
    pub log_entries: Vec<LogEntry>,
    pub mentions: Vec<TaskMention>,
    pub next: usize,
    pub section: Section,
}

impl View for StepParts {
    type V = Step;

    open spec fn view(&self) -> Step {
        Step {
            items: items_of(self.tasks@, self.log_entries@, self.mentions@),
            next: self.next as int,
            section: self.section,
        }
    }
}

/// Reads line `i`, with the lines that continue it.
pub fn parse_step(
    lines: &Vec<Vec<char>>,
    i: usize,
    section: Section,
    note_id: &Vec<char>,
    now: DateTime,
) -> (r: StepParts)
    requires
        i < lines.len(),
    ensures
        r@ == step(views(lines@), i as int, section, note_id@, now),
        i < r.next <= lines.len(),
{
    let raw = &lines[i];
    let end = scan_trailing_spaces(raw, raw.len());
    assert(raw@.take(raw@.len() as int) =~= raw@);
    let line = copy_range(raw, 0, end);
    assert(line@ =~= trim_end(raw@));
    let a = scan_spaces(&line, 0);
    let t = copy_range(&line, a, line.len());
    assert(t@ == trim_start(trim_end(raw@)));
    let mut r = StepParts {
        tasks: Vec::new(),
        log_entries: Vec::new(),
        mentions: Vec::new(),
        next: i + 1,
        section,
    };
    assert(r@.items =~= Items::empty()) by {
        assert(views(r.tasks@) =~= Seq::empty());
        assert(views(r.log_entries@) =~= Seq::empty());
        assert(views(r.mentions@) =~= Seq::empty());
    }
    if starts_heading(&t) {
        r.section = section_of_heading(&t);
        return r;
    }
    match section {
        Section::Tasks => {
            match match_task_line(&t) {
                Some(parts) => {
                    let extras = collect_continuation(lines, i + 1);
                    let task = build_task(note_id, now, &parts, &extras);
                    r.tasks.push(task);
                    r.next = i + 1 + extras.len();
                    assert(views(r.tasks@) =~= seq![task@]);
                },
                None => {},
            }
        },
        Section::Log => {
            let b = scan_spaces(raw, 0);
            let start = copy_range(raw, b, raw.len());
            if starts_list_item(&start) {
                let extras = collect_continuation(lines, i + 1);
                let (entry, mentions) = parse_log_line(note_id, raw, i + 1, &extras);
                r.log_entries.push(entry);
                r.mentions = mentions;
                r.next = i + 1 + extras.len();
                assert(views(r.log_entries@) =~= seq![entry@]);
            }
        },
        Section::Other => {},
    }
    r
}

/// Parses a note. `now` becomes the time of creation and of the last update
/// of every task, and the closing time of every task that is done.
pub fn parse_note_at(note: Note, now: DateTime) -> (parsed: ParsedNote)
    ensures
        parsed@ == parsed_note(note@, now),
{
    let content = chars_of(note.content.as_str());
    let all_lines = split_lines(&content);
    let note_id = chars_of(note.id.0.as_str());
    let ghost ls = views(all_lines@);
    let ghost whole = scan(ls, 0, Section::Other, note_id@, now);
    let mut tasks: Vec<Task> = Vec::new();
    let mut log_entries: Vec<LogEntry> = Vec::new();
    let mut mentions: Vec<TaskMention> = Vec::new();
    let mut section = Section::Other;
    let mut i: usize = 0;
    proof {
        lemma_followed_by_empty(whole);
        assert(items_of(tasks@, log_entries@, mentions@) == Items::empty()) by {
            assert(views(tasks@) =~= Seq::empty());
            assert(views(log_entries@) =~= Seq::empty());
            assert(views(mentions@) =~= Seq::empty());
        }
    }
    while i < all_lines.len()
        invariant
            i <= all_lines.len(),
            ls == views(all_lines@),
            whole == scan(ls, 0, Section::Other, note_id@, now),
            items_of(tasks@, log_entries@, mentions@).followed_by(
                scan(ls, i as int, section, note_id@, now),
            ) == whole,
        decreases all_lines.len() - i,
    {
        let ghost found = items_of(tasks@, log_entries@, mentions@);
        let ghost tasks_before = tasks@;
        let ghost entries_before = log_entries@;
        let ghost mentions_before = mentions@;
        let mut here = parse_step(&all_lines, i, section, &note_id, now);
        let ghost here_view = here@;
        let ghost new_tasks = here.tasks@;
        let ghost new_entries = here.log_entries@;
        let ghost new_mentions = here.mentions@;
        tasks.append(&mut here.tasks);
        log_entries.append(&mut here.log_entries);
        mentions.append(&mut here.mentions);
        proof {
            lemma_views_add(tasks_before, new_tasks);
            lemma_views_add(entries_before, new_entries);
            lemma_views_add(mentions_before, new_mentions);
            assert(items_of(tasks@, log_entries@, mentions@) == found.followed_by(here_view.items));
            lemma_followed_by_associative(
                found,
                here_view.items,
                scan(ls, here_view.next, here_view.section, note_id@, now),
            );
        }
        i = here.next;
        section = here.section;
    }
    proof {
        lemma_followed_by_empty(items_of(tasks@, log_entries@, mentions@));
    }
    ParsedNote { note, tasks, log_entries, mentions }
}

pub proof fn lemma_followed_by_empty(items: Items)
    ensures
        Items::empty().followed_by(items) == items,
        items.followed_by(Items::empty()) == items,
{
    assert(Items::empty().followed_by(items).tasks =~= items.tasks);
    assert(Items::empty().followed_by(items).log_entries =~= items.log_entries);
    assert(Items::empty().followed_by(items).mentions =~= items.mentions);
    assert(items.followed_by(Items::empty()).tasks =~= items.tasks);
    assert(items.followed_by(Items::empty()).log_entries =~= items.log_entries);
    assert(items.followed_by(Items::empty()).mentions =~= items.mentions);
}

pub proof fn lemma_followed_by_associative(a: Items, b: Items, c: Items)
    ensures
        a.followed_by(b).followed_by(c) == a.followed_by(b.followed_by(c)),
{
    let l = a.followed_by(b).followed_by(c);
    let r = a.followed_by(b.followed_by(c));
    assert(l.tasks =~= r.tasks);
    assert(l.log_entries =~= r.log_entries);
    assert(l.mentions =~= r.mentions);
}

/// A parser of notes.
pub trait NoteParser: Send + Sync {
    /// Whether `parsed` is a reading of `note` that this parser may give.
    /// A parser that states nothing may give any reading.
    open spec fn parses(&self, note: NoteView, parsed: ParsedNoteView) -> bool {
        true
    }

    fn parse(&self, note: Note) -> (parsed: ParsedNote)
        ensures
            self.parses(note@, parsed@),
    ;
}

/// The parser of the Markdown format of this vault.
#[derive(Default)]
pub struct MarkdownParser;

impl MarkdownParser {
    pub fn new() -> (parser: MarkdownParser) {
        MarkdownParser
    }
}

impl NoteParser for MarkdownParser {
    /// The reading of the note at some time.
    open spec fn parses(&self, note: NoteView, parsed: ParsedNoteView) -> bool {
        exists|now: DateTime| parsed == parsed_note(note, now)
    }

    /// Parses the note at the present time.
    fn parse(&self, note: Note) -> (parsed: ParsedNote) {
        let now = now_utc();
        parse_note_at(note, now)
    }
}

} // verus!
