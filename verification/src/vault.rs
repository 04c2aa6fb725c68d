//! The vault: where notes come from. Reading and writing files is left to
//! the implementations of `Vault`; what a note is, given its path and its
//! text, is decided here. Every request to a vault goes through a
//! `WatchedVault`, which keeps the trail of the requests and their answers
//! for contracts to speak of.

use crate::date::{first_date, parse_date, parsed_date, Date};
use crate::model::{Note, NoteId, NoteView};
use crate::text::{
    chars_of, equal_ignoring_ascii_case, optional_text, same_ignoring_ascii_case, views,
};
use vstd::prelude::*;

verus! {

/// What went wrong in a vault.
#[derive(Debug)]
pub struct VaultError {
    pub message: String,
}

/// A source of notes.
pub trait Vault {
    /// The path of every note of the vault.
    fn list_note_paths(&self) -> Result<Vec<String>, VaultError>;

    /// The note at `path`.
    fn read_note(&self, path: &str) -> Result<Note, VaultError>;

    /// The directory that holds the vault.
    fn root_path(&self) -> String;

    /// Whether a file stands at `path`.
    fn has_file(&self, path: &str) -> bool;

    /// Writes `content` to the file at `path`, which may be there.
    fn write_file(&self, path: &str, content: &str) -> Result<(), VaultError>;

    /// Makes the file at `path` with the text `content`, and the
    /// directories that lead to it.
    fn create_file(&self, path: &str, content: &str) -> Result<(), VaultError>;
}

/// What was asked of a vault, and what it answered.
pub enum VaultEvent {
    /// The paths of the notes were asked for; the answer, where there was one.
    Listed(Option<Seq<Seq<char>>>),
    /// The note at a path was asked for; the note, where it was read.
    Read(Seq<char>, Option<NoteView>),
    /// Whether a file stands at a path was asked; the answer.
    Asked(Seq<char>, bool),
    /// A text was written to the file at a path; whether that went well.
    Wrote(Seq<char>, Seq<char>, bool),
    /// A file was made at a path with a text; whether that went well.
    Made(Seq<char>, Seq<char>, bool),
    /// The path of a file in the root of the vault was asked for: the root
    /// that the vault gave, the name of the file, and the path that joining
    /// the two gave.
    Placed(Seq<char>, Seq<char>, Seq<char>),
}

/// The event that the paths of the notes were asked for, with the answer.
pub open spec fn listed(r: Result<Vec<String>, VaultError>) -> VaultEvent {
    VaultEvent::Listed(
        match r {
            Ok(paths) => Some(views(paths@)),
            Err(_) => None,
        },
    )
}

/// The event that the note at `path` was asked for, with the answer.
pub open spec fn read(path: Seq<char>, r: Result<Note, VaultError>) -> VaultEvent {
    VaultEvent::Read(
        path,
        match r {
            Ok(note) => Some(note@),
            Err(_) => None,
        },
    )
}

/// `after` is `before` with more events behind it.
pub open spec fn extends(before: Seq<VaultEvent>, after: Seq<VaultEvent>) -> bool {
    before.len() <= after.len() && after.take(before.len() as int) == before
}

/// The events of `after` behind those of `before`.
pub open spec fn since(before: Seq<VaultEvent>, after: Seq<VaultEvent>) -> Seq<VaultEvent> {
    after.skip(before.len() as int)
}

/// Nothing was asked since `trail`.
pub proof fn lemma_trail_same(trail: Seq<VaultEvent>)
    ensures
        extends(trail, trail),
        since(trail, trail) == Seq::<VaultEvent>::empty(),
{
    assert(trail.take(trail.len() as int) =~= trail);
    assert(since(trail, trail) =~= Seq::<VaultEvent>::empty());
}

/// One more request stands behind the requests made since `start`.
pub proof fn lemma_trail_push(start: Seq<VaultEvent>, trail: Seq<VaultEvent>, event: VaultEvent)
    requires
        extends(start, trail),
    ensures
        extends(start, trail.push(event)),
        since(start, trail.push(event)) == since(start, trail).push(event),
{
    assert(trail.push(event).take(start.len() as int) =~= trail.take(start.len() as int));
    assert(since(start, trail.push(event)) =~= since(start, trail).push(event));
}

/// The requests made since `start` are those made up to `mid` and those
/// made since.
pub proof fn lemma_trail_split(
    start: Seq<VaultEvent>,
    mid: Seq<VaultEvent>,
    trail: Seq<VaultEvent>,
)
    requires
        extends(start, mid),
        extends(mid, trail),
    ensures
        extends(start, trail),
        since(start, trail) == since(start, mid) + since(mid, trail),
{
    assert(trail.take(start.len() as int) =~= mid.take(start.len() as int)) by {
        assert(trail.take(mid.len() as int) == mid);
        assert forall|k: int| 0 <= k < start.len() implies trail[k] == mid[k] by {
            assert(trail.take(mid.len() as int)[k] == mid[k]);
        }
    }
    assert(since(start, trail) =~= since(start, mid) + since(mid, trail)) by {
        assert forall|k: int| 0 <= k < mid.len() - start.len() implies since(start, trail)[k]
            == since(start, mid)[k] by {
            assert(trail.take(mid.len() as int)[start.len() + k] == mid[start.len() + k]);
        }
    }
}

/// A vault with the trail of what was asked of it. Every request goes
/// through the trail, so a contract can say what a function asked of the
/// vault, in which order, and what it did with each answer. The trail is
/// ghost: it is not there when the program runs.
pub struct WatchedVault<V: Vault> {
    vault: V,
    trail: Ghost<Seq<VaultEvent>>,
}

impl<V: Vault> WatchedVault<V> {
    /// What was asked of the vault so far, the first request first.
    pub closed spec fn trail(&self) -> Seq<VaultEvent> {
        self.trail@
    }

    /// The vault that is asked.
    pub closed spec fn inner(&self) -> V {
        self.vault
    }

    /// The vault with nothing asked of it yet.
    pub fn new(vault: V) -> (watched: Self)
        ensures
            watched.inner() == vault,
            watched.trail() == Seq::<VaultEvent>::empty(),
    {
        WatchedVault { vault, trail: Ghost(Seq::empty()) }
    }

    /// The path of the file `name` in the root of the vault: the root is
    /// asked of the vault, and the name is joined to it as the platform
    /// joins paths.
    pub fn place(&mut self, name: &str) -> (path: String)
        ensures
            final(self).inner() == old(self).inner(),
            final(self).trail().len() == old(self).trail().len() + 1,
            final(self).trail() == old(self).trail().push(final(self).trail().last()),
            match final(self).trail().last() {
                VaultEvent::Placed(_, asked, given) => asked == name@ && given == path@,
                _ => false,
            },
    {
        let root = self.vault.root_path();
        let path = path_join(root.as_str(), name);
        self.trail = Ghost(self.trail@.push(VaultEvent::Placed(root@, name@, path@)));
        path
    }

    /// Asks for the paths of the notes.
    pub fn list_note_paths(&mut self) -> (r: Result<Vec<String>, VaultError>)
        ensures
            final(self).inner() == old(self).inner(),
            final(self).trail() == old(self).trail().push(listed(r)),
    {
        let r = self.vault.list_note_paths();
        let ghost event = listed(r);
        self.trail = Ghost(self.trail@.push(event));
        r
    }

    /// Asks for the note at `path`.
    pub fn read_note(&mut self, path: &str) -> (r: Result<Note, VaultError>)
        ensures
            final(self).inner() == old(self).inner(),
            final(self).trail() == old(self).trail().push(read(path@, r)),
    {
        let r = self.vault.read_note(path);
        let ghost event = read(path@, r);
        self.trail = Ghost(self.trail@.push(event));
        r
    }

    /// Asks whether a file stands at `path`.
    pub fn has_file(&mut self, path: &str) -> (there: bool)
        ensures
            final(self).inner() == old(self).inner(),
            final(self).trail() == old(self).trail().push(VaultEvent::Asked(path@, there)),
    {
        let there = self.vault.has_file(path);
        self.trail = Ghost(self.trail@.push(VaultEvent::Asked(path@, there)));
        there
    }

    /// Writes `content` to the file at `path`.
    pub fn write_file(&mut self, path: &str, content: &str) -> (r: Result<(), VaultError>)
        ensures
            final(self).inner() == old(self).inner(),
            final(self).trail() == old(self).trail().push(
                VaultEvent::Wrote(path@, content@, r is Ok),
            ),
    {
        let r = self.vault.write_file(path, content);
        self.trail = Ghost(self.trail@.push(VaultEvent::Wrote(path@, content@, r is Ok)));
        r
    }

    /// Makes the file at `path` with the text `content`.
    pub fn create_file(&mut self, path: &str, content: &str) -> (r: Result<(), VaultError>)
        ensures
            final(self).inner() == old(self).inner(),
            final(self).trail() == old(self).trail().push(
                VaultEvent::Made(path@, content@, r is Ok),
            ),
    {
        let r = self.vault.create_file(path, content);
        self.trail = Ghost(self.trail@.push(VaultEvent::Made(path@, content@, r is Ok)));
        r
    }
}

/// The pattern of a date with a year of four digits.
pub open spec fn full_year_pattern() -> Seq<char> {
    "%Y-%m-%d"@
}

/// The pattern of a date with a year of two digits.
pub open spec fn short_year_pattern() -> Seq<char> {
    "%y-%m-%d"@
}

/// The title of the note at `path`: the stem of its file name, or the whole
/// path where it has none.
pub open spec fn title_from(stem: Option<Seq<char>>, path: Seq<char>) -> Seq<char> {
    match stem {
        Some(stem) => stem,
        None => path,
    }
}

/// The date that the stem of a file name states, with a year of four digits
/// or of two.
pub open spec fn date_from(stem: Option<Seq<char>>) -> Option<Date> {
    match stem {
        None => None,
        Some(stem) => match parsed_date(stem, full_year_pattern()) {
            Some(date) => Some(date),
            None => parsed_date(stem, short_year_pattern()),
        },
    }
}

/// The note at `path` with the text `content`, where `stem` is the stem of
/// the file name.
pub open spec fn note_from(path: Seq<char>, stem: Option<Seq<char>>, content: Seq<char>) -> NoteView {
    NoteView {
        id: path,
        path,
        title: title_from(stem, path),
        date: date_from(stem),
        content,
    }
}

/// `std::path::Path::file_stem` of `path`: the file name without its
/// extension. What counts as a file name is the platform's affair, so
/// nothing is stated of the result.
#[verifier::external_body]
pub(crate) fn path_stem(path: &str) -> (stem: Option<String>) {
    std::path::Path::new(path).file_stem().and_then(|s| s.to_str()).map(|s| s.to_string())
}

/// `std::path::Path::extension` of `path`: what follows the last dot of the
/// file name. What counts as a file name is the platform's affair, so
/// nothing is stated of the result.
#[verifier::external_body]
pub(crate) fn path_extension(path: &str) -> (extension: Option<String>) {
    std::path::Path::new(path).extension().and_then(|s| s.to_str()).map(|s| s.to_string())
}

/// `std::path::Path::join`: `name` within the directory `root`. The
/// separator is the platform's, so nothing is stated of the result.
#[verifier::external_body]
pub(crate) fn path_join(root: &str, name: &str) -> (path: String) {
    std::path::Path::new(root).join(name).to_string_lossy().into_owned()
}

/// The extension of a Markdown file: `md`, in any case of letters.
pub open spec fn is_markdown_extension(extension: Option<Seq<char>>) -> bool {
    extension is Some && same_ignoring_ascii_case(extension->0, "md"@)
}

/// Whether a file with this extension is a note.
pub fn names_markdown(extension: &Option<String>) -> (r: bool)
    ensures
        r == is_markdown_extension(optional_text(*extension)),
{
    match extension {
        Some(text) => equal_ignoring_ascii_case(&chars_of(text.as_str()), &chars_of("md")),
        None => false,
    }
}

/// The title of a note, from the stem of its file name.
pub fn title_of(stem: &Option<String>, path: &str) -> (title: String)
    ensures
        title@ == title_from(optional_text(*stem), path@),
{
    match stem {
        Some(stem) => stem.clone(),
        None => path.to_owned(),
    }
}

/// The date of a note, from the stem of its file name.
pub fn date_of(stem: &Option<String>) -> (date: Option<Date>)
    ensures
        date == date_from(optional_text(*stem)),
{
    match stem {
        None => None,
        Some(stem) => {
            let full = parse_date(stem.as_str(), "%Y-%m-%d");
            let short = match full {
                Some(_) => None,
                None => parse_date(stem.as_str(), "%y-%m-%d"),
            };
            first_date(full, short)
        },
    }
}

/// The note at `path` with the text `content`.
pub fn note_from_parts(path: &str, stem: &Option<String>, content: String) -> (note: Note)
    ensures
        note@ == note_from(path@, optional_text(*stem), content@),
{
    Note {
        id: NoteId(path.to_owned()),
        path: path.to_owned(),
        title: title_of(stem, path),
        date: date_of(stem),
        content,
    }
}

/// A vault in a directory of the file system.
#[derive(Debug)]
pub struct FileSystemVault {
    root: String,
}

impl FileSystemVault {
    /// The vault in the directory `root`.
    pub fn new(root: String) -> (vault: FileSystemVault)
        ensures
            vault.root_text() == root@,
    {
        FileSystemVault { root }
    }

    /// The directory of the vault.
    pub closed spec fn root_text(&self) -> Seq<char> {
        self.root@
    }

    /// The directory of the vault.
    pub fn root_path(&self) -> (root: &str)
        ensures
            root@ == self.root_text(),
    {
        self.root.as_str()
    }

    /// Whether the file at `path` is a note: its name ends in `.md`. The
    /// extension is the one that the platform's rules for paths give, so
    /// nothing is stated here; `names_markdown` says which extensions are
    /// those of notes.
    pub fn is_note_path(path: &str) -> (r: bool) {
        let extension = path_extension(path);
        names_markdown(&extension)
    }

    /// The title of the note at `path`: the stem of its file name, or the
    /// path where it has none. The stem is the one that the platform's
    /// rules for paths give, so nothing is stated here; `title_of` says
    /// what the title is for each stem.
    pub fn derive_title(path: &str) -> (title: String) {
        let stem = path_stem(path);
        title_of(&stem, path)
    }

    /// The date that the file name at `path` states: the date of its stem,
    /// which is the one that the platform's rules for paths give. `date_of`
    /// says what the date is for each stem.
    pub fn derive_date(path: &str) -> (date: Option<Date>)
        ensures
            exists|stem: Option<Seq<char>>| date == date_from(stem),
    {
        let stem = path_stem(path);
        let date = date_of(&stem);
        assert(date == date_from(optional_text(stem)));
        date
    }

    /// The note at `path`, whose file holds `content`: its identifier and
    /// its path are `path`, its content is `content`, and its title and
    /// date are those of the stem of the file name, whichever the platform
    /// gives.
    pub fn note_from_text(path: &str, content: String) -> (note: Note)
        ensures
            note@.id == path@,
            note@.path == path@,
            note@.content == content@,
            exists|stem: Option<Seq<char>>| note@ == note_from(path@, stem, content@),
    {
        let stem = path_stem(path);
        let note = note_from_parts(path, &stem, content);
        assert(note@ == note_from(path@, optional_text(stem), content@));
        note
    }
}

} // verus!
