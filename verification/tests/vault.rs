use note_core::date::{Date, DateRange};
use note_core::vault::{date_of, names_markdown, note_from_parts, title_of, FileSystemVault};

fn day(year: i32, month: u32, day: u32) -> Date {
    Date { year, month, day }
}

#[test]
fn title_is_the_stem_of_the_file_name() {
    assert_eq!(FileSystemVault::derive_title("dir/2025-03-15.md"), "2025-03-15");
    assert_eq!(FileSystemVault::derive_title("notes.tar.gz"), "notes.tar");
    assert_eq!(FileSystemVault::derive_title("plain"), "plain");
    assert_eq!(FileSystemVault::derive_title("dir/.hidden"), ".hidden");
    assert_eq!(FileSystemVault::derive_title(""), "");
    assert_eq!(FileSystemVault::derive_title(".."), "..");
    assert_eq!(title_of(&Some("stem".to_string()), "a/stem.md"), "stem");
    assert_eq!(title_of(&None, "a/.."), "a/..");
}

#[test]
fn date_is_read_from_the_file_name() {
    assert_eq!(FileSystemVault::derive_date("dir/2025-03-15.md"), Some(day(2025, 3, 15)));
    assert_eq!(FileSystemVault::derive_date("25-03-15.md"), Some(day(25, 3, 15)));
    assert_eq!(FileSystemVault::derive_date("99-12-31.md"), Some(day(99, 12, 31)));
    assert_eq!(FileSystemVault::derive_date("+12025-03-15.md"), Some(day(12025, 3, 15)));
    assert_eq!(FileSystemVault::derive_date("2025-3-5.md"), Some(day(2025, 3, 5)));
    assert_eq!(FileSystemVault::derive_date("2025-02-30.md"), None);
    assert_eq!(FileSystemVault::derive_date("2025-13-01.md"), None);
    assert_eq!(FileSystemVault::derive_date("notes.md"), None);
    assert_eq!(FileSystemVault::derive_date("2025-03-15-plan.md"), None);
    assert_eq!(FileSystemVault::derive_date("2025-03-15/notes.md"), None);
    assert_eq!(FileSystemVault::derive_date(""), None);
    assert_eq!(date_of(&None), None);
    assert_eq!(date_of(&Some("2024-02-29".to_string())), Some(day(2024, 2, 29)));
    assert_eq!(date_of(&Some("2023-02-29".to_string())), None);
    assert_eq!(date_of(&Some("0001-01-01".to_string())), Some(day(1, 1, 1)));
}

#[test]
fn a_note_is_made_of_path_and_text() {
    let note = FileSystemVault::note_from_text("vault/2025-03-15.md", "text".to_string());
    assert_eq!(note.id.0, "vault/2025-03-15.md");
    assert_eq!(note.path, "vault/2025-03-15.md");
    assert_eq!(note.title, "2025-03-15");
    assert_eq!(note.date, Some(day(2025, 3, 15)));
    assert_eq!(note.content, "text");
    let note = note_from_parts("p", &None, "c".to_string());
    assert_eq!(note.id.0, "p");
    assert_eq!(note.title, "p");
    assert_eq!(note.date, None);
}

#[test]
fn the_root_of_a_vault() {
    let vault = FileSystemVault::new("/some/where".to_string());
    assert_eq!(vault.root_path(), "/some/where");
}

#[test]
fn dates_are_ordered_as_the_calendar_orders_them() {
    let dates = [
        day(-1, 12, 31),
        day(0, 1, 1),
        day(1999, 12, 31),
        day(2000, 1, 1),
        day(2000, 1, 2),
        day(2000, 2, 1),
        day(2001, 1, 1),
    ];
    for (i, a) in dates.iter().enumerate() {
        for (j, b) in dates.iter().enumerate() {
            assert_eq!(a.is_not_after(b), i <= j, "{:?} {:?}", a, b);
            assert_eq!(a.sort_key() <= b.sort_key(), i <= j);
            assert_eq!(a <= b, i <= j);
        }
    }
    assert_eq!(day(0, 0, 0).sort_key(), 0x8000_0000i128 << 64);
    assert_eq!(day(2025, 3, 15).sort_key(), ((0x8000_0000i128 + 2025) << 64) + (3 << 32) + 15);
    assert_eq!(day(i32::MIN, 0, 0).sort_key(), 0);
    let range = DateRange { start: day(2025, 3, 10), end: day(2025, 3, 16) };
    assert!(range.includes(&day(2025, 3, 10)));
    assert!(range.includes(&day(2025, 3, 16)));
    assert!(range.includes(&day(2025, 3, 13)));
    assert!(!range.includes(&day(2025, 3, 9)));
    assert!(!range.includes(&day(2025, 3, 17)));
    assert!(!range.includes(&day(2024, 3, 13)));
}

#[test]
fn notes_are_the_files_that_end_in_md() {
    assert!(FileSystemVault::is_note_path("a/b/note.md"));
    assert!(FileSystemVault::is_note_path("note.MD"));
    assert!(FileSystemVault::is_note_path("note.tar.Md"));
    assert!(!FileSystemVault::is_note_path("note.markdown"));
    assert!(!FileSystemVault::is_note_path("note.txt"));
    assert!(!FileSystemVault::is_note_path("note"));
    assert!(!FileSystemVault::is_note_path(".md"));
    assert!(!FileSystemVault::is_note_path("dir.md/note"));
    assert!(!FileSystemVault::is_note_path(""));
    assert!(names_markdown(&Some("mD".to_string())));
    assert!(!names_markdown(&Some("md ".to_string())));
    assert!(!names_markdown(&Some("".to_string())));
    assert!(!names_markdown(&None));
}
