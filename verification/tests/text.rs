use note_core::order::insert_sorted;
use note_core::summary::{count_tags, most_frequent};
use note_core::text::{
    ascii_lower_char, char_is_digit, char_is_id_char, copy_range, digit_of, duplicate_all,
    matches_at, push_chars, push_decimal, same_chars, scan_id_chars, scan_spaces,
    scan_trailing_spaces, strings_from,
};

fn chars(s: &str) -> Vec<char> {
    s.chars().collect()
}

fn text(v: &[char]) -> String {
    v.iter().collect()
}

#[test]
fn character_classes() {
    for c in ['0', '5', '9'] {
        assert!(char_is_digit(c) && char_is_id_char(c));
    }
    for c in ['a', 'z', 'A', 'Z', '_', '-'] {
        assert!(!char_is_digit(c) && char_is_id_char(c));
    }
    for c in [' ', '/', ':', '@', '[', ']', '`', '{', '\u{e9}', '\u{661}'] {
        assert!(!char_is_digit(c) && !char_is_id_char(c), "{:?}", c);
    }
    assert_eq!(ascii_lower_char('A'), 'a');
    assert_eq!(ascii_lower_char('Z'), 'z');
    assert_eq!(ascii_lower_char('q'), 'q');
    assert_eq!(ascii_lower_char('['), '[');
    assert_eq!(ascii_lower_char('@'), '@');
    assert_eq!(ascii_lower_char('\u{c9}'), '\u{c9}');
}

#[test]
fn scanning() {
    let s = chars("  \t ab-1_ \u{2003} ");
    assert_eq!(scan_spaces(&s, 0), 4);
    assert_eq!(scan_spaces(&s, 4), 4);
    assert_eq!(scan_spaces(&s, 9), 12);
    assert_eq!(scan_spaces(&s, 12), 12);
    assert_eq!(scan_id_chars(&s, 4), 9);
    assert_eq!(scan_id_chars(&s, 0), 0);
    assert_eq!(scan_trailing_spaces(&s, 12), 9);
    assert_eq!(scan_trailing_spaces(&s, 9), 9);
    assert_eq!(scan_trailing_spaces(&s, 4), 0);
    assert_eq!(scan_trailing_spaces(&s, 0), 0);
    assert_eq!(text(&copy_range(&s, 4, 9)), "ab-1_");
    assert_eq!(text(&copy_range(&s, 3, 3)), "");
}

#[test]
fn copying_and_comparing() {
    assert!(same_chars(&chars("abc"), &chars("abc")));
    assert!(!same_chars(&chars("abc"), &chars("abd")));
    assert!(!same_chars(&chars("abc"), &chars("ab")));
    assert!(same_chars(&chars(""), &chars("")));
    assert!(matches_at(&chars("hello"), &chars("ll"), 2));
    assert!(!matches_at(&chars("hello"), &chars("ll"), 1));
    assert!(matches_at(&chars("hello"), &chars(""), 5));
    let mut out = chars("ab");
    push_chars(&mut out, &chars("cd"));
    assert_eq!(text(&out), "abcd");
    let copies = duplicate_all(&vec!["x".to_string(), "y".to_string()]);
    assert_eq!(copies, vec!["x".to_string(), "y".to_string()]);
    assert_eq!(strings_from(&vec![chars("a b"), chars("")]), vec!["a b".to_string(), String::new()]);
}

#[test]
fn decimal_digits() {
    for n in [0usize, 7, 9, 10, 11, 99, 100, 101, 1234567890, usize::MAX] {
        let mut out = chars("n=");
        push_decimal(&mut out, n);
        assert_eq!(text(&out), format!("n={}", n));
    }
    for d in 0..10usize {
        assert_eq!(digit_of(d), char::from_digit(d as u32, 10).unwrap());
    }
}

#[test]
fn sorting_is_stable() {
    let mut out: Vec<(i128, String)> = Vec::new();
    for (key, item) in [(3, "a"), (1, "b"), (3, "c"), (-2, "d"), (1, "e"), (3, "f")] {
        insert_sorted(&mut out, key, item.to_string());
    }
    let got: Vec<(i128, &str)> = out.iter().map(|(k, v)| (*k, v.as_str())).collect();
    assert_eq!(got, vec![(-2, "d"), (1, "b"), (1, "e"), (3, "a"), (3, "c"), (3, "f")]);
}

#[test]
fn tags_are_counted_in_the_order_of_their_first_appearance() {
    let tags: Vec<String> =
        ["b", "a", "b", "c", "a", "b"].iter().map(|s| s.to_string()).collect();
    let refs: Vec<&String> = tags.iter().collect();
    let counts = count_tags(&refs);
    let got: Vec<(&str, usize)> = counts.iter().map(|c| (c.tag.as_str(), c.count)).collect();
    assert_eq!(got, vec![("b", 3), ("a", 2), ("c", 1)]);
    assert!(count_tags(&Vec::new()).is_empty());
    assert_eq!(
        most_frequent(&counts),
        vec![("b".to_string(), 3), ("a".to_string(), 2), ("c".to_string(), 1)]
    );

    let many: Vec<String> = (0..15).map(|i| format!("t{}", i % 12)).collect();
    let refs: Vec<&String> = many.iter().collect();
    let top = most_frequent(&count_tags(&refs));
    assert_eq!(top.len(), 10);
    assert_eq!(top[0], ("t0".to_string(), 2));
    assert_eq!(top[1], ("t1".to_string(), 2));
    assert_eq!(top[2], ("t2".to_string(), 2));
    assert_eq!(top[3], ("t3".to_string(), 1));
    assert_eq!(top[9], ("t9".to_string(), 1));
}
