use std::collections::BTreeSet;

use floptle_editor::key_sets::{add_all, kept, listed, set_of};
use floptle_editor::lists::{is_among, place_of};
use floptle_editor::order::{sorted_places, Name, Rank};
use floptle_editor::paths::{extension, file_name, file_stem, join_path};
use floptle_editor::table::Table;
use floptle_editor::text::{
    before, contains_text, count, decimal_text, find_text, join_with_blank, lowered, parse_number,
    replace_char, strip_front, text_of, trimmed_text, white, words_of,
};

fn chars(s: &str) -> Vec<char> {
    s.chars().collect()
}

#[test]
fn text_is_trimmed_and_split() {
    assert_eq!(trimmed_text(" \t a b \u{3000}\n"), "a b");
    assert_eq!(trimmed_text(" a b ").as_str(), " a b ".trim());
    for c in ['\u{9}', '\u{85}', '\u{a0}', '\u{1680}', '\u{2003}', '\u{200b}', 'x', '\u{feff}'] {
        assert_eq!(white(c), c.is_whitespace(), "{c:?}");
    }
    assert_eq!(words_of(&chars("  a  bc\td ")), vec!["a", "bc", "d"]);
    assert_eq!(join_with_blank(&vec!["a".to_string(), "b".to_string()]), "a b");
    assert_eq!(replace_char(&chars("a_b_"), '_', ' '), "a b ");
    assert_eq!(text_of(&lowered(&chars("AbÉ"))), "abÉ");
    assert_eq!(strip_front("Model Model Cube", "Model "), "Cube");
}

#[test]
fn text_is_found() {
    assert!(contains_text(&chars("abcabd"), &chars("abd")));
    assert!(!contains_text(&chars("abcabd"), &chars("bcd")));
    assert!(contains_text(&chars("x"), &chars("")));
    assert_eq!(find_text(&chars("a--b--"), &chars("--")), 1);
    assert_eq!(find_text(&chars("ab"), &chars("--")), 2);
    assert_eq!(count(&chars("banana"), 'a'), 3);
    assert!(before(&chars("ab"), &chars("b")) && before(&chars("a"), &chars("ab")));
    assert!(!before(&chars("b"), &chars("ab")) && !before(&chars("a"), &chars("a")));
}

#[test]
fn numbers_are_written_and_read() {
    for n in [0u64, 7, 10, 999, u64::MAX] {
        assert_eq!(decimal_text(n), n.to_string());
        assert_eq!(parse_number(&chars(&n.to_string()), u64::MAX), Some(n));
    }
    assert_eq!(parse_number(&chars("+12"), 100), Some(12));
    assert_eq!(parse_number(&chars("101"), 100), None);
    for s in ["", "+", "-1", "1 ", "0x1", "99999999999999999999999"] {
        assert_eq!(parse_number(&chars(s), u64::MAX), None);
        assert!(s.parse::<u64>().is_err());
    }
}

#[test]
fn paths_have_parts() {
    assert_eq!(join_path("/p", "a.png"), "/p/a.png");
    assert_eq!(join_path("/p/", "a.png"), "/p/a.png");
    for p in ["a/b.tar.gz", "b", "a/", ".hidden", "a/..", "", "x.", "/", "a//c.d"] {
        let path = std::path::Path::new(p);
        let text = |s: &str| s.to_string();
        assert_eq!(file_name(p), path.file_name().and_then(|s| s.to_str()).map(text), "{p:?}");
        assert_eq!(file_stem(p), path.file_stem().and_then(|s| s.to_str()).map(text), "{p:?}");
        assert_eq!(extension(p), path.extension().and_then(|s| s.to_str()).map(text), "{p:?}");
    }
}

#[test]
fn lists_and_sets_of_numbers() {
    assert_eq!(place_of(&vec![4, 5, 4], 4), 0);
    assert_eq!(place_of(&vec![4, 5], 6), 2);
    assert!(is_among(&vec![4, 5], 5) && !is_among(&vec![], 5));
    let mut s: BTreeSet<u64> = set_of(&vec![3, 1, 3]);
    add_all(&mut s, &vec![2]);
    assert_eq!(listed(&s), vec![1, 2, 3]);
    assert_eq!(listed(&kept(&s, &vec![9, 3, 1])), vec![1, 3]);
}

#[test]
fn a_table_keeps_one_value_a_name() {
    let mut t: Table<u32> = Table::new();
    t.put("a", 1);
    t.put("b", 2);
    t.put("a", 3);
    assert_eq!((t.get("a"), t.get("b"), t.get("c")), (Some(&3), Some(&2), None));
    assert_eq!(t.take("a"), Some(3));
    assert_eq!((t.take("a"), t.get("b")), (None, Some(&2)));
    t.clear();
    assert_eq!(t.get("b"), None);
}

#[test]
fn things_are_put_in_order() {
    let r = |first: i64, second: i64| Rank { first, second, third: 0, fourth: 0 };
    assert_eq!(sorted_places(&vec![r(2, 0), r(1, 5), r(1, 4), r(2, 0)]), vec![2, 1, 0, 3]);
    let n = |t: &str| Name { text: t.to_string() };
    assert_eq!(sorted_places(&vec![n("b"), n("a"), n("ab")]), vec![1, 2, 0]);
}
