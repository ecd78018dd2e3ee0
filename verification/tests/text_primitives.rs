use insur_rag::digest::calculate_hash;
use insur_rag::text::{contains, join, leading_chars, replace, split, str_lt, trim, trim_trailing};

#[test]
fn contains_finds_substrings_of_ideographs() {
    assert!(contains("我想問醫療險的保費", "醫療"));
    assert!(!contains("我想問醫療險的保費", "癌症"));
    assert!(contains("anything", ""));
    assert!(!contains("", "x"));
}

#[test]
fn trim_removes_unicode_white_space_on_both_sides() {
    assert_eq!(trim("  \t保單 內容\u{3000}\n"), "保單 內容");
    assert_eq!(trim(" \n "), "");
    assert_eq!(trim("x"), "x");
}

#[test]
fn trim_treats_ascii_controls_as_std_does() {
    assert_eq!(trim("\u{09}\u{0A}\u{0B}\u{0C}\u{0D} a \u{0D}\u{0C}\u{0B}"), "a");
    assert_eq!(trim("\u{1C}a\u{1F}"), "\u{1C}a\u{1F}");
    assert_eq!(trim("\u{08}a\u{0E}"), "\u{08}a\u{0E}");
    assert_eq!(trim("\u{7F}a\u{00}"), "\u{7F}a\u{00}");
    for code in 0u32..128 {
        let c = char::from_u32(code).unwrap();
        let text = format!("{}x{}", c, c);
        assert_eq!(trim(&text), text.trim(), "U+{:04X}", code);
    }
}

#[test]
fn trim_trailing_removes_only_the_trailing_run() {
    assert_eq!(trim_trailing("http://host/v1///", '/'), "http://host/v1");
    assert_eq!(trim_trailing("/a/b", '/'), "/a/b");
    assert_eq!(trim_trailing("///", '/'), "");
}

#[test]
fn split_keeps_empty_pieces() {
    let seps = vec!['、', ','];
    assert_eq!(split("a、b,,c", &seps), vec!["a", "b", "", "c"]);
    assert_eq!(split("", &seps), vec![""]);
    assert_eq!(split(",", &seps), vec!["", ""]);
}

#[test]
fn replace_swaps_every_occurrence() {
    assert_eq!(replace("a\nb\n\nc", '\n', " "), "a b  c");
    assert_eq!(replace("\n", '\n', " "), " ");
    assert_eq!(replace("abc", '\n', " "), "abc");
}

#[test]
fn join_puts_separator_between_items() {
    let items = vec!["a".to_string(), "b".to_string(), "c".to_string()];
    assert_eq!(join(&items, ", "), "a, b, c");
    assert_eq!(join(&Vec::new(), ", "), "");
    assert_eq!(join(&vec!["x".to_string()], ", "), "x");
}

#[test]
fn leading_chars_counts_characters_not_bytes() {
    assert_eq!(leading_chars("終身壽險", 2), "終身");
    assert_eq!(leading_chars("ab", 200), "ab");
    assert_eq!(leading_chars("ab", 0), "");
}

#[test]
fn str_lt_orders_like_std() {
    let names = ["b.json", "a.json", "甲.json", "A.json", "a", ""];
    for x in names.iter() {
        for y in names.iter() {
            assert_eq!(str_lt(x, y), x < y, "{:?} < {:?}", x, y);
        }
    }
}

#[test]
fn calculate_hash_is_hex_sha256() {
    assert_eq!(
        calculate_hash("abc"),
        "ba7816bf8f01cfea414140de5dae2223b00361a396177a9cb410ff61f20015ad"
    );
    assert_eq!(
        calculate_hash(""),
        "e3b0c44298fc1c149afbf4c8996fb92427ae41e4649b934ca495991b7852b855"
    );
}
