use jcode_tools::order;
use jcode_tools::table::StringTable;
use jcode_tools::text;

#[test]
fn white_space_is_that_of_unicode() {
    for n in 0..=0x10FFFFu32 {
        if let Some(c) = char::from_u32(n) {
            assert_eq!(text::is_white_space(c), c.is_whitespace(), "{n:x}");
        }
    }
}

#[test]
fn trimming_agrees_with_std() {
    for s in ["", " ", "a", "  a b \n", "\u{3000}x\u{a0}", "\t\ttext"] {
        assert_eq!(text::trimmed(s), s.trim());
        assert_eq!(text::trimmed_start(s), s.trim_start());
        assert_eq!(text::trimmed_end(s), s.trim_end());
    }
    assert_eq!(text::trimmed_end_char("https://x//", '/'), "https://x");
    assert_eq!(text::trimmed_end_char("///", '/'), "");
}

#[test]
fn splitting_and_joining_agree_with_std() {
    for s in ["", "a", "a|b", "|a||b|", "one  two\tthree ", " x"] {
        let pieces: Vec<String> = s.split('|').map(|p| p.to_string()).collect();
        assert_eq!(text::split_on(s, '|'), pieces);
        let words: Vec<String> = s.split_whitespace().map(|p| p.to_string()).collect();
        assert_eq!(text::word_list(s), words);
        assert_eq!(text::joined(&words, " "), words.join(" "));
    }
}

#[test]
fn searching_agrees_with_std() {
    assert_eq!(text::position_of("hello", "l"), Some(2));
    assert_eq!(text::position_of("äöü", "ü"), Some(2));
    assert_eq!(text::position_of("abc", ""), Some(0));
    assert_eq!(text::position_of("abc", "abcd"), None);
    assert!(text::is_in("ll", "hello"));
    assert!(!text::is_in("lll", "hello"));
    assert!(text::has_prefix("rtk ls", "rtk "));
    assert!(!text::has_prefix("rt", "rtk"));
    assert!(text::same("x", "x") && !text::same("x", "y") && !text::same("x", "xx"));
}

#[test]
fn numbers_are_written_in_decimal() {
    for n in [0u64, 7, 10, 99, 100, 12_345, u64::MAX] {
        assert_eq!(text::decimal_text(n), n.to_string());
    }
    for n in [0i64, -1, 42, -120, i64::MAX, i64::MIN] {
        assert_eq!(text::signed_decimal_text(n), n.to_string());
    }
}

#[test]
fn texts_are_ordered_as_std_orders_them() {
    let samples = ["", "a", "ab", "b", "B", "é", "z", "\u{10000}", "\u{ffff}"];
    for a in samples {
        for b in samples {
            assert_eq!(text::in_order(a, b), a <= b, "{a:?} {b:?}");
        }
    }
    let mut expected: Vec<String> = samples.iter().map(|s| s.to_string()).collect();
    let arranged = order::arrange_texts(expected.clone());
    expected.sort();
    assert_eq!(arranged, expected);
    assert_eq!(order::arrange_texts(arranged.clone()), arranged);
}

#[test]
fn a_table_keeps_one_value_per_key() {
    let mut table: StringTable<u32> = StringTable::new();
    assert!(!table.contains("a"));
    table.insert("a".to_string(), 1);
    table.insert("b".to_string(), 2);
    table.insert("a".to_string(), 3);
    assert_eq!(table.get("a"), Some(&3));
    assert_eq!(table.get("b"), Some(&2));
    assert_eq!(table.remove("a"), Some(3));
    assert_eq!(table.remove("a"), None);
    assert_eq!(table.get("b"), Some(&2));
}
