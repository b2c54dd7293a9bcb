use opendal_ext::number::{decimal_text, parse_unsigned, NumberFault};
use opendal_ext::table::{compare, same, Order, Table};
use opendal_ext::text::{
    ends_with, skip, split_text, starts_with, trim, trim_end, trim_start, CharClass,
};

#[test]
fn whitespace_is_that_of_char() {
    for u in 0..=0x10ffffu32 {
        if let Some(c) = char::from_u32(u) {
            assert_eq!(CharClass::Whitespace.contains(c), c.is_whitespace());
        }
    }
}

#[test]
fn trimming_is_that_of_str() {
    for s in ["", " ", "  a b ", "\u{2003}10kiB\t", "x", "\n\r", "\u{3000}\u{e9}\u{3000}"] {
        assert_eq!(trim(s, CharClass::Whitespace), s.trim());
    }
    for s in ["", "/", "//", "/a/b/", "//a//", "a", "/\u{e9}/"] {
        assert_eq!(trim(s, CharClass::Slash), s.trim_matches('/'));
        assert_eq!(trim_start(s, CharClass::Slash), s.trim_start_matches('/'));
        assert_eq!(trim_end(s, CharClass::Slash), s.trim_end_matches('/'));
    }
}

#[test]
fn splitting_is_that_of_str() {
    for s in ["", ",", "a", "a,b", ",a,", "a,,b,c", "\u{e9},\u{e8}"] {
        let expected: Vec<String> = s.split(',').map(|p| p.to_string()).collect();
        assert_eq!(split_text(s, ','), expected);
    }
}

#[test]
fn prefixes_and_suffixes() {
    assert!(starts_with("/repos/test", "/repos/"));
    assert!(!starts_with("/repos", "/repos/"));
    assert!(starts_with("abc", ""));
    assert!(!starts_with("abc", "b"));
    assert!(ends_with("a/", '/'));
    assert!(!ends_with("", '/'));
    assert!(!ends_with("/a", '/'));
    assert_eq!(skip("\u{e9}bc", 1), "bc");
}

#[test]
fn numbers_are_written_and_read_as_by_the_standard_library() {
    for n in [0u64, 1, 9, 10, 99, 100, 1024, u32::MAX as u64, u64::MAX] {
        assert_eq!(decimal_text(n), n.to_string());
        assert_eq!(parse_unsigned(&decimal_text(n), u64::MAX), Ok(n));
    }
    for s in [
        "", "+", "-", "-1", "+7", "007", " 1", "1 ", "1_0", "4294967295", "4294967296", "99999999999x",
        "9x", "x9", "++1", "\u{0661}",
    ] {
        let expected = s.parse::<u32>().map(|n| n as u64).map_err(|e| e.to_string());
        let actual = parse_unsigned(s, u32::MAX as u64).map_err(|fault| match fault {
            NumberFault::Empty => "cannot parse integer from empty string".to_string(),
            NumberFault::InvalidDigit => "invalid digit found in string".to_string(),
            NumberFault::TooLarge => "number too large to fit in target type".to_string(),
        });
        assert_eq!(actual, expected, "{s:?}");
    }
}

#[test]
fn texts_are_ordered_as_by_the_standard_library() {
    let texts = ["", "/", "/a", "/a/b", "/ab", "/b", "a", "\u{e9}", "\u{ffff}", "\u{10000}", "Z"];
    for a in texts {
        for b in texts {
            let expected = if a < b {
                Order::Before
            } else if a == b {
                Order::Same
            } else {
                Order::After
            };
            assert_eq!(compare(a, b), expected);
            assert_eq!(same(a, b), a == b);
        }
    }
}

#[test]
fn a_table_keeps_its_keys_in_order() {
    let mut table: Table<u64> = Table::new();
    for (i, key) in ["b", "a", "c", "ab"].into_iter().enumerate() {
        assert_eq!(table.insert(key.to_string(), i as u64), None);
    }
    assert_eq!(table.insert("a".to_string(), 7), Some(1));
    assert_eq!(table.len(), 4);
    assert_eq!(table.key_texts(), vec!["a", "ab", "b", "c"]);
    assert_eq!(table.get("a"), Some(&7));
    assert_eq!(table.get("x"), None);
    assert_eq!(table.key_at(2), "b");
    assert_eq!(*table.value_at(2), 0);
    assert_eq!(table.remove("ab"), Some(3));
    assert_eq!(table.remove("ab"), None);
    assert_eq!(table.key_texts(), vec!["a", "b", "c"]);
}

#[test]
fn a_table_of_texts_can_be_copied_and_listed() {
    let mut table: Table<String> = Table::new();
    table.insert("root".to_string(), "/tmp".to_string());
    table.insert("key".to_string(), "v".to_string());
    let copy = table.clone();
    assert_eq!(
        copy.pairs(),
        vec![
            ("key".to_string(), "v".to_string()),
            ("root".to_string(), "/tmp".to_string())
        ]
    );
}
