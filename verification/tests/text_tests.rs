use aw_manager::names::NameMap;
use aw_manager::text::{
    chars_of, contains_text, decimal_text, is_whitespace, parse_u32, same_text, split_first_field,
    split_lines, starts_with, text_less, trim_start_text, trim_text,
};

#[test]
fn whitespace_agrees_with_unicode() {
    for n in 0..=0x10ffffu32 {
        if let Some(c) = char::from_u32(n) {
            assert_eq!(is_whitespace(c), c.is_whitespace(), "{:x}", n);
        }
    }
}

#[test]
fn fields_are_split_at_white_space() {
    assert_eq!(split_first_field("  12 1 cmd arg"), Some(("12", " 1 cmd arg")));
    assert_eq!(split_first_field("\u{3000}12\t1"), Some(("12", "\t1")));
    assert_eq!(split_first_field("12"), None);
    assert_eq!(split_first_field(""), None);
    assert_eq!(split_first_field("   "), None);
    assert_eq!(split_first_field("12 "), Some(("12", " ")));
    assert_eq!(split_first_field("é ü"), Some(("é", " ü")));
}

#[test]
fn trimming_agrees_with_std() {
    for s in ["", " ", " a", "a ", " a b ", "\u{a0}x\u{2003}", "\n\tq\r\n", "ü ß"] {
        assert_eq!(trim_start_text(s), s.trim_start());
        assert_eq!(trim_text(s), s.trim());
    }
}

#[test]
fn lines_agree_with_std() {
    for s in [
        "", "\n", "a", "a\n", "a\nb", "a\r\nb\r\n", "a\rb", "a\r", "\r\n", "\n\n", "a\n\nb", "x\r\r\n",
        "ü\nß",
    ] {
        let expected: Vec<String> = s.lines().map(|l| l.to_string()).collect();
        assert_eq!(split_lines(s), expected, "{:?}", s);
    }
}

#[test]
fn numbers_agree_with_std() {
    for s in [
        "", "0", "7", "+7", "+", "-", "-1", "++1", "007", "4294967295", "4294967296", "99999999999",
        "12a", " 1", "1 ", "\u{663}", "00000000000000000000000000000012", "429496729500000000000000",
    ] {
        assert_eq!(parse_u32(s), s.parse::<u32>().ok(), "{:?}", s);
    }
}

#[test]
fn decimal_reads_back() {
    for n in [0u32, 5, 9, 10, 99, 100, 5600, 65535, 4294967295] {
        assert_eq!(decimal_text(n), n.to_string());
        assert_eq!(parse_u32(decimal_text(n).as_str()), Some(n));
    }
}

#[test]
fn order_and_equality_agree_with_std() {
    let all = ["", "a", "aa", "ab", "b", "aw-notify", "aw-", "é", "z", "\u{10000}", "\u{ffff}", "Z"];
    for a in all {
        for b in all {
            assert_eq!(text_less(a, b), a < b, "{:?} {:?}", a, b);
            assert_eq!(same_text(a, b), a == b);
            assert_eq!(starts_with(a, b), a.starts_with(b));
            assert_eq!(contains_text(a, b), a.contains(b));
        }
    }
}

#[test]
fn occurrences_are_found() {
    let complaint = "Error: No such option: --output-only (see --help)";
    assert!(contains_text(complaint, "No such option: --output-only"));
    assert!(!contains_text("No such option: --output", "No such option: --output-only"));
    assert!(contains_text("aab", "ab"));
}

#[test]
fn characters_are_kept() {
    assert_eq!(chars_of("aé\u{10000}"), vec!['a', 'é', '\u{10000}']);
}

#[test]
fn map_keeps_names_in_order() {
    let mut m: NameMap<u32> = NameMap::new();
    assert_eq!(m.len(), 0);
    assert_eq!(m.get("x"), None);
    m.insert("b", 2);
    m.insert("a", 1);
    m.insert("c", 3);
    m.insert("b", 20);
    assert_eq!(m.keys(), vec!["a".to_string(), "b".to_string(), "c".to_string()]);
    assert_eq!(m.get("b"), Some(&20));
    assert!(m.contains_key("c"));
    assert_eq!(m.name_at(2), "c");
    assert_eq!(m.value_at(0), &1);
    m.remove("b");
    m.remove("zz");
    assert_eq!(m.keys(), vec!["a".to_string(), "c".to_string()]);
    assert!(!m.contains_key("b"));
}
