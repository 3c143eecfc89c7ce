use hotspotd::entries::{order_keys, EntryMap, KeyOrder};
use hotspotd::text::{
    chars_contain, chars_parse_u8, from_chars, i64_to_decimal, split_chars, split_lines,
    split_once_chars, split_whitespace_chars, str_byte_len, str_eq_ignore_ascii_case, str_is_blank,
    str_starts_with, str_trim, to_chars, u64_to_decimal,
};

fn chars(s: &str) -> Vec<char> {
    s.chars().collect()
}

fn texts(v: Vec<Vec<char>>) -> Vec<String> {
    v.iter().map(|r| r.iter().collect()).collect()
}

#[test]
fn trimming_removes_every_kind_of_whitespace() {
    assert_eq!(str_trim("  a b \t\r\n"), "a b");
    assert_eq!(str_trim("\u{a0}\u{2003}x\u{3000}\u{85}\u{1680}\u{2028}\u{2029}\u{202f}\u{205f}"), "x");
    assert_eq!(str_trim("\u{b}\u{c}x"), "x");
    assert_eq!(str_trim("\u{200b}x\u{feff}"), "\u{200b}x\u{feff}");
    assert_eq!(str_trim(""), "");
    assert_eq!(str_trim(" \t "), "");
    assert_eq!(str_trim("x"), "x");
    for s in ["", " ", "\u{3000}", " a ", "\u{200b}", "a\u{a0}"] {
        assert_eq!(str_trim(s), s.trim(), "{s:?}");
        assert_eq!(str_is_blank(s), s.trim().is_empty(), "{s:?}");
    }
}

#[test]
fn characters_and_strings_convert_both_ways() {
    for s in ["", "abc", "a\u{20ac}\u{1f600}z"] {
        assert_eq!(to_chars(s), chars(s));
        assert_eq!(from_chars(&chars(s)), s);
        assert_eq!(str_byte_len(s), s.len());
    }
    assert_eq!(str_byte_len("\u{20ac}"), 3);
}

#[test]
fn lines_end_at_line_feeds() {
    let cases: [(&str, &[&str]); 9] = [
        ("", &[]),
        ("\n", &[""]),
        ("a", &["a"]),
        ("a\n", &["a"]),
        ("a\n\n", &["a", ""]),
        ("a\r\nb\r\n", &["a", "b"]),
        ("a\rb\n\r\nc\r", &["a\rb", "", "c\r"]),
        ("\r\r\n", &["\r"]),
        ("x\n y", &["x", " y"]),
    ];
    for (text, want) in cases {
        assert_eq!(texts(split_lines(&chars(text))), want, "{text:?}");
        let std_lines: Vec<&str> = text.lines().collect();
        assert_eq!(texts(split_lines(&chars(text))), std_lines, "{text:?}");
    }
}

#[test]
fn splitting_keeps_empty_pieces() {
    assert_eq!(texts(split_chars(&chars(""), ':')), [""]);
    assert_eq!(texts(split_chars(&chars("a"), ':')), ["a"]);
    assert_eq!(texts(split_chars(&chars("a:b::c:"), ':')), ["a", "b", "", "c", ""]);
    assert_eq!(texts(split_chars(&chars(":"), ':')), ["", ""]);
    let (a, b) = split_once_chars(&chars("k=v=w"), '=').unwrap();
    assert_eq!((from_chars(&a), from_chars(&b)), ("k".to_string(), "v=w".to_string()));
    assert!(split_once_chars(&chars("kv"), '=').is_none());
    let (a, b) = split_once_chars(&chars("="), '=').unwrap();
    assert!(a.is_empty() && b.is_empty());
}

#[test]
fn words_are_runs_without_whitespace() {
    for s in ["", "  ", "a", " a  b\tc\n", "a\u{3000}b", "one"] {
        let want: Vec<&str> = s.split_whitespace().collect();
        assert_eq!(texts(split_whitespace_chars(&chars(s))), want, "{s:?}");
    }
}

#[test]
fn numbers_are_written_without_leading_zeros() {
    for n in [0u64, 1, 9, 10, 99, 100, 1234567890, u64::MAX] {
        assert_eq!(u64_to_decimal(n), n.to_string());
    }
    for i in [0i64, 1, -1, 10, -10, i64::MAX, i64::MIN, -9223372036854775807] {
        assert_eq!(i64_to_decimal(i), i.to_string());
    }
}

#[test]
fn small_numbers_are_read_as_the_standard_library_reads_them() {
    for s in ["0", "7", "255", "256", "+255", "+", "", "-0", "1a", "a", " 1", "0000", "999", "٣"] {
        assert_eq!(chars_parse_u8(&chars(s)), s.parse::<u8>().ok(), "{s:?}");
    }
}

#[test]
fn letters_compare_without_regard_to_ascii_case() {
    assert!(str_eq_ignore_ascii_case("AA:bb:Cc", "aa:BB:cC"));
    assert!(str_eq_ignore_ascii_case("", ""));
    assert!(!str_eq_ignore_ascii_case("a", "ab"));
    assert!(!str_eq_ignore_ascii_case("\u{e4}", "\u{c4}"));
    assert!(!str_eq_ignore_ascii_case("@", "`"));
    assert!(!str_eq_ignore_ascii_case("[", "{"));
    assert!(str_starts_with("docker0", "docker"));
    assert!(!str_starts_with("dock", "docker"));
    assert!(str_starts_with("x", ""));
}

#[test]
fn text_is_searched_for_text() {
    assert!(chars_contain(&chars("there are no clients here"), &chars("no clients")));
    assert!(chars_contain(&chars("no clients"), &chars("no clients")));
    assert!(!chars_contain(&chars("no client"), &chars("no clients")));
    assert!(chars_contain(&chars("abc"), &chars("")));
    assert!(chars_contain(&chars(""), &chars("")));
    assert!(!chars_contain(&chars(""), &chars("a")));
    assert!(chars_contain(&chars("aab"), &chars("ab")));
}

#[test]
fn keys_are_ordered_character_by_character() {
    assert_eq!(order_keys(&chars("a"), &chars("b")), KeyOrder::Before);
    assert_eq!(order_keys(&chars("b"), &chars("a")), KeyOrder::After);
    assert_eq!(order_keys(&chars("ab"), &chars("ab")), KeyOrder::Same);
    assert_eq!(order_keys(&chars("ab"), &chars("abc")), KeyOrder::Before);
    assert_eq!(order_keys(&chars(""), &chars("")), KeyOrder::Same);
    assert_eq!(order_keys(&chars("Z"), &chars("a")), KeyOrder::Before);
    assert_eq!(order_keys(&chars("\u{e9}"), &chars("z")), KeyOrder::After);
}

#[test]
fn entries_are_listed_in_key_order_whatever_the_order_of_insertion() {
    let mut m = EntryMap::new();
    for k in ["delta", "alpha", "charlie", "bravo", "alpha", "", "Zulu"] {
        m.insert(k.to_string(), k.to_uppercase());
    }
    let keys: Vec<String> = (0..m.len()).map(|i| m.entry(i).0.clone()).collect();
    assert_eq!(keys, ["", "Zulu", "alpha", "bravo", "charlie", "delta"]);
    assert_eq!(m.get("alpha").map(|s| s.as_str()), Some("ALPHA"));
    assert!(m.contains_key(""));
    m.remove("bravo");
    m.remove("missing");
    assert_eq!(m.len(), 5);
    assert!(!m.contains_key("bravo"));
    let copy = m.duplicate();
    m.remove("alpha");
    assert!(copy.contains_key("alpha"));
    assert_eq!(copy.len(), 5);
}
