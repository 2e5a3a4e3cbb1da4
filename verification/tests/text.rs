use polybot::paths::join;
use polybot::text::confirmed_y;
use polybot::text::{
    answer_is_yes, ends_with, join_strings, lines_of, parse_usize, split_once, split_str,
    starts_with, str_contains, strip_prefix, strip_suffix, trim_str, u64_decimal,
    u64_zero_padded,
};

fn s(x: &str) -> String {
    x.to_string()
}

#[test]
fn decimal_forms() {
    assert_eq!(u64_decimal(0), "0");
    assert_eq!(u64_decimal(1000000), "1000000");
    assert_eq!(u64_decimal(u64::MAX), "18446744073709551615");
    assert_eq!(u64_zero_padded(42, 6), "000042");
    assert_eq!(u64_zero_padded(1234567, 6), "1234567");
}

#[test]
fn decimal_reads_back() {
    for n in [0usize, 7, 10, 99, 12345, usize::MAX] {
        assert_eq!(parse_usize(&u64_decimal(n as u64)), Some(n));
    }
}

#[test]
fn usize_parsing() {
    assert_eq!(parse_usize("42"), Some(42));
    assert_eq!(parse_usize("+42"), Some(42));
    assert_eq!(parse_usize("007"), Some(7));
    assert_eq!(parse_usize(""), None);
    assert_eq!(parse_usize("+"), None);
    assert_eq!(parse_usize("-1"), None);
    assert_eq!(parse_usize("4 2"), None);
    assert_eq!(parse_usize("18446744073709551616"), None);
    assert_eq!(parse_usize("18446744073709551615"), Some(usize::MAX));
}

#[test]
fn lines_like_str_lines() {
    let cases = ["", "a", "a\n", "a\r\nb", "a\n\nb\r", "\n", "x\r\n\r\n"];
    for c in cases {
        let expected: Vec<String> = c.lines().map(s).collect();
        assert_eq!(lines_of(c), expected, "{:?}", c);
    }
}

#[test]
fn splitting_and_trimming() {
    assert_eq!(split_str("a,,b", ','), vec![s("a"), s(""), s("b")]);
    assert_eq!(split_str("", ','), vec![s("")]);
    assert_eq!(trim_str("  a b \t"), "a b");
    assert_eq!(split_once("k=v=w", '='), Some((s("k"), s("v=w"))));
    assert_eq!(split_once("kv", '='), None);
    assert_eq!(join_strings(&vec![s("a"), s("b"), s("c")], ", "), "a, b, c");
    assert_eq!(join_strings(&vec![], ", "), "");
}

#[test]
fn prefixes_and_suffixes() {
    assert!(starts_with("markets_chunk_1.json", "markets_chunk_"));
    assert!(!starts_with("ab", "abc"));
    assert!(ends_with("x.json", ".json"));
    assert_eq!(strip_prefix("worktree /p", "worktree "), Some(s("/p")));
    assert_eq!(strip_suffix("123_snapshot.fb", "_snapshot.fb"), Some(s("123")));
    assert_eq!(strip_suffix("123.fb", "_snapshot.fb"), None);
    assert!(str_contains("hello", "ell"));
    assert!(!str_contains("hello", "xyz"));
}

#[test]
fn answers_and_case() {
    assert!(answer_is_yes(" Yes please"));
    assert!(!answer_is_yes("no"));
    assert!(!answer_is_yes("   "));
}

#[test]
fn path_joins() {
    assert_eq!(join("a", "b"), "a/b");
    assert_eq!(join("a/", "b"), "a/b");
    assert_eq!(join("", "b"), "b");
    assert_eq!(join("a", "/b"), "/b");
    assert_eq!(join("a", "b"), std::path::Path::new("a").join("b").to_string_lossy());
}

#[test]
fn y_confirmations() {
    assert!(confirmed_y("y\n"));
    assert!(confirmed_y("  Y "));
    assert!(!confirmed_y("yes"));
    assert!(!confirmed_y(""));
    assert!(!confirmed_y("n"));
}
