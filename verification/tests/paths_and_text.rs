use intake::paths::{
    absolute_path, directory, file_name, is_absolute, is_under, is_within, join, normalize, parent,
    path_names,
};
use intake::text::{
    byte_count, chars_of, contains_str, decimal_of, ends_with_str, find_in, find_last_in,
    from_utf8, is_text_le, join_strings, lower_str, parse_digits, replace_all, signed_decimal_of,
    split_chars, split_words, starts_with_str, strip_prefix_str, take_bytes, trim_str,
    utf16_count,
};

fn texts(list: &[&str]) -> Vec<String> {
    list.iter().map(|item| item.to_string()).collect()
}

#[test]
fn counts_bytes_and_units() {
    assert_eq!(byte_count(&chars_of("aé…😀")), 1 + 2 + 3 + 4);
    assert_eq!(utf16_count(&chars_of("aé…😀")), 5);
}

#[test]
fn takes_whole_characters() {
    assert_eq!(take_bytes("aé…", 2), "a");
    assert_eq!(take_bytes("aé…", 3), "aé");
    assert_eq!(take_bytes("aé…", 100), "aé…");
}

#[test]
fn finds_texts() {
    let text = chars_of("abcabc");
    assert_eq!(find_in(&text, &chars_of("bc"), 0), Some(1));
    assert_eq!(find_in(&text, &chars_of("bc"), 2), Some(4));
    assert_eq!(find_in(&text, &chars_of("x"), 0), None);
    assert_eq!(find_last_in(&text, &chars_of("abc")), Some(3));
    assert!(contains_str("abc", "bc"));
    assert!(starts_with_str("abc", "ab"));
    assert!(ends_with_str("abc", "bc"));
    assert!(!ends_with_str("bc", "abc"));
    assert_eq!(strip_prefix_str("origin/main", "origin/"), Some("main".to_string()));
    assert_eq!(strip_prefix_str("main", "origin/"), None);
}

#[test]
fn replaces_from_the_left() {
    assert_eq!(replace_all("aaa", "aa", "b"), "ba");
    assert_eq!(replace_all("x y x", "x", "xx"), "xx y xx");
}

#[test]
fn splits_and_joins() {
    let parts: Vec<String> =
        split_chars(&chars_of("a//b"), '/').iter().map(|part| part.iter().collect()).collect();
    assert_eq!(parts, texts(&["a", "", "b"]));
    assert_eq!(join_strings(&texts(&["a", "b"]), ", "), "a, b");
    assert_eq!(join_strings(&Vec::new(), ", "), "");
    assert_eq!(split_words(&chars_of("  one\ttwo\n three ")), texts(&["one", "two", "three"]));
    assert_eq!(trim_str(" \u{a0}x y\n"), "x y");
    assert_eq!(lower_str("AbÉ"), "abÉ");
}

#[test]
fn writes_and_reads_numbers() {
    assert_eq!(decimal_of(0), "0");
    assert_eq!(decimal_of(340282366920938463463374607431768211455), "340282366920938463463374607431768211455");
    assert_eq!(signed_decimal_of(i64::MIN), "-9223372036854775808");
    assert_eq!(parse_digits(&chars_of("18446744073709551615")), Some(u64::MAX));
    assert_eq!(parse_digits(&chars_of("18446744073709551616")), None);
    assert_eq!(parse_digits(&chars_of("")), None);
    assert_eq!(parse_digits(&chars_of("1x")), None);
}

#[test]
fn orders_texts() {
    assert!(is_text_le("", "a"));
    assert!(is_text_le("a", "a"));
    assert!(!is_text_le("b", "aa"));
    assert!(is_text_le("Z", "a"));
}

#[test]
fn reads_utf8() {
    assert_eq!(from_utf8("é".as_bytes()), Some("é".to_string()));
    assert_eq!(from_utf8(&[0xff]), None);
}

#[test]
fn normal_paths_are_stable() {
    for path in ["/a/../b/./c//", "a/b/../../..", "/..", "", "/"] {
        let once = normalize(path);
        assert_eq!(normalize(&once), once, "{}", path);
    }
    assert_eq!(normalize("/a/../b/./c//"), "/b/c");
}

#[test]
fn paths_are_joined_and_taken_apart() {
    assert_eq!(join("/a", "b"), "/a/b");
    assert_eq!(join("/a/", "b"), "/a/b");
    assert_eq!(join("/a", "/b"), "/b");
    assert!(is_absolute("/a"));
    assert!(!is_absolute("a"));
    assert_eq!(absolute_path("b/../c", "/a"), "/a/c");
    assert_eq!(path_names("/a/./b/../c"), texts(&["a", "c"]));
    assert_eq!(file_name("/a/b.txt"), Some("b.txt".to_string()));
    assert_eq!(file_name("/"), None);
    assert_eq!(parent("/a/b"), Some("/a".to_string()));
    assert_eq!(parent("/"), None);
    assert_eq!(directory("/a/b/c.txt"), Some("/a/b".to_string()));
}

#[test]
fn containment_is_by_names() {
    assert!(is_under("/a/b", "/a"));
    assert!(is_under("/a", "/a"));
    assert!(!is_under("/ab", "/a"));
    assert!(is_within("/a/../b/c", &texts(&["/x", "/b"]), "/"));
    assert!(!is_within("/a/../b/c", &texts(&["/a"]), "/"));
    // An order: what lies below something lies below what that lies below.
    assert!(is_under("/a/b/c", "/a/b") && is_under("/a/b", "/a") && is_under("/a/b/c", "/a"));
}
