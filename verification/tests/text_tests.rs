// Character-level helpers.

use file_sorter_lib::text::{
    chars_of, ends_with_str, equals_str, lowercase_of, push_decimal, push_range, push_str,
    uppercase_of,
};

fn decimal(n: u128) -> String {
    let mut out = String::new();
    push_decimal(&mut out, n);
    out
}

#[test]
fn decimal_rendering() {
    assert_eq!(decimal(0), "0");
    assert_eq!(decimal(7), "7");
    assert_eq!(decimal(10), "10");
    assert_eq!(decimal(99), "99");
    assert_eq!(decimal(100), "100");
    assert_eq!(decimal(1234567890), "1234567890");
    assert_eq!(decimal(u128::MAX), "340282366920938463463374607431768211455");
    let mut out = String::from("n=");
    push_decimal(&mut out, 42);
    assert_eq!(out, "n=42");
}

#[test]
fn strings_and_their_characters() {
    assert_eq!(chars_of("añ/b"), vec!['a', 'ñ', '/', 'b']);
    assert!(chars_of("").is_empty());
    assert_eq!(chars_of("round trip ✓").iter().collect::<String>(), "round trip ✓");
    let mut out = String::from("x");
    push_str(&mut out, "yz");
    push_str(&mut out, "");
    assert_eq!(out, "xyz");
    let v = chars_of("abcdef");
    push_range(&mut out, &v, 2, 5);
    push_range(&mut out, &v, 3, 3);
    assert_eq!(out, "xyzcde");
}

#[test]
fn comparing_with_words() {
    let v = chars_of("heic");
    assert!(equals_str(&v, "heic"));
    assert!(!equals_str(&v, "hei"));
    assert!(!equals_str(&v, "heics"));
    assert!(!equals_str(&v, "heif"));
    assert!(!equals_str(&v, ""));
    assert!(equals_str(&chars_of(""), ""));
    assert!(ends_with_str(&chars_of("a.zip"), ".zip"));
    assert!(ends_with_str(&chars_of(".zip"), ".zip"));
    assert!(ends_with_str(&chars_of("any"), ""));
    assert!(!ends_with_str(&chars_of("zip"), ".zip"));
    assert!(!ends_with_str(&chars_of("a.zap"), ".zip"));
    assert!(!ends_with_str(&chars_of("a.zip "), ".zip"));
}

#[test]
fn folding_follows_the_standard_library() {
    for s in ["", "HeLLo.JPG", "straße", "t\u{131}f", "\u{130}", "ΑΣ", "x\u{fb00}"] {
        assert_eq!(lowercase_of(s), s.to_lowercase());
        assert_eq!(uppercase_of(s), s.to_uppercase());
    }
    assert_eq!(lowercase_of("A.JPG"), "a.jpg");
    assert_eq!(uppercase_of("heic"), "HEIC");
    assert_eq!(lowercase_of(""), "");
    assert_eq!(uppercase_of(""), "");
}
