use fsearch_core::text::{
    chars_equal, chars_equal_ignore_case, chars_less, chars_of, chars_start_with, contains_chars,
    decimal_chars, is_whitespace, parse_i128, push_digits, string_of, trim_chars,
};

fn cs(s: &str) -> Vec<char> {
    s.chars().collect()
}

#[test]
fn whitespace_is_the_unicode_property() {
    for u in 0..=0x10FFFFu32 {
        if let Some(c) = char::from_u32(u) {
            assert_eq!(is_whitespace(c), c.is_whitespace(), "U+{:04X}", u);
        }
    }
}

#[test]
fn chars_and_strings_convert() {
    assert_eq!(chars_of("a\u{e9}\u{1F600}"), vec!['a', '\u{e9}', '\u{1F600}']);
    assert_eq!(string_of(&cs("hello"), 1, 4), "ell");
    assert_eq!(string_of(&cs("hello"), 2, 2), "");
}

#[test]
fn trimming_takes_white_space_off_both_ends() {
    assert_eq!(trim_chars(&cs("  \t a b \u{3000}\n")), cs("a b"));
    assert_eq!(trim_chars(&cs(" \u{a0} ")), cs(""));
    assert_eq!(trim_chars(&cs("")), cs(""));
    assert_eq!(trim_chars(&cs("x")), cs("x"));
}

#[test]
fn substring_search() {
    assert!(contains_chars(&cs("this is foo"), &cs("foo")));
    assert!(contains_chars(&cs("foo"), &cs("")));
    assert!(contains_chars(&cs(""), &cs("")));
    assert!(!contains_chars(&cs("fo"), &cs("foo")));
    assert!(!contains_chars(&cs("this is fo o"), &cs("foo")));
    assert!(contains_chars(&cs("aab"), &cs("ab")));
}

#[test]
fn string_order_is_that_of_str() {
    let words = ["", "a", "ab", "b", "B", "a\u{e9}", "\u{1F600}", "\u{ffff}", "abc", "ab "];
    for a in words {
        for b in words {
            assert_eq!(chars_less(&cs(a), &cs(b)), a < b, "{:?} < {:?}", a, b);
            assert_eq!(chars_equal(&cs(a), &cs(b)), a == b, "{:?} == {:?}", a, b);
        }
    }
}

#[test]
fn case_is_ignored_for_ascii_only() {
    assert!(chars_equal_ignore_case(&cs("IgnoreCase"), &cs("ignorecase")));
    assert!(!chars_equal_ignore_case(&cs("\u{c9}"), &cs("\u{e9}")));
    assert!(!chars_equal_ignore_case(&cs("ab"), &cs("abc")));
    assert!(chars_equal_ignore_case(&cs("[`"), &cs("[`")));
    assert!(!chars_equal_ignore_case(&cs("@"), &cs("`")));
    assert!(chars_start_with(&cs("anchored"), &cs("anch")));
    assert!(!chars_start_with(&cs("Anchored"), &cs("anch")));
    assert!(!chars_start_with(&cs("anc"), &cs("anch")));
}

#[test]
fn integers_parse_as_i128_does() {
    let cases = [
        "0", "-0", "+0", "7", "-7", "+7", "007", "", "+", "-", "1 ", " 1", "1a", "--1", "1_0",
        "170141183460469231731687303715884105727",
        "170141183460469231731687303715884105728",
        "-170141183460469231731687303715884105728",
        "-170141183460469231731687303715884105729",
        "999999999999999999999999999999999999999999",
        "\u{0661}",
    ];
    for c in cases {
        assert_eq!(parse_i128(&cs(c)), c.parse::<i128>().ok(), "{:?}", c);
    }
    assert_eq!(parse_i128(&cs("-42")), Some(-42));
}

#[test]
fn integers_print_as_i128_does() {
    for v in [0i128, 5, 10, 99, 100, -1, -10, 1234567890, i128::MAX, i128::MIN, i128::MIN + 1] {
        assert_eq!(decimal_chars(v), cs(&v.to_string()));
    }
    let mut out = vec!['x'];
    push_digits(340282366920938463463374607431768211455, &mut out);
    assert_eq!(out, cs("x340282366920938463463374607431768211455"));
}
