use fsearch_core::highlight::{byte_range_to_utf16_bounds, map_range_with};

#[test]
fn utf16_mapping_flag_emoji() {
    let s = "aðŸ‡ºðŸ‡¸b"; // 'ðŸ‡ºðŸ‡¸' is a flag composed of two regional indicators
    let flag = "ðŸ‡ºðŸ‡¸";
    let start = s.find(flag).expect("flag present");
    let end = start + flag.len();
    let (su, eu) = byte_range_to_utf16_bounds(s, start, end);
    let expected_su = s[..start].encode_utf16().count();
    let expected_eu = s[..end].encode_utf16().count();
    assert_eq!((su, eu), (expected_su, expected_eu));
}

#[test]
fn utf16_mapping_combining_mark() {
    // 'e' + combining acute accent (U+0301) should be a single grapheme
    let s = "x e\u{301} y"; // string contains 'eÌ' composed
    // find the composed sequence by searching for 'e' and then include combining mark
    let idx_e = s.find('e').expect("e present");
    let start = idx_e;
    // end should include the combining mark byte length
    let end = start + s[start..].chars().next().unwrap().len_utf8() + "\u{301}".len();
    let (su, eu) = byte_range_to_utf16_bounds(s, start, end);
    let expected_su = s[..start].encode_utf16().count();
    let expected_eu = s[..end].encode_utf16().count();
    assert_eq!((su, eu), (expected_su, expected_eu));
}

#[test]
fn utf16_mapping_zwj_sequence() {
    // family emoji is often a ZWJ sequence forming one grapheme cluster
    let family = "ðŸ‘©â€ðŸ‘©â€ðŸ‘§â€ðŸ‘¦";
    let s = format!("A{}Z", family);
    let start = s.find(family).expect("family present");
    let end = start + family.len();
    let (su, eu) = byte_range_to_utf16_bounds(&s, start, end);
    let expected_su = s[..start].encode_utf16().count();
    let expected_eu = s[..end].encode_utf16().count();
    assert_eq!((su, eu), (expected_su, expected_eu));
}

#[test]
fn utf16_mapping_real_flag_emoji() {
    let s = "a\u{1F1FA}\u{1F1F8}b";
    let flag = "\u{1F1FA}\u{1F1F8}";
    let start = s.find(flag).expect("flag present");
    let end = start + flag.len();
    assert_eq!((start, end), (1, 9));
    assert_eq!(byte_range_to_utf16_bounds(s, start, end), (1, 5));
    // a range that covers the second regional indicator only is widened to the whole flag
    assert_eq!(byte_range_to_utf16_bounds(s, 5, 9), (1, 5));
    // so is a range that ends inside the flag
    assert_eq!(byte_range_to_utf16_bounds(s, 0, 3), (0, 5));
}

#[test]
fn utf16_mapping_widens_combining_mark() {
    let s = "x e\u{301} y";
    // the bytes of the combining mark alone
    assert_eq!(byte_range_to_utf16_bounds(s, 3, 5), (2, 4));
    // the letter alone
    assert_eq!(byte_range_to_utf16_bounds(s, 2, 3), (2, 4));
}

#[test]
fn utf16_mapping_real_zwj_sequence() {
    let family = "\u{1F469}\u{200D}\u{1F469}\u{200D}\u{1F467}\u{200D}\u{1F466}";
    let s = format!("A{}Z", family);
    let start = s.find(family).expect("family present");
    let end = start + family.len();
    assert_eq!(byte_range_to_utf16_bounds(&s, start, end), (1, 12));
    assert_eq!(byte_range_to_utf16_bounds(&s, start + 4, start + 8), (1, 12));
}

#[test]
fn utf16_mapping_edges() {
    assert_eq!(byte_range_to_utf16_bounds("", 0, 0), (0, 0));
    assert_eq!(byte_range_to_utf16_bounds("abc", 3, 3), (3, 3));
    assert_eq!(byte_range_to_utf16_bounds("abc", 1, 2), (1, 2));
    // an end beyond the text stops at the end of the text
    assert_eq!(byte_range_to_utf16_bounds("abc", 1, 10), (1, 3));
    // astral characters count two code units
    assert_eq!(byte_range_to_utf16_bounds("\u{10000}a", 4, 5), (2, 3));
}

#[test]
fn map_range_with_given_boundaries() {
    // boundaries at 0 and 2: the text falls into "ab" and "cd"
    let starts = vec![0, 2];
    assert_eq!(map_range_with("abcd", &starts, 1, 3), (0, 4));
    assert_eq!(map_range_with("abcd", &starts, 2, 2), (2, 2));
    assert_eq!(map_range_with("abcd", &starts, 3, 4), (2, 4));
    // without boundaries the start falls back to 0 and the end to the end of the text
    let none: Vec<usize> = Vec::new();
    assert_eq!(map_range_with("abcd", &none, 1, 3), (0, 4));
}
