use whackamux::text::{
    chars_of, contains, decimal_of, is_white_space, join_with, lines_of, parse_u32, split_on,
    split_once, str_eq, str_le, string_of, strings,
};

fn owned(v: &[&str]) -> Vec<String> {
    v.iter().map(|s| s.to_string()).collect()
}

#[test]
fn characters_and_back() {
    let cs = chars_of("añ→z");
    assert_eq!(cs, vec!['a', 'ñ', '→', 'z']);
    assert_eq!(string_of(&cs, 1, 3), "ñ→");
    assert_eq!(string_of(&cs, 2, 2), "");
    assert_eq!(strings(&["x", ""]), owned(&["x", ""]));
    assert!(str_eq("ñ", "ñ"));
    assert!(!str_eq("n", "ñ"));
}

#[test]
fn splitting_and_joining_are_inverse() {
    for s in ["", "a", "\t", "a\tb", "\ta\t\tb\t", "ünï\tcode"] {
        let pieces = split_on(s, '\t');
        let expected: Vec<String> = s.split('\t').map(|p| p.to_string()).collect();
        assert_eq!(pieces, expected);
        assert_eq!(join_with(&pieces, "\t"), s);
    }
    assert_eq!(join_with(&Vec::new(), ", "), "");
    assert_eq!(join_with(&owned(&["a", "b", "c"]), ", "), "a, b, c");
}

#[test]
fn lines_end_as_in_std() {
    for s in [
        "", "a", "\n", "a\n", "a\r\n", "a\r", "a\nb", "a\n\nb\n", "\r\n\r\n", "a\r\r\nb\r", "\n\n",
    ] {
        let expected: Vec<String> = s.lines().map(|l| l.to_string()).collect();
        assert_eq!(lines_of(s), expected);
    }
}

#[test]
fn numbers_are_read_as_in_std() {
    for s in [
        "", "0", "7", "42", "+42", "+", "++1", "-1", "-0", " 1", "1 ", "4294967295", "4294967296",
        "00000000000000000001", "99999999999999999999", "1x", "x", "٣", "12345678901x",
    ] {
        assert_eq!(parse_u32(s), s.parse::<u32>().ok());
    }
}

#[test]
fn numbers_are_written_in_decimal() {
    assert_eq!(decimal_of(0), "0");
    assert_eq!(decimal_of(7), "7");
    assert_eq!(decimal_of(10), "10");
    assert_eq!(decimal_of(4294967295), "4294967295");
    assert_eq!(decimal_of(u128::MAX), u128::MAX.to_string());
    assert_eq!(parse_u32(&decimal_of(123456)), Some(123456));
}

#[test]
fn patterns_are_found_as_in_std() {
    for (s, p) in [
        ("", ""), ("a", ""), ("", "a"), ("abc", "bc"), ("abc", "ac"), ("aab", "ab"),
        ("abc", "abc"), ("abc", "abcd"), ("Do you want to go?", "Do you want to"), ("añb", "ñ"),
    ] {
        assert_eq!(contains(s, p), s.contains(p));
    }
}

#[test]
fn texts_are_ordered_as_in_std() {
    let all = ["", "a", "ab", "b", "B", "ba", "ñ", "→", "😀", "a\t"];
    for a in all {
        for b in all {
            assert_eq!(str_le(a, b), a <= b);
        }
    }
}

#[test]
fn white_space_is_that_of_unicode() {
    for n in 0..=0x10ffffu32 {
        if let Some(c) = char::from_u32(n) {
            assert_eq!(is_white_space(c), c.is_whitespace());
        }
    }
}

#[test]
fn splitting_at_the_first_separator() {
    assert_eq!(split_once("a\tb\tc", '\t'), Some(("a", "b\tc")));
    assert_eq!(split_once("\t", '\t'), Some(("", "")));
    assert_eq!(split_once("ñ→x", '→'), Some(("ñ", "x")));
    assert_eq!(split_once("abc", '\t'), None);
}
