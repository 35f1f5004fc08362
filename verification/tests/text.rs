use rozed_core::text::{CharClass, chars_of, find, parse_i64_chars, parse_usize_chars, push_decimal, push_signed_decimal, replace_chars, trim_chars};

fn s(v: &[char]) -> String {
    v.iter().collect()
}

#[test]
fn trim_removes_unicode_white_space() {
    assert_eq!(s(&trim_chars(&chars_of("\u{3000}\t x y \u{a0}\n"))), "x y");
    assert_eq!(s(&trim_chars(&chars_of("   "))), "");
}

#[test]
fn find_gives_first_occurrence() {
    let hay = chars_of("abcabc");
    assert_eq!(find(&hay, &chars_of("bc")), Some(1));
    assert_eq!(find(&hay, &chars_of("")), Some(0));
    assert_eq!(find(&hay, &chars_of("cb")), None);
}

#[test]
fn replace_turns_backslashes() {
    assert_eq!(s(&replace_chars(&chars_of("a\\b\\c"), '\\', '/')), "a/b/c");
}

#[test]
fn numbers_parse_as_std_does() {
    for t in ["0", "+7", "-7", "007", "", "+", "-", "1 ", "18446744073709551615", "18446744073709551616", "-0"] {
        assert_eq!(parse_usize_chars(&chars_of(t)), t.parse::<usize>().ok(), "usize {:?}", t);
        assert_eq!(parse_i64_chars(&chars_of(t)), t.parse::<i64>().ok(), "i64 {:?}", t);
    }
}

#[test]
fn numbers_print_as_std_does() {
    for x in [0i64, 7, -7, 10, 1234567890, i64::MIN, i64::MAX] {
        let mut out = Vec::new();
        push_signed_decimal(&mut out, x);
        assert_eq!(s(&out), x.to_string());
    }
    let mut out = Vec::new();
    push_decimal(&mut out, u64::MAX);
    assert_eq!(s(&out), u64::MAX.to_string());
}

#[test]
fn white_space_class_is_std_is_whitespace() {
    for code in 0u32..=0x10FFFF {
        if let Some(c) = char::from_u32(code) {
            assert_eq!(CharClass::WhiteSpace.contains(c), c.is_whitespace(), "{:?}", c);
        }
    }
}
