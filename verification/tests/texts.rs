use databricks_connector::text;

#[test]
fn white_space_is_that_of_unicode() {
    for n in 0..=0x10FFFFu32 {
        if let Some(c) = char::from_u32(n) {
            assert_eq!(text::white_space(c), c.is_whitespace(), "{:?}", c);
        }
    }
}

#[test]
fn trimming_agrees_with_the_standard_library() {
    for s in ["", " ", " a ", "\u{2003}a b\t\n", "a", "\u{feff}a"] {
        let chars: Vec<char> = text::chars_of(s);
        assert_eq!(text::text_of(text::trim(&chars)), s.trim());
        assert_eq!(text::text_of(text::trim_tail(&chars, "a")), s.trim_end_matches("a"));
    }
}

#[test]
fn splitting_agrees_with_the_standard_library() {
    for s in ["", ";", "a;b", ";a;;b;", "abc", "é;ü"] {
        let chars: Vec<char> = text::chars_of(s);
        let mine: Vec<String> = text::split(&chars, ';').iter().map(|p| text::text_of(p)).collect();
        let std: Vec<&str> = s.split(';').collect();
        assert_eq!(mine, std);
        let once = text::split_once(&chars, ";").map(|(a, b)| (text::text_of(a), text::text_of(b)));
        assert_eq!(once, s.split_once(';').map(|(a, b)| (a.to_string(), b.to_string())));
        assert_eq!(text::text_of(text::cut_before(&chars, ";b")), s.split([';', 'b']).next().unwrap());
    }
}

#[test]
fn replacing_agrees_with_the_standard_library() {
    for s in ["", "a", "aaa", "abcabc", "xaay", "éaé"] {
        for p in ["", "a", "aa", "abc", "é"] {
            assert_eq!(text::replace(s, p, "-+"), s.replace(p, "-+"));
        }
    }
}

#[test]
fn prefixes_are_found() {
    let chars: Vec<char> = text::chars_of("abc");
    assert!(text::starts_with(&chars, ""));
    assert!(text::starts_with(&chars, "ab"));
    assert!(!text::starts_with(&chars, "abcd"));
    assert_eq!(text::strip_prefix(&chars, "ab").map(text::text_of), Some("c".to_string()));
    assert_eq!(text::strip_prefix(&chars, "b").map(text::text_of), None);
}

#[test]
fn letters_are_lowered() {
    let chars: Vec<char> = text::chars_of("AzÉ-9[");
    assert_eq!(text::lower(&chars), "AzÉ-9[".to_ascii_lowercase());
    assert!(text::same_letters("Yes", "yES"));
    assert!(!text::same_letters("É", "é"));
    assert!(!text::same_letters("yes", "yess"));
    assert!(text::same_text("a", "a") && !text::same_text("a", "A"));
    assert_eq!(text::join("a", "b"), "ab");
}

#[test]
fn integers_are_read_as_in_the_standard_library() {
    for s in [
        "", "0", "7", "+7", "-7", "-", "+", "--1", "+-1", " 1", "1 ", "0012", "-0", "1.0", "٣",
        "9223372036854775807", "9223372036854775808", "-9223372036854775808",
        "-9223372036854775809", "00000000000000000000000000000000000000001",
        "99999999999999999999999999999999999999999999",
    ] {
        assert_eq!(text::parse_i64(s), s.parse::<i64>().ok(), "{}", s);
    }
}

#[test]
fn order_is_that_of_strings() {
    let all = ["", "a", "ab", "b", "B", "é", "\u{ffff}", "\u{10000}", "a.b", "a-b"];
    for a in all {
        for b in all {
            assert_eq!(text::comes_before(a, b), a < b, "{} {}", a, b);
        }
    }
}
