use course_catalog::text::{
    char_is_whitespace, chars_of, join, eq_ignore_ascii_case, parse_u32, split, split_once,
    str_eq, trim,
};

fn text_samples() -> Vec<&'static str> {
    vec![
        "",
        " ",
        "   ",
        "a",
        " a",
        "a ",
        "  a b  ",
        "\t\n x \r\n",
        "\u{a0}x\u{a0}",
        "\u{2003}wide\u{3000}",
        "\u{85}next line\u{2028}\u{2029}",
        "\u{1680}ogham\u{205f}",
        "\u{200b}zero width is kept\u{200b}",
        "\u{180e}mongolian vowel separator is kept",
        "no space at all",
        "é à ü",
        "  汉字  ",
        "a;b;c",
        ";",
        ";;",
        "a;",
        ";a",
        "Requirements: A; B ; C",
        "x:y:z",
        ":",
        "MATH 101L",
    ]
}

#[test]
fn whitespace_agrees_with_the_standard_library_on_every_character() {
    let mut code: u32 = 0;
    while code <= 0x10FFFF {
        if let Some(c) = char::from_u32(code) {
            assert_eq!(char_is_whitespace(c), c.is_whitespace(), "U+{:04X}", code);
        }
        code += 1;
    }
}

#[test]
fn chars_of_gives_the_characters_in_order() {
    assert_eq!(chars_of("aé汉"), vec!['a', 'é', '汉']);
    assert_eq!(chars_of(""), Vec::<char>::new());
}

#[test]
fn trim_removes_whitespace_at_both_ends_only() {
    assert_eq!(trim("  a b  "), "a b");
    assert_eq!(trim("\t\n x \r\n"), "x");
    assert_eq!(trim("   "), "");
    assert_eq!(trim(""), "");
    assert_eq!(trim("x"), "x");
}

#[test]
fn trim_agrees_with_the_standard_library() {
    for s in text_samples() {
        assert_eq!(trim(s), s.trim(), "{:?}", s);
    }
}

#[test]
fn split_once_cuts_at_the_first_occurrence() {
    assert_eq!(split_once("MATH 101L", ' '), Some(("MATH", "101L")));
    assert_eq!(split_once("a b c", ' '), Some(("a", "b c")));
    assert_eq!(split_once(" x", ' '), Some(("", "x")));
    assert_eq!(split_once("x ", ' '), Some(("x", "")));
    assert_eq!(split_once("é:汉", ':'), Some(("é", "汉")));
}

#[test]
fn split_once_without_the_delimiter_is_none() {
    assert_eq!(split_once("MATH101", ' '), None);
    assert_eq!(split_once("", ' '), None);
}

#[test]
fn split_once_agrees_with_the_standard_library() {
    for s in text_samples() {
        for c in [' ', ':', ';'] {
            assert_eq!(split_once(s, c), s.split_once(c), "{:?} at {:?}", s, c);
        }
    }
}

#[test]
fn split_keeps_empty_pieces() {
    assert_eq!(split("a;b;c", ';'), vec!["a", "b", "c"]);
    assert_eq!(split("", ';'), vec![""]);
    assert_eq!(split(";", ';'), vec!["", ""]);
    assert_eq!(split("a;", ';'), vec!["a", ""]);
    assert_eq!(split(";;a", ';'), vec!["", "", "a"]);
    assert_eq!(split("no delimiter", ';'), vec!["no delimiter"]);
}

#[test]
fn split_agrees_with_the_standard_library() {
    for s in text_samples() {
        for c in [' ', ':', ';'] {
            let expected: Vec<&str> = s.split(c).collect();
            assert_eq!(split(s, c), expected, "{:?} at {:?}", s, c);
        }
    }
}

#[test]
fn concat_runs_the_parts_together() {
    let parts = vec!["ab".to_string(), "".to_string(), " c".to_string(), "é".to_string()];
    assert_eq!(join(&parts), "ab cé");
    assert_eq!(join(&Vec::new()), "");
}

#[test]
fn parse_u32_reads_decimal_numbers() {
    assert_eq!(parse_u32("0"), Some(0));
    assert_eq!(parse_u32("5"), Some(5));
    assert_eq!(parse_u32("101"), Some(101));
    assert_eq!(parse_u32("007"), Some(7));
    assert_eq!(parse_u32("+42"), Some(42));
    assert_eq!(parse_u32("4294967295"), Some(4294967295));
    assert_eq!(parse_u32("0000000000004294967295"), Some(4294967295));
}

#[test]
fn parse_u32_rejects_everything_else() {
    assert_eq!(parse_u32(""), None);
    assert_eq!(parse_u32("+"), None);
    assert_eq!(parse_u32("-"), None);
    assert_eq!(parse_u32("-1"), None);
    assert_eq!(parse_u32("++1"), None);
    assert_eq!(parse_u32("1+"), None);
    assert_eq!(parse_u32(" 1"), None);
    assert_eq!(parse_u32("1 "), None);
    assert_eq!(parse_u32("1a"), None);
    assert_eq!(parse_u32("a1"), None);
    assert_eq!(parse_u32("1.0"), None);
    assert_eq!(parse_u32("4294967296"), None);
    assert_eq!(parse_u32("99999999999999999999999999"), None);
    assert_eq!(parse_u32("٣"), None);
    assert_eq!(parse_u32("１"), None);
}

#[test]
fn parse_u32_agrees_with_the_standard_library() {
    let samples = [
        "", "+", "-", "0", "+0", "-0", "1", "12", "+12", "-12", "4294967295", "4294967296",
        "42949672950", "00", "0x10", "1e3", "1_000", " 7", "7 ", "٣", "１２", "18446744073709551616",
        "+4294967295", "+4294967296", "3a", "a3", "++3", "+-3",
    ];
    for s in samples {
        assert_eq!(parse_u32(s), s.parse::<u32>().ok(), "{:?}", s);
    }
}

#[test]
fn eq_ignore_ascii_case_folds_ascii_letters_only() {
    assert!(eq_ignore_ascii_case("course-name", "Course-Name"));
    assert!(eq_ignore_ascii_case("genEd", "GENED"));
    assert!(eq_ignore_ascii_case("", ""));
    assert!(!eq_ignore_ascii_case("gen_ed", "gened"));
    assert!(!eq_ignore_ascii_case("a", "ab"));
    assert!(!eq_ignore_ascii_case("é", "É"));
    assert!(!eq_ignore_ascii_case("@", "`"));
    assert!(!eq_ignore_ascii_case("[", "{"));
}

#[test]
fn eq_ignore_ascii_case_agrees_with_the_standard_library() {
    let samples = ["", "a", "A", "z", "Z", "@", "`", "[", "{", "é", "É", "ab", "aB", "k", "K", "ſ"];
    for a in samples {
        for b in samples {
            assert_eq!(eq_ignore_ascii_case(a, b), a.eq_ignore_ascii_case(b), "{:?} {:?}", a, b);
        }
    }
}

#[test]
fn str_eq_compares_exactly() {
    assert!(str_eq("abc", "abc"));
    assert!(str_eq("", ""));
    assert!(!str_eq("abc", "abd"));
    assert!(!str_eq("abc", "ab"));
    assert!(!str_eq("abc", "ABC"));
}
