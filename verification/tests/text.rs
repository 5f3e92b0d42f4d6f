use guild_node::text::{parse_number, split_list, str_contains, str_equal};

#[test]
fn parse_number_reads_decimals_up_to_a_limit() {
    assert_eq!(parse_number("0", 10), Some(0));
    assert_eq!(parse_number("10", 10), Some(10));
    assert_eq!(parse_number("11", 10), None);
    assert_eq!(parse_number("+7", 10), Some(7));
    assert_eq!(parse_number("007", 10), Some(7));
    assert_eq!(parse_number("", 10), None);
    assert_eq!(parse_number("+", 10), None);
    assert_eq!(parse_number("-1", 10), None);
    assert_eq!(parse_number("1_0", 100), None);
    assert_eq!(parse_number("1 ", 100), None);
    assert_eq!(parse_number("++1", 100), None);
    assert_eq!(parse_number("١", 100), None);
    assert_eq!(parse_number("18446744073709551615", u64::MAX), Some(u64::MAX));
    assert_eq!(parse_number("18446744073709551616", u64::MAX), None);
    assert_eq!(parse_number("99999999999999999999999999999999", u64::MAX), None);
    for s in ["0", "42", "+42", "65535", "65536", "", "x", "4x", "00000000000000000000001"] {
        assert_eq!(parse_number(s, 65535), s.parse::<u16>().ok().map(u64::from), "{}", s);
    }
}

#[test]
fn split_list_agrees_with_split_trim_filter() {
    for s in [
        "",
        ",",
        "a",
        " a ",
        "a,b",
        "a, b ,c",
        ",,a,,b,,",
        "  ,\t\n, x y ,",
        "\u{2003}em\u{2003},\u{85}next\u{85}",
        "ünï,çødé",
    ] {
        let expected: Vec<String> = s
            .split(',')
            .filter(|p| !p.trim().is_empty())
            .map(|p| p.trim().to_string())
            .collect();
        assert_eq!(split_list(s), expected, "{:?}", s);
    }
}

#[test]
fn str_contains_finds_substrings() {
    assert!(str_contains("Address already in use (os error 98)", "Address already in use"));
    assert!(str_contains("abc", ""));
    assert!(str_contains("", ""));
    assert!(!str_contains("", "a"));
    assert!(!str_contains("ab", "abc"));
    assert!(str_contains("xxabc", "abc"));
    assert!(str_contains("añb", "ñ"));
    assert!(!str_contains("closed", "Closed"));
    for (h, n) in [("hello world", "o w"), ("hello", "lo"), ("hello", "ol"), ("aaa", "aa")] {
        assert_eq!(str_contains(h, n), h.contains(n));
    }
}

#[test]
fn str_equal_compares_texts() {
    assert!(str_equal("--port", "--port"));
    assert!(!str_equal("--port", "--por"));
    assert!(!str_equal("-p", "-P"));
    assert!(str_equal("", ""));
}
