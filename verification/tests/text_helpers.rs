use vibe_monitor::text::{lines, parse_i64, split_on, trim};

#[test]
fn trim_follows_unicode_white_space() {
    assert_eq!(trim("\u{3000} a b \t\n"), "a b");
    assert_eq!(trim("\u{200b}x"), "\u{200b}x");
    assert_eq!(trim(""), "");
}

#[test]
fn lines_match_str_lines() {
    for text in ["", "a", "a\n", "a\r\nb", "a\rb\n", "\n\n", "x\r", "a\n\nb\r\n"] {
        let expected: Vec<&str> = text.lines().collect();
        assert_eq!(lines(text), expected, "{text:?}");
    }
    assert_eq!(split_on("a,,b", ','), vec!["a", "", "b"]);
}

#[test]
fn parse_i64_matches_str_parse() {
    for text in ["0", "+7", "-12", "9223372036854775807", "-9223372036854775808", "9223372036854775808", "", "-", "+", "1 ", "x1", "00042", "99999999999999999999999"] {
        assert_eq!(parse_i64(text), text.parse::<i64>().ok(), "{text:?}");
    }
}
