use cyberdeckstr::text::{
    clean_content, decimal_string, parse_u64_text, parse_u8_text, split_lines, split_words,
    to_chars, trim_chars, wrap_message,
};

fn chars(s: &str) -> Vec<char> {
    s.chars().collect()
}

fn words(s: &str) -> Vec<String> {
    split_words(&chars(s)).into_iter().map(|w| w.into_iter().collect()).collect()
}

#[test]
fn clean_content_strips_controls_but_keeps_newlines_and_tabs() {
    assert_eq!(clean_content("a\u{1b}[31mb\tc\nd\u{7f}\u{85}e\r"), "a[31mb\tc\nde");
}

#[test]
fn clean_content_keeps_plain_text() {
    assert_eq!(clean_content("gm nostr ⚡"), "gm nostr ⚡");
    assert_eq!(clean_content(""), "");
}

#[test]
fn clean_content_is_idempotent() {
    let once = clean_content("x\u{0}y\u{9f}z\n");
    assert_eq!(clean_content(&once), once);
}

#[test]
fn split_lines_follows_str_lines() {
    for text in ["", "a", "a\n", "a\nb", "a\r\nb\r\n", "\n\nx", "a\rb", "end\r"] {
        let expected: Vec<String> = text.lines().map(|l| l.to_string()).collect();
        assert_eq!(split_lines(text), expected, "text {:?}", text);
    }
}

#[test]
fn split_words_follows_split_whitespace() {
    for text in ["", "  ", "cpu  1 2\t3", " a\u{a0}b\u{3000}c ", "one"] {
        let expected: Vec<String> = text.split_whitespace().map(|w| w.to_string()).collect();
        assert_eq!(words(text), expected, "text {:?}", text);
    }
}

#[test]
fn trim_follows_str_trim() {
    for text in ["", "  x ", "\n 42\n", "a b", "\u{2003}y\u{2003}"] {
        let t: String = trim_chars(&chars(text)).into_iter().collect();
        assert_eq!(t, text.trim());
    }
}

#[test]
fn to_chars_keeps_order() {
    assert_eq!(to_chars("héllo"), vec!['h', 'é', 'l', 'l', 'o']);
}

#[test]
fn parse_u64_follows_str_parse() {
    for text in ["0", "42", "+7", "+", "-1", "", "12a", "18446744073709551615", "18446744073709551616", "007"] {
        assert_eq!(parse_u64_text(&chars(text)), text.parse::<u64>().ok(), "text {:?}", text);
    }
}

#[test]
fn parse_u8_follows_str_parse() {
    for text in ["0", "100", "255", "256", "+9", "x"] {
        assert_eq!(parse_u8_text(&chars(text)), text.parse::<u8>().ok(), "text {:?}", text);
    }
}

#[test]
fn decimal_string_matches_to_string() {
    for n in [0u64, 7, 10, 99, 12345, u64::MAX] {
        assert_eq!(decimal_string(n), n.to_string());
    }
}

#[test]
fn wrap_message_wraps_each_line() {
    let lines = wrap_message("hello world", 5);
    assert_eq!(lines, vec!["hello".to_string(), "world".to_string()]);
}

#[test]
fn wrap_message_keeps_empty_lines() {
    let lines = wrap_message("one two three\n\nfour", 7);
    assert_eq!(lines, vec!["one two", "three", "", "four"]);
}

#[test]
fn wrap_message_of_empty_text_has_no_lines() {
    assert!(wrap_message("", 10).is_empty());
}

#[test]
fn url_runs_split_urls_from_text() {
    let runs = cyberdeckstr::text::url_runs("see https://a.b/c and http://x.y");
    let expected = vec![
        ("see ".to_string(), false),
        ("https://a.b/c".to_string(), true),
        (" and ".to_string(), false),
        ("http://x.y".to_string(), true),
    ];
    assert_eq!(runs, expected);
}

#[test]
fn url_runs_without_urls_or_text() {
    assert_eq!(cyberdeckstr::text::url_runs("plain words"), vec![("plain words".to_string(), false)]);
    assert!(cyberdeckstr::text::url_runs("").is_empty());
    assert_eq!(cyberdeckstr::text::url_runs("http:/ no"), vec![("http:/ no".to_string(), false)]);
    assert_eq!(cyberdeckstr::text::url_runs("https://z"), vec![("https://z".to_string(), true)]);
}
