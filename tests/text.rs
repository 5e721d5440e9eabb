use tiny_mapping::text::{is_text, lines_of, parse_usize, split_chars, string_of, to_chars};

fn chars(s: &str) -> Vec<char> {
    s.chars().collect()
}

fn strings(v: Vec<Vec<char>>) -> Vec<String> {
    v.into_iter().map(|p| p.into_iter().collect()).collect()
}

#[test]
fn split_keeps_empty_pieces() {
    assert_eq!(strings(split_chars(&chars("a\t\tb\t"), '\t')), vec!["a", "", "b", ""]);
    assert_eq!(strings(split_chars(&chars(""), '\t')), vec![""]);
}

#[test]
fn lines_follow_str_lines() {
    let text = "one\r\ntwo\n\nthree\r";
    let expected: Vec<&str> = text.lines().collect();
    assert_eq!(strings(lines_of(&chars(text))), expected);
    assert_eq!(strings(lines_of(&chars("a\n"))), vec!["a"]);
    assert!(lines_of(&chars("")).is_empty());
}

#[test]
fn usize_parsing_follows_from_str() {
    for s in ["0", "42", "+7", "007", "", "+", "-1", "1a", " 1", "18446744073709551615", "18446744073709551616"] {
        assert_eq!(parse_usize(&chars(s)), s.parse::<usize>().ok(), "{s}");
    }
}

#[test]
fn char_conversions() {
    assert_eq!(to_chars("bär"), vec!['b', 'ä', 'r']);
    assert_eq!(string_of(&chars("abcdef"), 1, 4), "bcd");
    assert!(is_text(&chars("tiny"), "tiny"));
    assert!(!is_text(&chars("tin"), "tiny"));
    assert!(!is_text(&chars("tinY"), "tiny"));
}
