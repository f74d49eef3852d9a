use netutils::text::{
    chars_of, contains, decimal_string, lines, parse_u16, parse_u32, split_at_most, trim,
};

fn cs(s: &str) -> Vec<char> {
    s.chars().collect()
}

fn strs(v: Vec<Vec<char>>) -> Vec<String> {
    v.into_iter().map(|l| l.into_iter().collect()).collect()
}

#[test]
fn lines_follow_str_lines() {
    for text in ["", "a", "a\n", "a\r\nb", "a\n\nb\n", "\n", "x\r", "a\rb\n"] {
        let expected: Vec<String> = text.lines().map(|l| l.to_string()).collect();
        assert_eq!(strs(lines(&cs(text))), expected, "{:?}", text);
    }
}

#[test]
fn split_at_most_follows_splitn() {
    for (text, n) in [("a|b|c", 2usize), ("a|b|c", 7), ("", 3), ("||", 2), ("abc", 1), ("a|b", 0)] {
        let expected: Vec<String> = text.splitn(n, '|').map(|l| l.to_string()).collect();
        assert_eq!(strs(split_at_most(&cs(text), n, '|')), expected);
    }
}

#[test]
fn trim_follows_str_trim() {
    for text in ["", "  a b  ", "\t\u{3000}x\u{a0}", "   ", "ab"] {
        let t: String = trim(&cs(text)).into_iter().collect();
        assert_eq!(t, text.trim());
    }
}

#[test]
fn parse_numbers_follow_str_parse() {
    for text in ["0", "25", "+7", "+", "", "-1", "4294967295", "4294967296", "12a", "007"] {
        assert_eq!(parse_u32(&cs(text)), text.parse::<u32>().ok(), "{:?}", text);
    }
    for text in ["65535", "65536", "443", "x"] {
        assert_eq!(parse_u16(&cs(text)), text.parse::<u16>().ok());
    }
}

#[test]
fn decimal_string_follows_display() {
    for n in [0u32, 7, 10, 4096, u32::MAX] {
        assert_eq!(decimal_string(n), n.to_string());
    }
}

#[test]
fn substring_search() {
    assert!(contains(&cs("Intel(R) Ethernet"), &cs("Ether")));
    assert!(!contains(&cs("wlan"), &cs("wlan0")));
    assert!(contains(&cs("x"), &cs("")));
    assert_eq!(chars_of("以太网"), vec!['以', '太', '网']);
}
