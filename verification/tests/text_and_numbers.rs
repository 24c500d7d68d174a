use storage_daemon::named_map::NamedMap;
use storage_daemon::num::{decimal_string, parse_i32_chars, parse_u32_chars, parse_u64_chars, signed_decimal_string};
use storage_daemon::text::{chars_of, lines_of_str, split_on, string_from, trim_str, words_of_str};

fn chars(s: &str) -> Vec<char> {
    s.chars().collect()
}

fn line_strings(s: &str) -> Vec<String> {
    lines_of_str(s).iter().map(|l| l.iter().collect()).collect()
}

#[test]
fn lines_follow_str_lines() {
    for text in ["", "a", "a\n", "a\r\nb\n\nc\r", "\n", "x\n\n", "a\rb\nc"] {
        let expected: Vec<String> = text.lines().map(String::from).collect();
        assert_eq!(line_strings(text), expected, "lines of {:?}", text);
    }
}

#[test]
fn words_follow_split_whitespace() {
    for text in ["", "  ", "a b", "  eth0:  12 34\t56 \n", "x\u{a0}y\u{2003}z"] {
        let expected: Vec<String> = text.split_whitespace().map(String::from).collect();
        assert_eq!(words_of_str(text), expected, "words of {:?}", text);
    }
}

#[test]
fn split_keeps_empty_pieces() {
    let parts = split_on(&chars("a::b:"), ':');
    let parts: Vec<String> = parts.iter().map(|p| p.iter().collect()).collect();
    assert_eq!(parts, vec!["a", "", "b", ""]);
    assert_eq!(split_on(&chars(""), ':').len(), 1);
}

#[test]
fn trim_removes_unicode_whitespace() {
    assert_eq!(trim_str("  host-1\n"), "host-1");
    assert_eq!(trim_str("\u{3000}x y\t"), "x y");
    assert_eq!(trim_str(" \n "), "");
}

#[test]
fn unsigned_parsing_matches_str_parse() {
    for text in ["0", "+5", "-5", "", "+", "007", "18446744073709551615", "18446744073709551616", "12a", " 1"] {
        assert_eq!(parse_u64_chars(&chars(text)), text.parse::<u64>().ok(), "u64 {:?}", text);
        assert_eq!(parse_u32_chars(&chars(text)), text.parse::<u32>().ok(), "u32 {:?}", text);
    }
    assert_eq!(parse_u32_chars(&chars("4294967296")), None);
}

#[test]
fn signed_parsing_matches_str_parse() {
    for text in ["-2147483648", "2147483647", "2147483648", "-2147483649", "-0", "+12", "-", "-+1", "1234\n"] {
        assert_eq!(parse_i32_chars(&chars(text)), text.parse::<i32>().ok(), "i32 {:?}", text);
    }
}

#[test]
fn chars_roundtrip() {
    let v = chars_of("grüße");
    assert_eq!(string_from(&v), "grüße");
}

#[test]
fn named_map_orders_and_replaces() {
    let mut m: NamedMap<u32> = NamedMap::new();
    m.insert("sdb".to_string(), 2);
    m.insert("sda".to_string(), 1);
    m.insert("nvme0n1".to_string(), 3);
    m.insert("sdb".to_string(), 20);
    let names: Vec<&str> = m.entries().iter().map(|(n, _)| n.as_str()).collect();
    assert_eq!(names, vec!["nvme0n1", "sda", "sdb"]);
    assert_eq!(m.get("sdb"), Some(&20));
    assert_eq!(m.get("sdc"), None);
    assert_eq!(m.len(), 3);
    assert_eq!(m.take("sda"), Some(1));
}

#[test]
fn decimal_follows_display() {
    for n in [0u64, 7, 10, 99, 100, 4242, u64::MAX] {
        assert_eq!(decimal_string(n), n.to_string());
        assert_eq!(parse_u64_chars(&chars(&decimal_string(n))), Some(n));
    }
    for n in [0i32, 5, -5, 1000, i32::MIN, i32::MAX] {
        assert_eq!(signed_decimal_string(n), n.to_string());
    }
}
