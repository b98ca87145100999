use pwatch::number::{decimal_string, parse_u16_radix, parse_u32, parse_u64, push_decimal};
use pwatch::text::{
    after_last_char, chars_of, contains_chars, is_whitespace, push_str, replace_nul_with_space,
    split_fields, split_lines, string_from_chars, sub_chars, to_string, trim_chars, trim_str,
};

fn cs(s: &str) -> Vec<char> {
    s.chars().collect()
}

fn words(v: Vec<Vec<char>>) -> Vec<String> {
    v.into_iter().map(|w| w.into_iter().collect()).collect()
}

#[test]
fn chars_of_keeps_order() {
    assert_eq!(chars_of("aé\u{3000}b"), vec!['a', 'é', '\u{3000}', 'b']);
    assert_eq!(chars_of(""), Vec::<char>::new());
}

#[test]
fn string_from_chars_and_to_string() {
    assert_eq!(string_from_chars(&['p', 'w']), "pw");
    assert_eq!(to_string("ポート"), "ポート");
    let mut s = String::from("a");
    push_str(&mut s, "bc");
    assert_eq!(s, "abc");
}

#[test]
fn whitespace_is_unicode_white_space() {
    for c in ['\t', '\n', '\u{b}', '\u{c}', '\r', ' ', '\u{85}', '\u{a0}', '\u{1680}', '\u{2000}',
        '\u{200a}', '\u{2028}', '\u{2029}', '\u{202f}', '\u{205f}', '\u{3000}'] {
        assert!(is_whitespace(c), "{:?}", c);
        assert_eq!(is_whitespace(c), c.is_whitespace());
    }
    for c in ['a', '0', '\u{200b}', '\u{feff}', '_', '\0'] {
        assert!(!is_whitespace(c), "{:?}", c);
        assert_eq!(is_whitespace(c), c.is_whitespace());
    }
}

#[test]
fn trim_matches_str_trim() {
    for s in ["  node \n", "\u{3000}x y\u{a0}", "", "   ", "abc", "\tmixed\t\r\n"] {
        assert_eq!(trim_str(s), s.trim());
        assert_eq!(trim_chars(&cs(s)), cs(s.trim()));
    }
}

#[test]
fn trim_twice_is_trim_once() {
    let s = "  \u{2003}value\t ";
    let once = trim_str(s);
    assert_eq!(trim_str(&once), once);
}

#[test]
fn split_fields_matches_split_whitespace() {
    for s in ["  0: 0100007F:1F90  0A ", "", "   ", "a", "a\u{3000}b\tc\n d"] {
        let expected: Vec<String> = s.split_whitespace().map(String::from).collect();
        assert_eq!(words(split_fields(&cs(s))), expected);
    }
}

#[test]
fn split_lines_matches_str_lines() {
    for s in ["a\nb", "a\nb\n", "a\r\nb\r\n", "", "\n", "\n\n", "a\r", "a\rb\n", "x\r\r\ny"] {
        let expected: Vec<String> = s.lines().map(String::from).collect();
        assert_eq!(words(split_lines(&cs(s))), expected, "{:?}", s);
    }
}

#[test]
fn after_last_char_matches_rsplit() {
    for s in ["0100007F:1F90", "*:8080", "[::1]:3000", "nocolon", "", "trailing:"] {
        let expected: Vec<char> = s.rsplit(':').next().unwrap().chars().collect();
        assert_eq!(after_last_char(&cs(s), ':'), expected);
    }
}

#[test]
fn contains_chars_matches_str_contains() {
    let hay = "python3 -m http.server 8000";
    for needle in ["", "http", "8000", "server 8", "nginx", "python3 -m http.server 8000 ", "3"] {
        assert_eq!(contains_chars(&cs(hay), &cs(needle)), hay.contains(needle), "{:?}", needle);
    }
    assert!(contains_chars(&[], &[]));
    assert!(!contains_chars(&[], &['a']));
}

#[test]
fn nul_becomes_space() {
    assert_eq!(replace_nul_with_space("node\0server.js\0"), cs("node server.js "));
}

#[test]
fn sub_chars_takes_a_range() {
    assert_eq!(sub_chars(&cs("socket:[42]"), 8, 10), cs("42"));
}

#[test]
fn hex_ports_parse_like_from_str_radix() {
    for s in ["1F90", "1f90", "0050", "FFFF", "+1F", "0", "10000", "", "+", "-1", "1G", " 50"] {
        assert_eq!(parse_u16_radix(&cs(s), 16), u16::from_str_radix(s, 16).ok(), "{:?}", s);
    }
    assert_eq!(parse_u16_radix(&cs("1F90"), 16), Some(8080));
}

#[test]
fn decimal_numbers_parse_like_str_parse() {
    for s in ["12345", "0", "+7", "18446744073709551615", "18446744073709551616", "", "1a", "-3"] {
        assert_eq!(parse_u64(&cs(s)), s.parse::<u64>().ok(), "{:?}", s);
    }
    for s in ["4294967295", "4294967296", "1234", "007"] {
        assert_eq!(parse_u32(&cs(s)), s.parse::<u32>().ok(), "{:?}", s);
    }
    assert_eq!(parse_u16_radix(&cs("65536"), 10), None);
    assert_eq!(parse_u16_radix(&cs("3000"), 10), Some(3000));
}

#[test]
fn decimal_text_matches_to_string() {
    for n in [0u64, 7, 10, 8080, 65535, 4294967295, u64::MAX] {
        assert_eq!(decimal_string(n), n.to_string());
    }
    let mut s = String::from("PID ");
    push_decimal(&mut s, 42);
    assert_eq!(s, "PID 42");
}

#[test]
fn decimal_text_reads_back() {
    for n in [0u32, 9, 10, 99, 100, 4294967295] {
        let text = decimal_string(n as u64);
        assert_eq!(parse_u32(&cs(&text)), Some(n));
    }
}
