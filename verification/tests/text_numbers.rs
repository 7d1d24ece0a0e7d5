use napwatch::number::{decimal_chars, parse_i32, parse_u32, parse_u64, parse_u8, signed_decimal_chars};
use napwatch::text::{
    chars_before, chars_of, find_in, has_prefix, has_suffix, join_spaced, split_char, split_lines,
    split_words, trimmed,
};

fn cs(s: &str) -> Vec<char> {
    s.chars().collect()
}

fn strs(v: Vec<Vec<char>>) -> Vec<String> {
    v.into_iter().map(|c| c.into_iter().collect()).collect()
}

#[test]
fn lines_match_std() {
    for s in ["", "a", "a\n", "a\n\n", "a\r\nb", "a\r", "\n", "x\ny\r\n", "\r\n\r\n", "a\rb\n"] {
        let want: Vec<String> = s.lines().map(|l| l.to_string()).collect();
        assert_eq!(strs(split_lines(&cs(s))), want, "lines of {:?}", s);
    }
}

#[test]
fn words_match_std() {
    for s in ["", "  ", "a", " a  b\tc\n", "x\u{a0}y\u{3000}z", "a\u{200b}b"] {
        let want: Vec<String> = s.split_whitespace().map(|l| l.to_string()).collect();
        assert_eq!(strs(split_words(&cs(s))), want, "words of {:?}", s);
    }
}

#[test]
fn split_matches_std() {
    for s in ["", ";", "a;b;;c", ";x;"] {
        let want: Vec<String> = s.split(';').map(|l| l.to_string()).collect();
        assert_eq!(strs(split_char(&cs(s), ';')), want);
    }
}

#[test]
fn trim_matches_std() {
    for s in ["", "  ", " a b ", "\u{2028}x\u{85}", "abc"] {
        let t: String = trimmed(&cs(s)).into_iter().collect();
        assert_eq!(t, s.trim());
    }
}

#[test]
fn search_matches_std() {
    let s = cs("abcabc");
    assert_eq!(find_in(&s, &cs("ca")), Some(2));
    assert_eq!(find_in(&s, &cs("x")), None);
    assert_eq!(find_in(&s, &cs("")), Some(0));
    assert!(has_prefix(&s, &cs("abc")));
    assert!(!has_prefix(&s, &cs("b")));
    assert!(has_suffix(&s, &cs("bc")));
    assert!(!has_suffix(&cs("a"), &cs("ba")));
}

#[test]
fn join_with_spaces() {
    let ws = vec![cs("a"), cs("bb"), cs("c")];
    assert_eq!(join_spaced(&ws, 0, 3), cs("a bb c"));
    assert_eq!(join_spaced(&ws, 1, 2), cs("bb"));
    assert_eq!(join_spaced(&ws, 2, 2), cs(""));
}

#[test]
fn string_order_matches_std() {
    let pairs = [("a", "b"), ("a", "ab"), ("", "a"), ("b", "a"), ("ab", "ab"), ("é", "z"), ("z", "é")];
    for (a, b) in pairs {
        assert_eq!(chars_before(&cs(a), &cs(b)), a < b, "{:?} < {:?}", a, b);
    }
    // The order is strict.
    assert!(!chars_before(&cs("2024-05-01 10:00:00"), &cs("2024-05-01 10:00:00")));
}

#[test]
fn chars_of_keeps_unicode() {
    assert_eq!(chars_of("añ€"), vec!['a', 'ñ', '€']);
}

#[test]
fn parse_matches_std() {
    for s in ["0", "255", "256", "+7", "+", "-", "-0", "", "12a", "007", "4294967295", "4294967296", " 1"] {
        assert_eq!(parse_u8(&cs(s)), s.parse::<u8>().ok(), "u8 {:?}", s);
        assert_eq!(parse_u32(&cs(s)), s.parse::<u32>().ok(), "u32 {:?}", s);
        assert_eq!(parse_i32(&cs(s)), s.parse::<i32>().ok(), "i32 {:?}", s);
    }
    for s in ["18446744073709551615", "18446744073709551616", "-1", "+18446744073709551615"] {
        assert_eq!(parse_u64(&cs(s)), s.parse::<u64>().ok(), "u64 {:?}", s);
    }
    for s in ["-2147483648", "-2147483649", "2147483647", "2147483648", "-12"] {
        assert_eq!(parse_i32(&cs(s)), s.parse::<i32>().ok(), "i32 {:?}", s);
    }
}

#[test]
fn decimal_matches_to_string() {
    for n in [0u64, 7, 10, 99, 100, 4294967295, u64::MAX] {
        assert_eq!(decimal_chars(n), cs(&n.to_string()));
    }
    for n in [0i64, -1, -20, 19, i64::MAX, i64::MIN + 1] {
        assert_eq!(signed_decimal_chars(n), cs(&n.to_string()));
    }
}

#[test]
fn decimal_parses_back() {
    for n in [0u32, 5, 123, u32::MAX] {
        assert_eq!(parse_u32(&decimal_chars(n as u64)), Some(n));
    }
}
