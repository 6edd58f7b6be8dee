use binglish::text::{chars_of, parse_u64, push_decimal, split_chars, string_of, trim_chars};

fn cs(s: &str) -> Vec<char> {
    s.chars().collect()
}

#[test]
fn parse_like_std() {
    for s in ["0", "42", "+7", "18446744073709551615", "", "+", "-1", " 1", "1 ", "18446744073709551616", "12a"] {
        assert_eq!(parse_u64(&cs(s)), s.parse::<u64>().ok(), "{:?}", s);
    }
}

#[test]
fn decimal_notation() {
    for n in [0u64, 9, 10, 123, 1000, u64::MAX] {
        let mut out = String::from("n=");
        push_decimal(&mut out, n);
        assert_eq!(out, format!("n={}", n));
    }
}

#[test]
fn trim_like_std() {
    for s in ["  a b  ", "\t\n x\u{3000}", "", "   ", "abc", "\u{a0}y\u{2003}"] {
        assert_eq!(string_of(&trim_chars(&cs(s))), s.trim());
    }
}

#[test]
fn split_like_std() {
    for s in ["a;b;c", ";", "", "abc;", ";;x"] {
        let parts: Vec<String> = split_chars(&cs(s), ';').iter().map(|p| string_of(p)).collect();
        let expected: Vec<String> = s.split(';').map(|p| p.to_string()).collect();
        assert_eq!(parts, expected);
    }
}

#[test]
fn chars_round_trip() {
    let s = "中文 and English";
    assert_eq!(string_of(&chars_of(s)), s);
}
