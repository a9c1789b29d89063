use rush::text::{decimal, join, parse_usize, split_lines};

#[test]
fn decimal_formatting() {
    assert_eq!(decimal(0), "0");
    assert_eq!(decimal(7), "7");
    assert_eq!(decimal(10), "10");
    assert_eq!(decimal(1234567890), "1234567890");
    assert_eq!(decimal(usize::MAX), usize::MAX.to_string());
}

#[test]
fn parse_usize_like_std() {
    for s in ["0", "42", "+7", "007", "", "+", "-1", "4a", " 4", "18446744073709551615", "18446744073709551616", "99999999999999999999999"] {
        assert_eq!(parse_usize(s), s.parse::<usize>().ok(), "input {:?}", s);
    }
}

#[test]
fn lines_like_std() {
    for s in ["", "a", "a\n", "a\nb", "a\r\nb\r\n", "\n", "\n\n", "x\r", "foo\nbar\n\r\nbaz\r", "a\rb\n"] {
        let expected: Vec<String> = s.lines().map(|l| l.to_string()).collect();
        assert_eq!(split_lines(s), expected, "input {:?}", s);
    }
}

#[test]
fn join_with_separator() {
    let v: Vec<String> = vec!["a".to_string(), "b".to_string(), "c".to_string()];
    assert_eq!(join(&v, ", "), "a, b, c");
    assert_eq!(join(&v[..1], ", "), "a");
    assert_eq!(join(&v[..0], ", "), "");
}
