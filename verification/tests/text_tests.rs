use idm_rs::text::{contains_text, parse_u64, push_decimal, same_text};

#[test]
fn parse_plain_numbers() {
    assert_eq!(parse_u64("0"), Some(0));
    assert_eq!(parse_u64("120"), Some(120));
    assert_eq!(parse_u64("007"), Some(7));
    assert_eq!(parse_u64("+42"), Some(42));
    assert_eq!(parse_u64("18446744073709551615"), Some(u64::MAX));
}

#[test]
fn parse_rejects_what_std_rejects() {
    for s in ["", "+", "-1", " 1", "1 ", "12a", "18446744073709551616", "Wed, 21 Oct 2015 07:28:00 GMT", "++1"] {
        assert_eq!(parse_u64(s), s.parse::<u64>().ok(), "input {s:?}");
        assert_eq!(parse_u64(s), None);
    }
}

#[test]
fn parse_agrees_with_std_on_samples() {
    for s in ["1", "+0", "99999999999999999999", "٣", "1_000", "4294967296"] {
        assert_eq!(parse_u64(s), s.parse::<u64>().ok(), "input {s:?}");
    }
}

#[test]
fn decimal_formatting_matches_display() {
    for n in [0u64, 9, 10, 1234567890, u64::MAX] {
        let mut s = String::from(">");
        push_decimal(&mut s, n);
        assert_eq!(s, format!(">{n}"));
    }
}

#[test]
fn substring_search() {
    assert!(contains_text("none, bytes", "bytes"));
    assert!(contains_text("abc", ""));
    assert!(!contains_text("byte", "bytes"));
    assert!(!contains_text("", "a"));
    assert!(contains_text("grüße aus köln", "köln"));
}

#[test]
fn text_equality() {
    assert!(same_text("done", "done"));
    assert!(!same_text("done", "Done"));
    assert!(!same_text("done", "done "));
}
