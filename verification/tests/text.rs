use gameshare::text::{
    chars_of, contains, decimal_int_text, decimal_text, is_whitespace, matches_at, parse_int,
    push_decimal, text_between, trim, IntError,
};

#[test]
fn white_space_is_what_std_says() {
    for code in 0..=0x10_ffffu32 {
        if let Some(c) = char::from_u32(code) {
            assert_eq!(is_whitespace(c), c.is_whitespace(), "{code:x}");
        }
    }
}

#[test]
fn trimming_is_what_std_does() {
    for s in ["", " ", "a", " a b\u{3000}", "\u{a0}\u{2003}x\n", "\u{200b}x\u{200b}", "\t\r\n"] {
        assert_eq!(trim(s), s.trim());
    }
}

#[test]
fn numbers_are_written_as_std_writes_them() {
    for n in [0u64, 7, 10, 9001, 1_000_000, u64::MAX] {
        assert_eq!(decimal_text(n), n.to_string());
    }
    for n in [0i64, -1, 42, i64::MIN, i64::MAX] {
        assert_eq!(decimal_int_text(n), n.to_string());
    }
    let mut s = "port ".to_string();
    push_decimal(&mut s, 80);
    assert_eq!(s, "port 80");
}

#[test]
fn numbers_are_read_as_std_reads_them() {
    let texts = [
        "", "+", "-", "0", "-0", "+0", "00", "7", "-7", "+7", "127", "128", "-128", "-129", "1a",
        "--1", "+-1", " 1", "1 ", "999999999999999999999999999999", "-99999999999999999999", "٣",
    ];
    for s in texts {
        let v = chars_of(s);
        let read = parse_int(&v, 0, v.len(), i8::MIN as i128, i8::MAX as i128);
        match (read, s.parse::<i8>()) {
            (Ok(a), Ok(b)) => assert_eq!(a, b as i128),
            (Err(a), Err(b)) => assert_eq!(a.to_string(), b.to_string(), "{s}"),
            _ => panic!("{s}"),
        }
        let read = parse_int(&v, 0, v.len(), 0, u8::MAX as i128);
        match (read, s.parse::<u8>()) {
            (Ok(a), Ok(b)) => assert_eq!(a, b as i128),
            (Err(a), Err(b)) => assert_eq!(a.to_string(), b.to_string(), "{s}"),
            _ => panic!("{s}"),
        }
    }
}

#[test]
fn number_errors_have_words() {
    assert_eq!(IntError::Empty.to_string(), "cannot parse integer from empty string");
    assert_eq!(IntError::InvalidDigit.to_string(), "invalid digit found in string");
    assert_eq!(
        IntError::PosOverflow.to_string(),
        "number too large to fit in target type"
    );
    assert_eq!(
        IntError::NegOverflow.to_string(),
        "number too small to fit in target type"
    );
}

#[test]
fn written_numbers_read_back() {
    for n in [0i64, 1, -1, 31337, i64::MIN, i64::MAX] {
        let v = chars_of(&decimal_int_text(n));
        let read = parse_int(&v, 0, v.len(), i64::MIN as i128, i64::MAX as i128);
        assert!(matches!(read, Ok(m) if m == n as i128));
    }
}

#[test]
fn pieces_of_text() {
    let v = chars_of("a×b—c");
    assert_eq!(v, vec!['a', '×', 'b', '—', 'c']);
    assert_eq!(text_between(&v, 1, 4), "×b—");
    assert_eq!(text_between(&v, 2, 2), "");
    assert!(matches_at(&v, &vec!['b', '—'], 2));
    assert!(!matches_at(&v, &vec!['b', '—'], 1));
    assert!(!matches_at(&v, &vec!['c', 'd'], 4));
}

#[test]
fn searching_is_what_std_does() {
    for (s, needle) in [("", ""), ("abc", ""), ("abc", "c"), ("abc", "bd"), ("aab", "ab"), ("a", "aa")] {
        assert_eq!(contains(s, needle), s.contains(needle));
    }
}
