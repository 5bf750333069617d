use board_server::text::{
    chars_of, decimal_string, parse_unsigned_chars, split_chars, string_of, text_is, trim_bounds,
    white_space,
};

#[test]
fn white_space_matches_std() {
    for u in 0u32..=0x10ffff {
        if let Some(c) = char::from_u32(u) {
            assert_eq!(white_space(c), c.is_whitespace(), "{:x}", u);
        }
    }
}

#[test]
fn trim_matches_std() {
    for s in ["", " ", "a", " a ", "\t\na b\r\n", "\u{3000}x\u{85}", "  ab  cd  "] {
        let v = chars_of(s);
        let (lo, hi) = trim_bounds(&v);
        assert_eq!(string_of(&v, lo, hi), s.trim());
    }
}

#[test]
fn split_matches_std() {
    for s in ["", ",", "a", "a,b", ",a,", "a,,b", "x:y,z"] {
        let v = chars_of(s);
        let got = split_chars(&v, 0, v.len(), ',');
        let want: Vec<String> = s.split(',').map(|p| p.to_string()).collect();
        assert_eq!(got, want);
    }
}

fn parse_u32(s: &str) -> Option<u64> {
    let v = chars_of(s);
    parse_unsigned_chars(&v, 0, v.len(), u32::MAX as u64)
}

#[test]
fn unsigned_parse_matches_std() {
    for s in [
        "0", "7", "+7", "007", "-0", "-1", "+", "-", "", " 1", "1 ", "1_0", "++1", "4294967295",
        "4294967296", "99999999999999999999999", "12a", "٣",
    ] {
        assert_eq!(parse_u32(s), s.parse::<u32>().ok().map(|n| n as u64), "{:?}", s);
    }
}

#[test]
fn unsigned_parse_usize_bound() {
    let max = usize::MAX.to_string();
    let v = chars_of(&max);
    assert_eq!(parse_unsigned_chars(&v, 0, v.len(), usize::MAX as u64), Some(usize::MAX as u64));
    let over = format!("{}0", max);
    let v = chars_of(&over);
    assert_eq!(parse_unsigned_chars(&v, 0, v.len(), usize::MAX as u64), None);
}

#[test]
fn decimal_matches_std() {
    for n in [0u64, 1, 9, 10, 11, 99, 100, 12345, u32::MAX as u64, u64::MAX] {
        assert_eq!(decimal_string(n), n.to_string());
    }
}

#[test]
fn decimal_reads_back() {
    for n in [0u64, 5, 42, 4294967295] {
        let s = decimal_string(n);
        assert_eq!(parse_u32(&s), Some(n));
    }
}

#[test]
fn text_equality() {
    assert!(text_is(&"log".to_string(), "log"));
    assert!(!text_is(&"lo".to_string(), "log"));
    assert!(!text_is(&"loh".to_string(), "log"));
}
