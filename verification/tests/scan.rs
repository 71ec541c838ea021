use runs::parser::take_until_and_consume;
use runs::scan::{
    copy_range, decimal_at_most, decimal_below, find, find_byte, has_at, is_blank,
    is_float, replace, skip_whitespace, tag, trim, trim_end, trimmed_slice, unsigned,
};

#[test]
fn scan_finds_the_first_occurrence() {
    let hay = b"abcabcab";
    assert_eq!(find(hay, b"abc", 0), Some(0));
    assert_eq!(find(hay, b"abc", 1), Some(3));
    assert_eq!(find(hay, b"abc", 4), None);
    assert_eq!(find(hay, b"ab", 6), Some(6));
    assert_eq!(find(hay, b"", 3), Some(3));
    assert_eq!(find(hay, b"", 8), Some(8));
    assert_eq!(find(hay, b"", 9), None);
    assert_eq!(find(hay, b"abcabcabc", 0), None);
    assert_eq!(find_byte(hay, b'c', 0), Some(2));
    assert_eq!(find_byte(hay, b'c', 3), Some(5));
    assert_eq!(find_byte(hay, b'c', 6), None);
    assert_eq!(find_byte(hay, b'c', 100), None);
    assert!(has_at(hay, b"cab", 2));
    assert!(!has_at(hay, b"cab", 3));
    assert!(!has_at(hay, b"ab", 7));
    assert!(has_at(hay, b"", 8));
    assert!(!has_at(hay, b"", 9));
    assert_eq!(tag(hay, b"bca", 1), Some(4));
    assert_eq!(tag(hay, b"bca", 0), None);
    assert_eq!(take_until_and_consume(hay, b"ca", 0), Some((2, 4)));
    assert_eq!(take_until_and_consume(hay, b"ca", 3), Some((5, 7)));
    assert_eq!(take_until_and_consume(hay, b"ca", 6), None);

}

#[test]
fn scan_trims_white_space() {
    let hay = b" \t x y \r\n";
    assert_eq!(skip_whitespace(hay, 0), 3);
    assert_eq!(skip_whitespace(hay, 4), 5);
    assert_eq!(skip_whitespace(hay, 9), 9);
    assert_eq!(trim(hay, 0, hay.len()), (3, 6));
    assert_eq!(trim(hay, 0, 3), (3, 3));
    assert_eq!(trim_end(hay, 0, hay.len()), 6);
    assert_eq!(trim_end(hay, 7, hay.len()), 7);
    assert_eq!(trimmed_slice(hay), b"x y");
    assert_eq!(trimmed_slice(b"   "), b"");
    assert_eq!(trimmed_slice(b""), b"");
    assert!(is_blank(b"   "));
    assert!(is_blank(b""));
    assert!(!is_blank(b" \t"));
    assert_eq!(copy_range(hay, 3, 6), b"x y".to_vec());
}

#[test]
fn scan_reads_numbers() {
    assert_eq!(decimal_below(b"65535", 65536), Some(65535));
    assert_eq!(decimal_below(b"65536", 65536), None);
    assert_eq!(decimal_below(b"0", 1), Some(0));
    assert_eq!(decimal_below(b"0", 0), None);
    assert_eq!(decimal_below(b"", 10), None);
    assert_eq!(decimal_below(b"1x", 10), None);
    assert_eq!(decimal_at_most(b"18446744073709551615", u64::MAX), Some(u64::MAX));
    assert_eq!(decimal_at_most(b"18446744073709551616", u64::MAX), None);
    assert_eq!(decimal_at_most(b"000000000000000000000000000012", 12), Some(12));
    assert_eq!(unsigned(b"+12", 255), Some(12));
    assert_eq!(unsigned(b"12", 255), Some(12));
    assert_eq!(unsigned(b"256", 255), None);
    assert_eq!(unsigned(b"+", 255), None);
    assert_eq!(unsigned(b"++1", 255), None);
    assert_eq!(unsigned(b"-1", 255), None);
    assert_eq!(unsigned(b" 1", 255), None);
}

#[test]
fn scan_knows_numbers_with_a_fraction() {
    for text in [
        "1", "97.44", "+.5", "-5.", "1e5", "1E-5", "1.5e+10", "inf", "-Infinity", "NaN", "+nan",
        "0", "007", ".0",
    ] {
        assert!(is_float(text.as_bytes()), "{text:?}");
        assert!(text.parse::<f64>().is_ok(), "{text:?}");
    }
    for text in ["", ".", "+", "e5", "1e", "1e+", "1.5.2", "1 ", " 1", "infinit", "1x", "--1", "1e5.5"] {
        assert!(!is_float(text.as_bytes()), "{text:?}");
        assert!(text.parse::<f64>().is_err(), "{text:?}");
    }
}

#[test]
fn scan_replaces_every_occurrence() {
    assert_eq!(replace(b"a<br/>b<br/>", b"<br/>", b"\n"), b"a\nb\n".to_vec());
    assert_eq!(replace(b"aaa", b"aa", b"b"), b"ba".to_vec());
    assert_eq!(replace(b"abc", b"x", b"y"), b"abc".to_vec());
    assert_eq!(replace(b"abc", b"", b"y"), b"abc".to_vec());
    assert_eq!(replace(b"", b"x", b"y"), b"".to_vec());
    assert_eq!(replace(b"xx", b"x", b""), b"".to_vec());
}
