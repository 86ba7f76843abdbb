use tellstickreport::text::{count_occurrences, find_char, i32_to_string, parse_u16};

#[test]
fn formats_integers_in_decimal() {
    assert_eq!(i32_to_string(0), "0");
    assert_eq!(i32_to_string(7), "7");
    assert_eq!(i32_to_string(1234), "1234");
    assert_eq!(i32_to_string(-42), "-42");
    assert_eq!(i32_to_string(i32::MAX), "2147483647");
    assert_eq!(i32_to_string(i32::MIN), "-2147483648");
}

#[test]
fn formats_like_std() {
    for n in [-1000000, -99, -10, -9, -1, 0, 1, 9, 10, 99, 100, 65535, 1000000] {
        assert_eq!(i32_to_string(n), n.to_string());
    }
}

#[test]
fn parses_ports_like_std() {
    for s in ["8888", "+80", "00080", "0", "65535", "65536", "", "+", "-", "-1", "12a", " 1", "99999999999", "+-1", "++1"] {
        assert_eq!(parse_u16(s), s.parse::<u16>().ok(), "input {:?}", s);
    }
}

#[test]
fn parse_examples() {
    assert_eq!(parse_u16("8888"), Some(8888));
    assert_eq!(parse_u16("65536"), None);
    assert_eq!(parse_u16(""), None);
}

#[test]
fn counts_characters() {
    assert_eq!(count_occurrences("a:b:c", ':'), 2);
    assert_eq!(count_occurrences("abc", ':'), 0);
    assert_eq!(count_occurrences("", ':'), 0);
}

#[test]
fn finds_characters() {
    assert_eq!(find_char("host:1:2", ':', 0), 4);
    assert_eq!(find_char("host:1:2", ':', 5), 6);
    assert_eq!(find_char("host", ':', 0), 4);
}
