use hamster::decimal::{isize_to_string, parse_usize, usize_to_string};

#[test]
fn usize_is_written_in_decimal() {
    assert_eq!(usize_to_string(0), "0");
    assert_eq!(usize_to_string(7), "7");
    assert_eq!(usize_to_string(10), "10");
    assert_eq!(usize_to_string(1037), "1037");
    assert_eq!(usize_to_string(usize::MAX), usize::MAX.to_string());
}

#[test]
fn isize_is_written_with_its_sign() {
    assert_eq!(isize_to_string(0), "0");
    assert_eq!(isize_to_string(10), "10");
    assert_eq!(isize_to_string(-10), "-10");
    assert_eq!(isize_to_string(isize::MIN), isize::MIN.to_string());
    assert_eq!(isize_to_string(isize::MAX), isize::MAX.to_string());
}

#[test]
fn parse_accepts_what_from_str_accepts() {
    let cases = [
        "0", "5", "+5", "007", "1920", "", "+", "-", "-1", "1a", "a1", " 1", "1 ", "++1",
        "18446744073709551615", "18446744073709551616", "99999999999999999999999", "٣", "+-1",
    ];
    for s in cases {
        assert_eq!(parse_usize(s), s.parse::<usize>().ok(), "input {:?}", s);
    }
}

#[test]
fn parse_reads_back_what_is_written() {
    for n in [0usize, 1, 9, 10, 99, 100, 1080, 65535, 4294967296, usize::MAX] {
        assert_eq!(parse_usize(&usize_to_string(n)), Some(n));
    }
}
