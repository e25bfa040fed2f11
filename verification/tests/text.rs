use level_progression::text::{chars_of, digit_of, push_nat, read_number};

#[test]
fn digits_have_their_value() {
    for (value, c) in ('0'..='9').enumerate() {
        assert_eq!(digit_of(c), Some(value));
    }
    for c in ['/', ':', 'a', ' ', '٣', '-', '+'] {
        assert_eq!(digit_of(c), None);
    }
}

#[test]
fn numbers_are_written_in_decimal() {
    for n in [0u64, 1, 9, 10, 11, 99, 100, 1090, 4294967295, 4294967296, u64::MAX] {
        let mut out = "x=".to_string();
        push_nat(&mut out, n);
        assert_eq!(out, format!("x={n}"));
    }
}

#[test]
fn numbers_are_read_up_to_what_follows() {
    let chars = chars_of("ab120,cd");
    assert_eq!(read_number(&chars, 2, 200), Some((120, 5)));
    assert_eq!(read_number(&chars, 2, 120), Some((120, 5)));
    assert_eq!(read_number(&chars, 2, 119), None);
    assert_eq!(read_number(&chars, 3, 20), Some((20, 5)));
    assert_eq!(read_number(&chars, 4, 0), Some((0, 5)));
    assert_eq!(read_number(&chars, 5, 99), None);
    assert_eq!(read_number(&chars, 0, 99), None);
    assert_eq!(read_number(&chars, 8, 99), None);
    assert_eq!(read_number(&chars, 9, 99), None);
    let max = chars_of("18446744073709551615");
    assert_eq!(read_number(&max, 0, u64::MAX), Some((u64::MAX, 20)));
    let over = chars_of("18446744073709551616");
    assert_eq!(read_number(&over, 0, u64::MAX), None);
    let long = chars_of("000000000000000000000000000007");
    assert_eq!(read_number(&long, 0, 7), Some((7, 30)));
}
