use hash_search::decimal::{decimal_text, reversed_decimal_text};

#[test]
fn decimal_text_of_zero_is_one_digit() {
    assert_eq!(decimal_text(0), b"0".to_vec());
    assert_eq!(reversed_decimal_text(0), b"0".to_vec());
}

#[test]
fn decimal_text_of_single_digits() {
    assert_eq!(decimal_text(7), b"7".to_vec());
    assert_eq!(decimal_text(9), b"9".to_vec());
}

#[test]
fn decimal_text_has_most_significant_digit_first() {
    assert_eq!(decimal_text(10), b"10".to_vec());
    assert_eq!(decimal_text(12345), b"12345".to_vec());
    assert_eq!(decimal_text(262143), b"262143".to_vec());
}

#[test]
fn decimal_text_of_the_largest_number() {
    assert_eq!(decimal_text(u64::MAX), b"18446744073709551615".to_vec());
}

#[test]
fn reversed_decimal_text_has_least_significant_digit_first() {
    assert_eq!(reversed_decimal_text(120), b"021".to_vec());
    assert_eq!(reversed_decimal_text(12345), b"54321".to_vec());
    assert_eq!(reversed_decimal_text(u64::MAX), b"51615590737044764481".to_vec());
}

#[test]
fn decimal_text_reads_back_as_the_number() {
    let samples: [u64; 8] = [0, 1, 9, 10, 99, 100, 4294967295, 18446744073709551615];
    for n in samples {
        let text = String::from_utf8(decimal_text(n)).unwrap();
        assert_eq!(text.parse::<u64>().unwrap(), n);
        assert_eq!(text, n.to_string());
    }
}

#[test]
fn reversed_text_is_the_text_backwards() {
    for n in 0..2000u64 {
        let mut forwards = decimal_text(n);
        forwards.reverse();
        assert_eq!(reversed_decimal_text(n), forwards);
    }
}
