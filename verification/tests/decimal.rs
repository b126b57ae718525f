use bar_sink::decimal::Decimal;

fn parts(text: &str) -> Option<(bool, Vec<u8>, i64)> {
    Decimal::parse(text).map(|d| (d.is_negative(), d.digits().clone(), d.scale()))
}

#[test]
fn parse_reads_digits_and_scale() {
    assert_eq!(parts("123.456000"), Some((false, vec![1, 2, 3, 4, 5, 6, 0, 0, 0], 6)));
    assert_eq!(parts("42"), Some((false, vec![4, 2], 0)));
    assert_eq!(parts("-0.50"), Some((true, vec![5, 0], 2)));
    assert_eq!(parts("0.001"), Some((false, vec![1], 3)));
    assert_eq!(parts("+7"), Some((false, vec![7], 0)));
}

#[test]
fn parse_keeps_precision_apart() {
    assert_ne!(Decimal::parse("1.0"), Decimal::parse("1.00"));
    assert_eq!(Decimal::parse("1.00"), Decimal::parse("1.00"));
    assert_eq!(parts("1.0"), Some((false, vec![1, 0], 1)));
    assert_eq!(parts("1.00"), Some((false, vec![1, 0, 0], 2)));
}

#[test]
fn parse_reads_an_exponent_into_the_scale() {
    assert_eq!(parts("1.5e3"), Some((false, vec![1, 5], -2)));
    assert_eq!(parts("1.5E-3"), Some((false, vec![1, 5], 4)));
    assert_eq!(parts("2e+2"), Some((false, vec![2], -2)));
    assert_eq!(parts("1e-99999999999999999"), Some((false, vec![1], 99_999_999_999_999_999)));
    assert_eq!(parts("1e999999999999999999"), Some((false, vec![1], -999_999_999_999_999_999)));
    assert_eq!(parts("0.5e999999999999999999"), Some((false, vec![5], -999_999_999_999_999_998)));
}

#[test]
fn parse_gives_zero_no_sign() {
    assert_eq!(parts("0"), Some((false, vec![0], 0)));
    assert_eq!(parts("-0"), Some((false, vec![0], 0)));
    assert_eq!(parts("-0.00"), Some((false, vec![0], 2)));
    assert_eq!(parts("000"), Some((false, vec![0], 0)));
}

#[test]
fn parse_drops_leading_zeros_only() {
    assert_eq!(parts("00012.50"), Some((false, vec![1, 2, 5, 0], 2)));
}

#[test]
fn parse_reads_many_digits_exactly() {
    let text = "98765432109876543210987654321098765432109876543210.5";
    let value = Decimal::parse(text).unwrap();
    assert_eq!(value.digits().len(), 51);
    assert_eq!(value.scale(), 1);
    assert_eq!(value.digits()[0], 9);
    assert_eq!(value.digits()[50], 5);
}

#[test]
fn parse_rejects_what_is_no_decimal() {
    assert_eq!(Decimal::parse(""), None);
    assert_eq!(Decimal::parse("abc"), None);
    assert_eq!(Decimal::parse("NaN"), None);
    assert_eq!(Decimal::parse("1.2.3"), None);
    assert_eq!(Decimal::parse("1,5"), None);
    assert_eq!(Decimal::parse("0x10"), None);
    assert_eq!(Decimal::parse(" 1"), None);
    assert_eq!(Decimal::parse("1e"), None);
    assert_eq!(Decimal::parse("e5"), None);
    assert_eq!(Decimal::parse("-"), None);
    assert_eq!(Decimal::parse("\u{0663}"), None);
    assert_eq!(Decimal::parse("1\u{00e9}5"), None);
}

#[test]
fn parse_rejects_an_exponent_of_more_than_eighteen_characters() {
    assert_eq!(Decimal::parse("1e-9223372036854775808"), None);
    assert_eq!(Decimal::parse("1e-999999999999999999"), None);
    assert_eq!(Decimal::parse("0.5e-9223372036854775807"), None);
    assert_eq!(Decimal::parse("1e0000000000000000001"), None);
    assert_eq!(Decimal::parse("1E1234567890123456789"), None);
    assert_eq!(parts("1e000000000000000001"), Some((false, vec![1], -1)));
    assert_eq!(parts("12345678901234567890e1"), Some((
        false,
        vec![1, 2, 3, 4, 5, 6, 7, 8, 9, 0, 1, 2, 3, 4, 5, 6, 7, 8, 9, 0],
        -1,
    )));
}

#[test]
fn from_parts_takes_canonical_parts() {
    let value = Decimal::from_parts(true, vec![1, 5], 1).unwrap();
    assert_eq!(Some(value), Decimal::parse("-1.5"));
    assert_eq!(Decimal::from_parts(false, vec![0], 3), Decimal::parse("0.000"));
    assert!(Decimal::from_parts(false, vec![9], i64::MIN).is_some());
    assert!(Decimal::from_parts(false, vec![9], i64::MAX).is_some());
}

#[test]
fn from_parts_rejects_other_parts() {
    assert_eq!(Decimal::from_parts(false, Vec::new(), 0), None);
    assert_eq!(Decimal::from_parts(false, vec![0, 1], 0), None);
    assert_eq!(Decimal::from_parts(false, vec![0, 0], 0), None);
    assert_eq!(Decimal::from_parts(true, vec![0], 0), None);
    assert_eq!(Decimal::from_parts(false, vec![1, 10], 0), None);
    assert_eq!(Decimal::from_parts(false, vec![255], 0), None);
}

#[test]
fn decimal_parse_answers_every_text() {
    let pieces = ["", "-", "+", ".", "e", "E", "_", "0", "1", "9", "a", " ", "\u{e9}", "00", "e-", "e+"];
    let mut count = 0;
    for a in pieces {
        for b in pieces {
            for c in pieces {
                for d in pieces {
                    let text = format!("{}{}{}{}", a, b, c, d);
                    if let Some(value) = Decimal::parse(&text) {
                        count += 1;
                        assert!(!value.digits().is_empty());
                        assert!(value.digits().iter().all(|digit| *digit < 10));
                        assert!(value.digits().len() == 1 || value.digits()[0] != 0);
                        assert!(!value.is_negative() || value.digits()[0] != 0);
                    }
                }
            }
        }
    }
    assert!(count > 0);
    let long = "9".repeat(5000);
    assert_eq!(Decimal::parse(&long).unwrap().digits().len(), 5000);
    let marked = format!("1e{}", "0".repeat(5000));
    assert_eq!(Decimal::parse(&marked), None);
}
