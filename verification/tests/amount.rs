use advanzia2csv::amount::{is_digit_char, parse_amount, Amount};

#[test]
fn money_number_becomes_decimal() {
    assert_eq!(
        parse_amount("18,30"),
        Some(Amount { negative: false, decimal: "18.30".to_string() })
    );
    assert_eq!(
        parse_amount("0,01"),
        Some(Amount { negative: false, decimal: "0.01".to_string() })
    );
    assert_eq!(
        parse_amount("1111,00"),
        Some(Amount { negative: false, decimal: "1111.00".to_string() })
    );
    let long = parse_amount("123456789012345678901234567890,5").unwrap();
    assert_eq!(long.decimal, "123456789012345678901234567890.5");
}

#[test]
fn zero_is_no_amount() {
    assert_eq!(parse_amount("0,00"), None);
    assert_eq!(parse_amount("000,0"), None);
}

#[test]
fn other_text_is_no_amount() {
    assert_eq!(parse_amount(""), None);
    assert_eq!(parse_amount("18"), None);
    assert_eq!(parse_amount("18,"), None);
    assert_eq!(parse_amount(",30"), None);
    assert_eq!(parse_amount("18.30"), None);
    assert_eq!(parse_amount("1,2,3"), None);
    assert_eq!(parse_amount("18,30 "), None);
    assert_eq!(parse_amount("-18,30"), None);
    assert_eq!(parse_amount("١٢,٣٤"), None);
}

#[test]
fn amount_text_carries_the_sign() {
    let a = parse_amount("18,30").unwrap();
    assert_eq!(a.to_string(), "18.30");
    assert_eq!(a.to_string().parse::<f64>().unwrap(), 18.30);
    let b = a.negate();
    assert!(b.negative);
    assert_eq!(b.to_string(), "-18.30");
    assert_eq!(b.to_string().parse::<f64>().unwrap(), -18.30);
    assert_eq!(b.negate(), Amount { negative: false, decimal: "18.30".to_string() });
}

#[test]
fn digits_are_the_ascii_ones() {
    for c in '0'..='9' {
        assert!(is_digit_char(c));
    }
    assert!(!is_digit_char('/'));
    assert!(!is_digit_char(':'));
    assert!(!is_digit_char('١'));
}
