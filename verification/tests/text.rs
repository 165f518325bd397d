use site::text::{chars_of, decimal_string, parse_u64_of};

#[test]
fn decimal_notation() {
    assert_eq!(decimal_string(0), "0");
    assert_eq!(decimal_string(10), "10");
    assert_eq!(decimal_string(1055909254), "1055909254");
    assert_eq!(decimal_string(u64::MAX), u64::MAX.to_string());
}

#[test]
fn reading_numbers() {
    assert_eq!(parse_u64_of(&chars_of("0")), Some(0));
    assert_eq!(parse_u64_of(&chars_of("+10")), Some(10));
    assert_eq!(parse_u64_of(&chars_of("18446744073709551615")), Some(u64::MAX));
    assert_eq!(parse_u64_of(&chars_of("18446744073709551616")), None);
    assert_eq!(parse_u64_of(&chars_of("")), None);
    assert_eq!(parse_u64_of(&chars_of("+")), None);
    assert_eq!(parse_u64_of(&chars_of(" 1")), None);
    for n in [0u64, 9, 10, 99, 12345678901234567890] {
        assert_eq!(parse_u64_of(&chars_of(&decimal_string(n))), Some(n));
        assert_eq!(parse_u64_of(&chars_of(&n.to_string())), n.to_string().parse::<u64>().ok());
    }
}
