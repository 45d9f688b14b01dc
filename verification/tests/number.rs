use expr_parser::{Number, NumberError};

#[test]
fn test_trailing_zeros_are_canonical() {
    assert_eq!(Number::from_str("1.50").unwrap(), Number::from_str("1.5").unwrap());
    assert_eq!(Number::from_str("10").unwrap(), Number::from_str("10").unwrap());
    assert_eq!(Number::from_str("2.000").unwrap(), Number::from_str("2.").unwrap());
}

#[test]
fn test_leading_zeros_are_canonical() {
    assert_eq!(Number::from_str("007").unwrap(), Number::from_str("7").unwrap());
    assert_eq!(Number::from_str(".5").unwrap(), Number::from_str("0.5").unwrap());
    assert_eq!(Number::from_str("000").unwrap(), Number::from_str("0").unwrap());
}

#[test]
fn test_distinct_values_differ() {
    assert_ne!(Number::from_str("1.5").unwrap(), Number::from_str("15").unwrap());
    assert_ne!(Number::from_str("0.05").unwrap(), Number::from_str("0.5").unwrap());
    assert_ne!(Number::from_str("10").unwrap(), Number::from_str("1").unwrap());
}

#[test]
fn test_to_literal_is_canonical() {
    assert_eq!(Number::from_str("1.50").unwrap().to_literal(), "1.5");
    assert_eq!(Number::from_str("007").unwrap().to_literal(), "7");
    assert_eq!(Number::from_str(".5").unwrap().to_literal(), "0.5");
    assert_eq!(Number::from_str("10").unwrap().to_literal(), "10");
    assert_eq!(Number::from_str("000").unwrap().to_literal(), "0");
}

#[test]
fn test_rejects_malformed_literals() {
    assert_eq!(Number::from_str(""), Err(NumberError::ParsingError));
    assert_eq!(Number::from_str("."), Err(NumberError::ParsingError));
    assert_eq!(Number::from_str("1.2.3"), Err(NumberError::ParsingError));
    assert_eq!(Number::from_str("abc"), Err(NumberError::ParsingError));
    assert_eq!(Number::from_str("-1"), Err(NumberError::ParsingError));
}
