use cookie_rs::cookie::Cookie;
use cookie_rs::error::{MissingPair, ParseError};

#[test]
fn tests_simple_cookie() {
    let expected = Ok(Cookie::new("name", "value"));
    let input = "name=value";

    assert_eq!(Cookie::parse(input), expected)
}

#[test]
fn tests_empty_name() {
    let expected = Err(ParseError::EmptyName);
    let input = "=value";

    assert_eq!(Cookie::parse(input), expected)
}

#[test]
fn tests_empty_value() {
    let expected = Ok(Cookie::new("key", ""));
    let input = "key=";

    assert_eq!(Cookie::parse(input), expected)
}

#[test]
fn tests_empty_input() {
    let expected = Err(ParseError::MissingPair(MissingPair::NameValue));
    let input = "";

    assert_eq!(Cookie::parse(input), expected)
}
