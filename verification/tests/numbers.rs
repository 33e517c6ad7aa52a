use subfinder::numbers::{parse_int, parse_rating, push_rating};

#[test]
fn ratings_are_read_in_thousandths() {
    assert_eq!(parse_rating("9.5"), Some(9500));
    assert_eq!(parse_rating("7.0"), Some(7000));
    assert_eq!(parse_rating("10"), Some(10000));
    assert_eq!(parse_rating("0.0"), Some(0));
    assert_eq!(parse_rating("5."), Some(5000));
    assert_eq!(parse_rating(".5"), Some(500));
    assert_eq!(parse_rating("0.05"), Some(50));
    assert_eq!(parse_rating("0.125"), Some(125));
    assert_eq!(parse_rating("-1.25"), Some(-1250));
    assert_eq!(parse_rating("+3"), Some(3000));
}

#[test]
fn fourth_digit_behind_the_dot_is_dropped() {
    assert_eq!(parse_rating("1.2345"), Some(1234));
    assert_eq!(parse_rating("1.9999"), Some(1999));
}

#[test]
fn text_that_is_no_rating_is_refused() {
    assert_eq!(parse_rating(""), None);
    assert_eq!(parse_rating("."), None);
    assert_eq!(parse_rating("-"), None);
    assert_eq!(parse_rating("abc"), None);
    assert_eq!(parse_rating("1.2.3"), None);
    assert_eq!(parse_rating("1.2x"), None);
    assert_eq!(parse_rating("1.2345x"), None);
    assert_eq!(parse_rating(" 1"), None);
    assert_eq!(parse_rating("1e3"), None);
}

#[test]
fn rating_whole_part_has_a_limit() {
    assert_eq!(parse_rating("9000000000000000.999"), Some(9_000_000_000_000_000_999));
    assert_eq!(parse_rating("9000000000000001"), None);
    assert_eq!(parse_rating("99999999999999999999999999"), None);
}

#[test]
fn integers_are_read_with_their_sign() {
    assert_eq!(parse_int("0"), Some(0));
    assert_eq!(parse_int("12"), Some(12));
    assert_eq!(parse_int("+12"), Some(12));
    assert_eq!(parse_int("-12"), Some(-12));
    assert_eq!(parse_int("007"), Some(7));
    assert_eq!(parse_int("2147483647"), Some(i32::MAX));
    assert_eq!(parse_int("-2147483648"), Some(i32::MIN));
}

#[test]
fn text_that_is_no_integer_is_refused() {
    assert_eq!(parse_int(""), None);
    assert_eq!(parse_int("-"), None);
    assert_eq!(parse_int("+"), None);
    assert_eq!(parse_int("1.5"), None);
    assert_eq!(parse_int("12a"), None);
    assert_eq!(parse_int("2147483648"), None);
    assert_eq!(parse_int("-2147483649"), None);
    assert_eq!(parse_int("99999999999999999999999"), None);
}

#[test]
fn rating_is_written_behind_what_is_there() {
    let mut text = String::from("r=");
    push_rating(&mut text, 123_456);
    assert_eq!(text, "r=123.456");
    push_rating(&mut text, i64::MIN);
    assert_eq!(text, "r=123.456-9223372036854775.808");
    let mut text = String::new();
    push_rating(&mut text, 1_100);
    assert_eq!(text, "1.1");
}
