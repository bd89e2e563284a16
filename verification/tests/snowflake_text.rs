use database::password::Password;
use database::snowflake::Snowflake;
use database::snowflake_text::{digit_of, parse_number, push_decimal};

#[test]
fn identifier_is_written_as_its_number_in_decimal() {
    let id = Snowflake { timestamp: 2, machine_id: 1, increment: 1 };
    assert_eq!(id.to_string(), "4196353");
    assert_eq!(Snowflake::from_number(0).to_string(), "0");
    assert_eq!(Snowflake::from_number(10).to_string(), "10");
    assert_eq!(Snowflake::from_number(i64::MAX as u64).to_string(), "9223372036854775807");
    assert_eq!(Snowflake::from_number(u64::MAX).to_string(), "-1");
    assert_eq!(Snowflake::from_number(1 << 63).to_string(), "-9223372036854775808");
}

#[test]
fn numbers_are_appended_in_decimal() {
    let mut out = String::from("n=");
    push_decimal(&mut out, 0);
    push_decimal(&mut out, 907);
    push_decimal(&mut out, u64::MAX);
    assert_eq!(out, "n=090718446744073709551615");
}

#[test]
fn text_is_read_as_a_number() {
    assert_eq!(parse_number("0"), Some(0));
    assert_eq!(parse_number("4196353"), Some(4_196_353));
    assert_eq!(parse_number("+5"), Some(5));
    assert_eq!(parse_number("00012"), Some(12));
    assert_eq!(parse_number("18446744073709551615"), Some(u64::MAX));
    assert_eq!(parse_number("000018446744073709551615"), Some(u64::MAX));
    for text in [
        "", "+", "-1", "-0", "++5", "5+", " 12", "12 ", "1_000", "1.5", "0x10", "abc",
        "18446744073709551616", "99999999999999999999999", "12a", "\u{663}",
    ] {
        assert_eq!(parse_number(text), None, "{:?}", text);
        assert_eq!(parse_number(text), text.parse::<u64>().ok(), "{:?}", text);
    }
    assert_eq!(digit_of('7'), Some(7));
    assert_eq!(digit_of('a'), None);
}

#[test]
fn identifier_text_round_trips() {
    for number in [0u64, 1, 9, 10, 2047, 4_196_353, (1 << 63) - 1] {
        let id = Snowflake::from_number(number);
        let back = Snowflake::parse(&id.to_string()).unwrap();
        assert_eq!(back, id);
        assert_eq!(back.into_number() as u64, number);
    }
    let id = Snowflake::parse("4196353").unwrap();
    assert_eq!((id.timestamp, id.machine_id, id.increment), (2, 1, 1));
    assert_eq!(Snowflake::parse("not a number"), None);
    assert_eq!(Snowflake::parse("-1"), None);
}

#[test]
fn password_is_made_from_text() {
    let password = Password::from("12345678");
    assert!(password.validate("", "").is_ok());
    assert!(Password::from("1").validate("", "").is_err());
}
