use sidekwest::digits::{parse_u64, push_decimal, push_signed_decimal};
use sidekwest::snowflake::{parse_all, Snowflake};

fn chars(s: &str) -> Vec<char> {
    s.chars().collect()
}

#[test]
fn parses_unsigned_decimals_like_std() {
    for s in ["0", "7", "+42", "0012", "18446744073709551615", "", "+", "-1", "1a", " 1", "18446744073709551616", "99999999999999999999"] {
        assert_eq!(parse_u64(&chars(s)), s.parse::<u64>().ok(), "{s}");
    }
}

#[test]
fn decimal_text_round_trips() {
    for n in [0u64, 9, 10, 1234567890, u64::MAX] {
        let mut s = String::from("x");
        push_decimal(&mut s, n);
        assert_eq!(s, format!("x{n}"));
    }
    for n in [0i64, -1, 1712345678, i64::MIN, i64::MAX] {
        let mut s = String::new();
        push_signed_decimal(&mut s, n);
        assert_eq!(s, n.to_string());
    }
}

#[test]
fn snowflakes_are_positive() {
    assert!(Snowflake::new(0).is_none());
    assert_eq!(Snowflake::new(5).unwrap().get(), 5);
    assert!(Snowflake::parse("0").is_none());
    assert!(Snowflake::parse("abc").is_none());
    assert_eq!(Snowflake::parse("123456789012345678").unwrap().get(), 123456789012345678);
}

#[test]
fn message_id_lists_parse_whole_or_not_at_all() {
    let ids = parse_all(&vec!["1".to_string(), "22".to_string()]).unwrap();
    assert_eq!(ids.iter().map(|i| i.get()).collect::<Vec<_>>(), vec![1, 22]);
    assert!(parse_all(&vec!["1".to_string(), "x".to_string()]).is_none());
    assert_eq!(parse_all(&vec![]).unwrap().len(), 0);
}
