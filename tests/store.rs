use redis_lite::parse::{parse_i64, parse_seconds_ms, parse_u64};
use redis_lite::rdb::{expiry_deadline, Rdb, RdbError};
use redis_lite::resp::Value;

#[test]
fn parse_numbers() {
    assert_eq!(parse_u64("0"), Some(0));
    assert_eq!(parse_u64("1234"), Some(1234));
    assert_eq!(parse_u64("18446744073709551615"), Some(u64::MAX));
    assert_eq!(parse_u64("18446744073709551616"), None);
    assert_eq!(parse_u64(""), None);
    assert_eq!(parse_u64("12a"), None);
    assert_eq!(parse_u64("-1"), None);
    assert_eq!(parse_u64("+5"), Some(5));
    assert_eq!(parse_u64("+"), None);
    assert_eq!(parse_u64("++5"), None);
    assert_eq!(parse_i64("+42"), Some(42));
    assert_eq!(parse_i64("+"), None);
    assert_eq!(parse_i64("+-1"), None);
    assert_eq!(parse_i64("-3"), Some(-3));
    assert_eq!(parse_i64("42"), Some(42));
    assert_eq!(parse_i64("-9223372036854775808"), Some(i64::MIN));
    assert_eq!(parse_i64("9223372036854775808"), None);
    assert_eq!(parse_i64("-"), None);
    assert_eq!(parse_i64("--1"), None);
}

#[test]
fn parse_seconds() {
    assert_eq!(parse_seconds_ms("0"), Some(0));
    assert_eq!(parse_seconds_ms("2"), Some(2000));
    assert_eq!(parse_seconds_ms("0.1"), Some(100));
    assert_eq!(parse_seconds_ms("0.05"), Some(50));
    assert_eq!(parse_seconds_ms("3.125"), Some(3125));
    assert_eq!(parse_seconds_ms("3.1250"), None);
    assert_eq!(parse_seconds_ms(".5"), None);
    assert_eq!(parse_seconds_ms("1.2.3"), None);
    assert_eq!(parse_seconds_ms("18446744073709552"), None);
    assert_eq!(parse_seconds_ms(""), None);
}

#[test]
fn deadlines() {
    let s = |x: &str| x.to_string();
    assert_eq!(expiry_deadline(&s("EX"), &s("2"), 100), Some(2100));
    assert_eq!(expiry_deadline(&s("ex"), &s("2"), 100), Some(2100));
    assert_eq!(expiry_deadline(&s("PX"), &s("2"), 100), Some(102));
    assert_eq!(expiry_deadline(&s("QX"), &s("2"), 100), None);
    assert_eq!(expiry_deadline(&s("EX"), &s("0"), 100), Some(100));
    assert_eq!(expiry_deadline(&s("PX"), &s("+7"), 100), Some(107));
    assert_eq!(expiry_deadline(&s("PX"), &s("18446744073709551615"), 1), None);
}

#[test]
fn rdb_set_and_get() {
    let mut db = Rdb::new();
    let ex = Value::BulkString("EX".to_string());
    let one = Value::BulkString("1".to_string());
    db.set("k".to_string(), "v".to_string(), Some(&ex), Some(&one), 0).unwrap();
    assert_eq!(db.get(&"k".to_string(), 999).unwrap(), Some("v".to_string()));
    assert_eq!(db.get(&"k".to_string(), 1000).unwrap(), None);
    let bad = Value::IntegerString(1);
    assert!(matches!(
        db.set("k".to_string(), "v".to_string(), Some(&bad), Some(&one), 0),
        Err(RdbError::InvalidExpiry(_))
    ));
    assert!(matches!(
        db.set("k".to_string(), "v".to_string(), Some(&ex), None, 0),
        Err(RdbError::InvalidExpiry(_))
    ));
}

#[test]
fn rdb_lists() {
    let mut db = Rdb::new();
    let k = "k".to_string();
    let vs = |xs: &[&str]| xs.iter().map(|x| x.to_string()).collect::<Vec<String>>();
    assert_eq!(db.push_back(&k, vs(&["a", "b"]), 0).unwrap(), 2);
    assert_eq!(db.push_front(&k, vs(&["x", "y"]), 0).unwrap(), 4);
    assert_eq!(db.range(&k, 0, -1, 0).unwrap(), vs(&["y", "x", "a", "b"]));
    assert_eq!(db.pop_front(&k, 3, 0).unwrap(), vs(&["y", "x", "a"]));
    assert_eq!(db.list_len(&k, 0).unwrap(), 1);
    assert_eq!(db.peek_len(&k, 0), 1);
    assert_eq!(db.pop_front(&k, 3, 0).unwrap(), vs(&["b"]));
    assert_eq!(db.list_len(&k, 0).unwrap(), 0);
    db.put_scalar(k.clone(), "s".to_string(), None);
    assert!(matches!(db.push_back(&k, vs(&["a"]), 0), Err(RdbError::WrongType)));
    assert!(matches!(db.range(&k, 0, -1, 0), Err(RdbError::WrongType)));
    assert!(matches!(db.pop_front(&k, 1, 0), Err(RdbError::WrongType)));
}
