use animus_rust::error::StoreError;
use animus_rust::num::{format_i64, parse_i64};
use animus_rust::set_type::SetType;
use animus_rust::store::Store;
use animus_rust::string_type::{find_lcs, StringType};

fn is_subsequence(s: &str, t: &str) -> bool {
    let mut it = t.chars();
    s.chars().all(|c| it.any(|d| d == c))
}

#[test]
fn append_empty_does_not_change_value() {
    let mut st = Store::new();
    StringType::set(&mut st, "k", "abc", 0);
    for _ in 0..5 {
        StringType::append(&mut st, "k", "", 0).unwrap();
    }
    assert_eq!(StringType::get(&mut st, "k", 0).unwrap(), "abc");
}

#[test]
fn append_creates_and_concatenates() {
    let mut st = Store::new();
    StringType::append(&mut st, "k", "ab", 0).unwrap();
    StringType::append(&mut st, "k", "cd", 0).unwrap();
    assert_eq!(StringType::get(&mut st, "k", 0).unwrap(), "abcd");
}

#[test]
fn increment_round_trip() {
    let mut st = Store::new();
    StringType::set(&mut st, "k", "10", 0);
    StringType::incr_by(&mut st, "k", 5, 0).unwrap();
    assert_eq!(StringType::get(&mut st, "k", 0).unwrap(), "15");
    StringType::decr_by(&mut st, "k", 20, 0).unwrap();
    assert_eq!(StringType::get(&mut st, "k", 0).unwrap(), "-5");
}

#[test]
fn incr_and_decr_by_one_from_absent() {
    let mut st = Store::new();
    StringType::incr(&mut st, "a", 0).unwrap();
    StringType::incr(&mut st, "a", 0).unwrap();
    assert_eq!(StringType::get(&mut st, "a", 0).unwrap(), "2");
    StringType::decr(&mut st, "b", 0).unwrap();
    assert_eq!(StringType::get(&mut st, "b", 0).unwrap(), "-1");
}

#[test]
fn incr_not_an_integer() {
    let mut st = Store::new();
    StringType::set(&mut st, "k", "abc", 0);
    assert_eq!(StringType::incr(&mut st, "k", 0), Err(StoreError::NotAnInteger));
    assert_eq!(StringType::get(&mut st, "k", 0).unwrap(), "abc");
}

#[test]
fn incr_overflow_is_an_error() {
    let mut st = Store::new();
    StringType::set(&mut st, "k", "9223372036854775807", 0);
    assert_eq!(StringType::incr(&mut st, "k", 0), Err(StoreError::NotAnInteger));
    assert_eq!(StringType::decr_by(&mut st, "z", i64::MIN, 0), Err(StoreError::NotAnInteger));
}

#[test]
fn range_wraparound() {
    let mut st = Store::new();
    StringType::set(&mut st, "k", "Hello World", 0);
    assert_eq!(StringType::get_range(&mut st, "k", 0, 4, 0).unwrap(), "Hello");
    assert_eq!(StringType::get_range(&mut st, "k", -5, -1, 0).unwrap(), "World");
    // 100 wraps to 1, which lies before 6.
    assert_eq!(StringType::get_range(&mut st, "k", 6, 100, 0), Err(StoreError::InvalidRange));
    assert_eq!(StringType::get_range(&mut st, "k", 6, 10, 0).unwrap(), "World");
}

#[test]
fn range_of_empty_string() {
    let mut st = Store::new();
    StringType::set(&mut st, "k", "", 0);
    assert_eq!(StringType::get_range(&mut st, "k", 5, -7, 0).unwrap(), "");
}

#[test]
fn lcs_scenario() {
    let mut st = Store::new();
    StringType::set(&mut st, "k1", "ABCBDAB", 0);
    StringType::set(&mut st, "k2", "BDCABA", 0);
    let r = StringType::lcs(&mut st, "k1", "k2", None, 0).unwrap();
    assert_eq!(r.chars().count(), 4);
    assert!(is_subsequence(&r, "ABCBDAB"));
    assert!(is_subsequence(&r, "BDCABA"));
    assert_eq!(StringType::lcs(&mut st, "k1", "k2", Some("LEN"), 0).unwrap(), "4");
    assert_eq!(StringType::lcs(&mut st, "k1", "k2", Some("len"), 0).unwrap(), "4");
    assert_eq!(StringType::lcs(&mut st, "k1", "nope", None, 0), Err(StoreError::KeyNotFound));
}

#[test]
fn find_lcs_edges() {
    assert_eq!(find_lcs("", "abc"), (String::new(), 0));
    assert_eq!(find_lcs("abc", "abc"), ("abc".to_string(), 3));
    assert_eq!(find_lcs("abc", "xyz").1, 0);
}

#[test]
fn get_errors() {
    let mut st = Store::new();
    assert_eq!(StringType::get(&mut st, "k", 0), Err(StoreError::KeyNotFound));
    SetType::sadd(&mut st, "s", &vec!["x".to_string()], 0).unwrap();
    assert_eq!(StringType::get(&mut st, "s", 0), Err(StoreError::WrongType));
    assert_eq!(StringType::append(&mut st, "s", "x", 0), Err(StoreError::WrongType));
}

#[test]
fn get_del_get_set_get_ex() {
    let mut st = Store::new();
    StringType::set(&mut st, "k", "v", 0);
    assert_eq!(StringType::get_set(&mut st, "k", "w", 0).unwrap(), "v");
    assert_eq!(StringType::get_ex(&mut st, "k", 5, 10).unwrap(), "w");
    assert_eq!(StringType::get(&mut st, "k", 14).unwrap(), "w");
    assert_eq!(StringType::get(&mut st, "k", 15), Err(StoreError::KeyNotFound));
    StringType::set(&mut st, "k", "v", 0);
    assert_eq!(StringType::get_del(&mut st, "k", 0).unwrap(), "v");
    assert_eq!(StringType::get_del(&mut st, "k", 0), Err(StoreError::KeyNotFound));
    assert_eq!(StringType::get_set(&mut st, "k", "x", 0), Err(StoreError::KeyNotFound));
}

#[test]
fn set_ex_and_str_len() {
    let mut st = Store::new();
    StringType::set_ex(&mut st, "k", "héllo", 2, 50);
    assert_eq!(StringType::str_len(&mut st, "k", 51).unwrap(), 6);
    assert_eq!(StringType::str_len(&mut st, "k", 52), Err(StoreError::KeyNotFound));
}

#[test]
fn mget_and_mset() {
    let mut st = Store::new();
    StringType::mset(
        &mut st,
        &vec![("a".to_string(), "1".to_string()), ("b".to_string(), "2".to_string())],
        0,
    );
    let r = StringType::mget(&mut st, &vec!["a".to_string(), "x".to_string(), "b".to_string()], 0);
    assert_eq!(r, vec![Some("1".to_string()), None, Some("2".to_string())]);
}

#[test]
fn parse_and_format() {
    assert_eq!(parse_i64("-9223372036854775808"), Some(i64::MIN));
    assert_eq!(parse_i64("9223372036854775808"), None);
    assert_eq!(parse_i64("+42"), Some(42));
    assert_eq!(parse_i64("-"), None);
    assert_eq!(parse_i64(""), None);
    assert_eq!(parse_i64("1x"), None);
    assert_eq!(format_i64(-120).into_iter().collect::<String>(), "-120");
    assert_eq!(format_i64(i64::MIN).into_iter().collect::<String>(), "-9223372036854775808");
}

#[test]
fn error_messages() {
    assert_eq!(StoreError::KeyNotFound.message(), "ERR key not found");
    assert_eq!(StoreError::NotAnInteger.message(), "ERR value is not an integer or out of range");
    assert_eq!(StoreError::InvalidRange.message(), "ERR start index greater than end index");
}

#[test]
fn append_keeps_ttl() {
    let mut st = Store::new();
    StringType::set_ex(&mut st, "k", "ab", 10, 100);
    StringType::append(&mut st, "k", "cd", 101).unwrap();
    assert_eq!(StringType::get(&mut st, "k", 109).unwrap(), "abcd");
    assert_eq!(StringType::get(&mut st, "k", 110), Err(StoreError::KeyNotFound));
}

#[test]
fn str_len_counts_utf8_bytes() {
    let mut st = Store::new();
    StringType::set(&mut st, "k", "é", 0);
    assert_eq!(StringType::str_len(&mut st, "k", 0).unwrap(), 2);
}
