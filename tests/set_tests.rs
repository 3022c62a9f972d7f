use animus_rust::error::StoreError;
use animus_rust::set_type::SetType;
use animus_rust::store::Store;
use animus_rust::string_type::StringType;
use std::collections::HashSet;

fn v(xs: &[&str]) -> Vec<String> {
    xs.iter().map(|x| x.to_string()).collect()
}

#[test]
fn set_algebra() {
    let mut st = Store::new();
    assert_eq!(SetType::sadd(&mut st, "a", &v(&["x", "y", "z"]), 0), Ok(3));
    assert_eq!(SetType::sadd(&mut st, "a", &v(&["x"]), 0), Ok(0));
    SetType::sadd(&mut st, "b", &v(&["y"]), 0).unwrap();
    let d: HashSet<String> = SetType::sdiff(&mut st, &v(&["a", "b"]), 0).unwrap().into_iter().collect();
    let want: HashSet<String> = v(&["x", "z"]).into_iter().collect();
    assert_eq!(d, want);
}

#[test]
fn sadd_counts_duplicates_in_input_once() {
    let mut st = Store::new();
    assert_eq!(SetType::sadd(&mut st, "a", &v(&["x", "x", "y"]), 0), Ok(2));
    assert_eq!(SetType::scard(&mut st, "a", 0), Ok(2));
}

#[test]
fn sdiff_empty_and_errors() {
    let mut st = Store::new();
    assert_eq!(SetType::sdiff(&mut st, &v(&[]), 0), Ok(vec![]));
    SetType::sadd(&mut st, "a", &v(&["x"]), 0).unwrap();
    StringType::set(&mut st, "s", "str", 0);
    assert_eq!(SetType::sdiff(&mut st, &v(&["a", "missing"]), 0), Err(StoreError::KeyNotFound));
    assert_eq!(SetType::sdiff(&mut st, &v(&["a", "s"]), 0), Err(StoreError::WrongType));
    assert_eq!(SetType::sdiff(&mut st, &v(&["a"]), 0), Ok(v(&["x"])));
}

#[test]
fn scard_and_sismember() {
    let mut st = Store::new();
    assert_eq!(SetType::scard(&mut st, "a", 0), Err(StoreError::KeyNotFound));
    SetType::sadd(&mut st, "a", &v(&["x", "y"]), 0).unwrap();
    assert_eq!(SetType::sismember(&mut st, "a", "x", 0), Ok(true));
    assert_eq!(SetType::sismember(&mut st, "a", "q", 0), Ok(false));
    assert_eq!(SetType::sismember(&mut st, "b", "q", 0), Err(StoreError::KeyNotFound));
    StringType::set(&mut st, "s", "1", 0);
    assert_eq!(SetType::sadd(&mut st, "s", &v(&["x"]), 0), Err(StoreError::WrongType));
}

#[test]
fn sdiff_lists_each_member_once() {
    let mut st = Store::new();
    SetType::sadd(&mut st, "a", &v(&["x", "y", "z", "x"]), 0).unwrap();
    SetType::sadd(&mut st, "b", &v(&["y"]), 0).unwrap();
    let mut d = SetType::sdiff(&mut st, &v(&["a", "b"]), 0).unwrap();
    d.sort();
    assert_eq!(d, v(&["x", "z"]));
}
