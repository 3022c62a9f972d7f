use animus_rust::store::{Store, StoreVal};

fn s(x: &str) -> String {
    x.to_string()
}

#[test]
fn lru_evicts_least_recently_touched() {
    let mut st = Store::with_capacity(2);
    st.set(s("a"), StoreVal::Str(s("1")), None, 0);
    st.set(s("b"), StoreVal::Str(s("2")), None, 0);
    assert!(st.get("a", 0).is_some());
    st.set(s("c"), StoreVal::Str(s("3")), None, 0);
    assert!(st.get("b", 0).is_none());
    assert!(st.get("a", 0).is_some());
    assert!(st.get("c", 0).is_some());
    assert_eq!(st.keys().len(), 2);
}

#[test]
fn lru_never_exceeds_capacity() {
    let mut st = Store::with_capacity(3);
    for i in 0..10 {
        st.set(format!("k{}", i), StoreVal::Str(s("v")), None, 0);
        assert!(st.keys().len() <= 3);
    }
    assert_eq!(st.keys(), vec![s("k9"), s("k8"), s("k7")]);
}

#[test]
fn overwrite_keeps_size_and_refreshes_recency() {
    let mut st = Store::with_capacity(2);
    st.set(s("a"), StoreVal::Str(s("1")), None, 0);
    st.set(s("b"), StoreVal::Str(s("2")), None, 0);
    st.set(s("a"), StoreVal::Str(s("9")), None, 0);
    st.set(s("c"), StoreVal::Str(s("3")), None, 0);
    assert!(st.get("b", 0).is_none());
    match st.get("a", 0) {
        Some(StoreVal::Str(v)) => assert_eq!(v, "9"),
        _ => panic!("a should hold a string"),
    }
}

#[test]
fn ttl_lazy_expiry() {
    let mut st = Store::new();
    st.set(s("k"), StoreVal::Str(s("v")), Some(1), 100);
    assert!(st.get("k", 100).is_some());
    assert!(st.get("k", 101).is_none());
    assert!(st.keys().is_empty());
}

#[test]
fn ttl_sweep_removes_from_keys() {
    let mut st = Store::new();
    st.set(s("k"), StoreVal::Str(s("v")), Some(1), 100);
    st.set(s("p"), StoreVal::Str(s("w")), None, 100);
    st.clean_expired(100);
    assert_eq!(st.keys().len(), 2);
    st.clean_expired(101);
    assert_eq!(st.keys(), vec![s("p")]);
}

#[test]
fn set_without_ttl_clears_ttl() {
    let mut st = Store::new();
    st.set(s("k"), StoreVal::Str(s("v")), Some(1), 100);
    st.set(s("k"), StoreVal::Str(s("w")), None, 100);
    assert!(st.get("k", 1000).is_some());
}

#[test]
fn delete_absent_is_fine() {
    let mut st = Store::new();
    st.delete("nope");
    st.set(s("k"), StoreVal::Str(s("v")), None, 0);
    st.delete("k");
    assert!(st.get("k", 0).is_none());
}

#[test]
fn store_val_accessors() {
    let v = StoreVal::Str(s("x"));
    assert_eq!(v.get_str().unwrap(), "x");
    assert!(v.get_set().is_none());
    assert!(v.get_hash().is_none());
    assert!(v.get_list().is_none());
    let l = StoreVal::List(vec![s("a")]);
    assert_eq!(l.get_list().unwrap().len(), 1);
    let h = StoreVal::Hash(vec![(s("f"), s("v"))]);
    assert_eq!(h.get_hash().unwrap()[0].1, "v");
    let m = StoreVal::Members(vec![s("a"), s("b")]);
    assert_eq!(m.get_set().unwrap().len(), 2);
}
