use animus_rust::resp::{Resp, Typ, Value, Writer};

#[test]
fn typ_bytes() {
    assert_eq!(Typ::from_byte(b'+'), Some(Typ::STRING));
    assert_eq!(Typ::from_byte(b'*'), Some(Typ::ARRAY));
    assert_eq!(Typ::from_byte(b'x'), None);
    assert_eq!(Typ::BULK.as_byte(), b'$');
    assert_eq!(Typ::INTEGER.as_byte(), b':');
}

#[test]
fn marshal_values() {
    let r = Resp { typ: Typ::STRING, val: Value::Str("OK".to_string()) };
    assert_eq!(r.marshal(), b"+OK\r\n".to_vec());
    let n = Resp { typ: Typ::INTEGER, val: Value::Num(-5) };
    assert_eq!(n.marshal(), b":-5\r\n".to_vec());
    let a = Resp {
        typ: Typ::ARRAY,
        val: Value::Arr(vec![
            Resp { typ: Typ::INTEGER, val: Value::Num(1) },
            Resp { typ: Typ::STRING, val: Value::Str("a".to_string()) },
        ]),
    };
    assert_eq!(a.marshal(), b"*2\r\n:1\r\n+a\r\n".to_vec());
    assert_eq!(Resp::marshal_null(), b"$-1\r\n".to_vec());
    assert_eq!(Resp::marshal_error("ERR x"), b"-ERR x\r\n".to_vec());
}

#[test]
fn writer_queues_bytes() {
    let mut w = Writer::new();
    w.write(Resp { typ: Typ::STRING, val: Value::Str("PONG".to_string()) }).unwrap();
    w.write(Resp { typ: Typ::INTEGER, val: Value::Num(12) }).unwrap();
    assert_eq!(w.take(), b"+PONG\r\n:12\r\n".to_vec());
    assert!(w.take().is_empty());
}
