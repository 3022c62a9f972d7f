use animus_rust::commands::{commands, dummy, find, info, init_commands, ping, Flags, Handler};
use animus_rust::reader::{ReadError, Reader};
use animus_rust::resp::{Typ, Value};

#[test]
fn reader_parses_array_of_bulk_strings() {
    let mut r = Reader::new(b"*2\r\n$4\r\nPING\r\n$3\r\nh\xc3\xa9\r\n".to_vec());
    let v = r.read().unwrap();
    assert!(matches!(v.typ, Typ::ARRAY));
    match v.val {
        Value::Arr(items) => {
            assert_eq!(items.len(), 2);
            match (&items[0].val, &items[1].val) {
                (Value::Str(a), Value::Str(b)) => {
                    assert_eq!(a, "PING");
                    assert_eq!(b, "hé");
                }
                _ => panic!("expected strings"),
            }
        }
        _ => panic!("expected an array"),
    }
    assert_eq!(r.read().err(), Some(ReadError::Eof));
}

#[test]
fn reader_inline_and_negative_bulk() {
    let mut r = Reader::new(b"PING\r\n$-1\r\n".to_vec());
    let a = r.read().unwrap();
    assert!(matches!(a.typ, Typ::STRING));
    assert!(matches!(a.val, Value::Str(ref s) if s == "PING"));
    let b = r.read().unwrap();
    assert!(matches!(b.typ, Typ::BULK));
    assert!(matches!(b.val, Value::Str(ref s) if s.is_empty()));
}

#[test]
fn reader_waits_for_more_bytes() {
    let mut r = Reader::new(b"*1\r\n$3\r\nGE".to_vec());
    assert_eq!(r.read().err(), Some(ReadError::Incomplete));
    r.feed(b"T\r\n");
    let v = r.read().unwrap();
    assert!(matches!(v.val, Value::Arr(ref a) if a.len() == 1));
}

#[test]
fn reader_invalid_utf8_reads_as_empty() {
    let mut r = Reader::new(b"$2\r\n\xff\xfe\r\n".to_vec());
    let v = r.read().unwrap();
    assert!(matches!(v.val, Value::Str(ref s) if s.is_empty()));
}

#[test]
fn command_table_lookup() {
    let t = commands();
    assert_eq!(t.len(), init_commands().len());
    assert_eq!(t.len(), 42);
    let i = find(&t, "ping").unwrap();
    assert_eq!(t[i].name, "PING");
    assert_eq!(t[i].handler, Handler::Ping);
    assert_eq!(t[i].arity, -1);
    assert_eq!(t[i].flags.names(), vec!["readonly", "fast"]);
    let j = find(&t, "RPush").unwrap();
    assert_eq!(t[j].flags, Flags::Plain);
    assert!(find(&t, "NOPE").is_none());
}

#[test]
fn handlers_reply() {
    assert!(matches!(ping(vec![]).val, Value::Str(ref s) if s == "PONG"));
    let i = info(vec![]);
    assert!(matches!(i.typ, Typ::BULK));
    assert!(matches!(dummy(vec![]).val, Value::Str(ref s) if s == "OK"));
    assert!(matches!(Handler::Info.call(vec![]).val, Value::Str(ref s) if s == "INFO"));
}

#[test]
fn command_table_rows() {
    let t = init_commands();
    for c in &t {
        assert_eq!((c.first_key, c.last_key, c.step), (0, 0, 0));
    }
    let g = &t[find(&t, "GET").unwrap()];
    assert_eq!(g.arity, 2);
    assert_eq!(g.handler, Handler::Dummy);
    assert!(g.doc.starts_with("GET [KEY]"));
    assert_eq!(t[find(&t, "INFO").unwrap()].handler, Handler::Info);
}
