use vstd::prelude::*;

use crate::num::{decimal, format_i64, format_usize};
use vstd::string::StringSliceAdditionalSpecFns;

verus! {

/// The kind of a reply or request value, named by its first byte on the wire.
#[derive(Debug, Clone, Copy, PartialEq, Eq, Structural)]
pub enum Typ {
    STRING,
    ERROR,
    INTEGER,
    BULK,
    ARRAY,
}

pub open spec fn typ_byte(t: Typ) -> u8 {
    match t {
        Typ::STRING => 43,
        Typ::ERROR => 45,
        Typ::INTEGER => 58,
        Typ::BULK => 36,
        Typ::ARRAY => 42,
    }
}

impl Typ {
    /// The kind a first byte announces, if any.
    pub fn from_byte(byte: u8) -> (r: Option<Typ>)
        ensures
            r is Some <==> (byte == 43 || byte == 45 || byte == 58 || byte == 36 || byte == 42),
            r is Some ==> typ_byte(r->0) == byte,
    {
        match byte {
            43 => Some(Typ::STRING),
            45 => Some(Typ::ERROR),
            58 => Some(Typ::INTEGER),
            36 => Some(Typ::BULK),
            42 => Some(Typ::ARRAY),
            _ => None,
        }
    }

    /// The first byte that announces this kind.
    pub fn as_byte(&self) -> (r: u8)
        ensures
            r == typ_byte(*self),
    {
        match self {
            Typ::STRING => 43,
            Typ::ERROR => 45,
            Typ::INTEGER => 58,
            Typ::BULK => 36,
            Typ::ARRAY => 42,
        }
    }
}

#[derive(Debug)]
pub enum Value {
    Num(i64),
    Str(String),
    Arr(Vec<Resp>),
}

/// A request or reply value.
#[derive(Debug)]
pub struct Resp {
    pub typ: Typ,
    pub val: Value,
}

pub open spec fn crlf() -> Seq<u8> {
    seq![13u8, 10u8]
}

/// ASCII text as bytes.
pub open spec fn ascii_bytes(s: Seq<char>) -> Seq<u8> {
    s.map_values(|c: char| c as u8)
}

/// A line that starts with `lead`, then `body`, then CR LF.
pub open spec fn framed(lead: u8, body: Seq<u8>) -> Seq<u8> {
    seq![lead] + body + crlf()
}

fn push_chars(out: &mut Vec<u8>, cs: &Vec<char>)
    ensures
        final(out)@ == old(out)@ + ascii_bytes(cs@),
{
    let mut i: usize = 0;
    while i < cs.len()
        invariant
            i <= cs@.len(),
            out@ == old(out)@ + ascii_bytes(cs@.subrange(0, i as int)),
        decreases cs@.len() - i,
    {
        out.push(cs[i] as u8);
        i = i + 1;
        proof {
            assert(out@ =~= old(out)@ + ascii_bytes(cs@.subrange(0, i as int)));
        }
    }
    proof {
        assert(cs@.subrange(0, cs@.len() as int) =~= cs@);
    }
}

fn push_bytes(out: &mut Vec<u8>, bs: &[u8])
    ensures
        final(out)@ == old(out)@ + bs@,
{
    let mut i: usize = 0;
    while i < bs.len()
        invariant
            i <= bs@.len(),
            out@ == old(out)@ + bs@.subrange(0, i as int),
        decreases bs@.len() - i,
    {
        out.push(bs[i]);
        i = i + 1;
        proof {
            assert(out@ =~= old(out)@ + bs@.subrange(0, i as int));
        }
    }
    proof {
        assert(bs@.subrange(0, bs@.len() as int) =~= bs@);
    }
}

impl Resp {
    /// The wire form of this value.
    pub fn marshal(&self) -> (r: Vec<u8>)
        ensures
            match self.val {
                Value::Num(n) => r@ == framed(58, ascii_bytes(decimal(n as int))),
                Value::Str(s) => exists|t: &str| t@ == s@ && r@ == #[trigger] framed(43, t.spec_bytes()),
                Value::Arr(a) => r@.len() >= 3 + ascii_bytes(decimal(a@.len() as int)).len()
                    && r@.subrange(0, 3 + ascii_bytes(decimal(a@.len() as int)).len() as int)
                    == framed(42, ascii_bytes(decimal(a@.len() as int))),
            },
        decreases self,
    {
        match &self.val {
            Value::Arr(arr) => {
                let mut bytes: Vec<u8> = Vec::new();
                bytes.push(42);
                let digits = format_usize(arr.len());
                push_chars(&mut bytes, &digits);
                bytes.push(13);
                bytes.push(10);
                let ghost head = bytes@;
                proof {
                    assert(head =~= framed(42, ascii_bytes(decimal(arr@.len() as int))));
                }
                let mut i: usize = 0;
                while i < arr.len()
                    invariant
                        self.val is Arr,
                        *arr == self.val->Arr_0,
                        i <= arr@.len(),
                        bytes@.len() >= head.len(),
                        bytes@.subrange(0, head.len() as int) == head,
                    decreases arr@.len() - i,
                {
                    proof {
                        vstd::std_specs::vec::axiom_vec_index_decreases(*arr, i as int);
                        assert(decreases_to!(*self => self.val));
                        assert(*arr == self.val->Arr_0);
                        assert(decreases_to!(self.val => self.val->Arr_0));
                        assert(decreases_to!(*arr => arr[i as int]));
                    }
                    let part = arr[i].marshal();
                    let ghost before = bytes@;
                    push_bytes(&mut bytes, part.as_slice());
                    proof {
                        assert(bytes@.subrange(0, head.len() as int) =~= before.subrange(
                            0,
                            head.len() as int,
                        ));
                    }
                    i = i + 1;
                }
                bytes
            },
            Value::Str(s) => {
                let t = s.as_str();
                let r = Resp::marshal_string(t);
                proof {
                    assert(t@ == s@);
                    assert(r@ == framed(43, t.spec_bytes()));
                }
                r
            },
            Value::Num(n) => Resp::marshal_int(*n),
        }
    }

    fn marshal_int(num: i64) -> (r: Vec<u8>)
        ensures
            r@ == framed(58, ascii_bytes(decimal(num as int))),
    {
        let mut bytes: Vec<u8> = Vec::new();
        bytes.push(58);
        let digits = format_i64(num);
        push_chars(&mut bytes, &digits);
        bytes.push(13);
        bytes.push(10);
        proof {
            assert(bytes@ =~= framed(58, ascii_bytes(decimal(num as int))));
        }
        bytes
    }

    fn marshal_string(s: &str) -> (r: Vec<u8>)
        ensures
            r@ == framed(43, s.spec_bytes()),
    {
        let mut bytes: Vec<u8> = Vec::new();
        bytes.push(43);
        push_bytes(&mut bytes, s.as_bytes());
        bytes.push(13);
        bytes.push(10);
        proof {
            assert(bytes@ =~= framed(43, s.spec_bytes()));
        }
        bytes
    }

    /// The wire form of a null reply.
    pub fn marshal_null() -> (r: Vec<u8>)
        ensures
            r@ == seq![36u8, 45u8, 49u8, 13u8, 10u8],
    {
        let mut bytes: Vec<u8> = Vec::new();
        bytes.push(36);
        bytes.push(45);
        bytes.push(49);
        bytes.push(13);
        bytes.push(10);
        proof {
            assert(bytes@ =~= seq![36u8, 45u8, 49u8, 13u8, 10u8]);
        }
        bytes
    }

    /// The wire form of an error reply carrying `s`.
    pub fn marshal_error(s: &str) -> (r: Vec<u8>)
        ensures
            r@ == framed(45, s.spec_bytes()),
    {
        let mut bytes: Vec<u8> = Vec::new();
        bytes.push(45);
        push_bytes(&mut bytes, s.as_bytes());
        bytes.push(13);
        bytes.push(10);
        proof {
            assert(bytes@ =~= framed(45, s.spec_bytes()));
        }
        bytes
    }
}

/// Collects the wire form of replies until the caller hands them to a transport.
pub struct Writer {
    pending: Vec<u8>,
}

impl Writer {
    pub closed spec fn pending_bytes(&self) -> Seq<u8> {
        self.pending@
    }

    pub fn new() -> (r: Writer)
        ensures
            r.pending_bytes().len() == 0,
    {
        Writer { pending: Vec::new() }
    }

    /// Queues the wire form of `v`.
    pub fn write(&mut self, v: Resp) -> (r: Result<(), ()>)
        ensures
            r is Ok,
            exists|bytes: Seq<u8>|
                final(self).pending_bytes() == old(self).pending_bytes() + bytes && match v.val {
                    Value::Num(n) => bytes == framed(58, ascii_bytes(decimal(n as int))),
                    Value::Str(s) => exists|t: &str| t@ == s@ && bytes == #[trigger] framed(43, t.spec_bytes()),
                    Value::Arr(_) => true,
                },
    {
        let bytes = v.marshal();
        push_bytes(&mut self.pending, bytes.as_slice());
        proof {
            assert(final(self).pending_bytes() == old(self).pending_bytes() + bytes@);
        }
        Ok(())
    }

    /// Hands over the queued bytes and empties the queue.
    pub fn take(&mut self) -> (r: Vec<u8>)
        ensures
            r@ == old(self).pending_bytes(),
            final(self).pending_bytes().len() == 0,
    {
        let mut out: Vec<u8> = Vec::new();
        std::mem::swap(&mut out, &mut self.pending);
        out
    }
}

} // verus!
