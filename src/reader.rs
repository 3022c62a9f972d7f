use vstd::prelude::*;

use crate::resp::{Resp, Typ, Value};

verus! {

/// The text a run of bytes decodes to as UTF-8, if it is valid UTF-8.
pub uninterp spec fn utf8_text(b: Seq<u8>) -> Option<Seq<char>>;

/// Relies on String::from_utf8: the decoded text of valid UTF-8; otherwise the
/// empty string is used.
#[verifier::external_body]
fn text_or_empty(b: &[u8]) -> (r: String)
    ensures
        utf8_text(b@) is Some ==> r@ == utf8_text(b@)->0,
        utf8_text(b@) is None ==> r@.len() == 0,
{
    String::from_utf8(b.to_vec()).unwrap_or_default()
}

/// Why no value could be read.
#[derive(Debug, Clone, Copy, PartialEq, Eq, Structural)]
pub enum ReadError {
    /// Nothing is left to read.
    Eof,
    /// The buffered bytes end inside a value.
    Incomplete,
}

/// The kind of value a first byte starts: arrays and bulk strings by their marker,
/// everything else as an inline line.
pub open spec fn kind_of(b: u8) -> Typ {
    if b == 42 {
        Typ::ARRAY
    } else if b == 36 {
        Typ::BULK
    } else {
        Typ::STRING
    }
}

/// A line without its closing `\r\n`; a bare `\n` stays.
pub open spec fn strip_crlf(l: Seq<u8>) -> Seq<u8> {
    if l.len() >= 2 && l[l.len() - 2] == 13 {
        l.subrange(0, l.len() - 2)
    } else {
        l
    }
}

/// `t` is what the bytes `b` read as: their text when valid UTF-8, else empty.
pub open spec fn reads_as(b: Seq<u8>, t: Seq<char>) -> bool {
    &&& utf8_text(b) is Some ==> t == utf8_text(b)->0
    &&& utf8_text(b) is None ==> t.len() == 0
}

/// `l` is one whole line: it ends with its only `\n`.
pub open spec fn is_line(l: Seq<u8>) -> bool {
    l.len() > 0 && l.last() == 10 && forall|k: int| 0 <= k < l.len() - 1 ==> l[k] != 10
}

/// Reads request values from buffered bytes.
pub struct Reader {
    data: Vec<u8>,
    pos: usize,
}

impl Reader {
    /// The bytes not read yet.
    pub closed spec fn rest(&self) -> Seq<u8> {
        self.data@.subrange(self.pos as int, self.data@.len() as int)
    }

    pub closed spec fn wf(&self) -> bool {
        self.pos <= self.data@.len()
    }

    pub fn new(data: Vec<u8>) -> (r: Reader)
        ensures
            r.wf(),
            r.rest() == data@,
    {
        let r = Reader { data, pos: 0 };
        proof {
            assert(r.rest() =~= data@);
        }
        r
    }

    /// Appends bytes that arrived after the ones buffered.
    pub fn feed(&mut self, more: &[u8])
        requires
            old(self).wf(),
        ensures
            final(self).wf(),
            final(self).rest() == old(self).rest() + more@,
    {
        let mut i: usize = 0;
        while i < more.len()
            invariant
                self.wf(),
                self.pos == old(self).pos,
                self.data@ == old(self).data@ + more@.subrange(0, i as int),
                i <= more@.len(),
            decreases more@.len() - i,
        {
            self.data.push(more[i]);
            i = i + 1;
            proof {
                assert(self.data@ =~= old(self).data@ + more@.subrange(0, i as int));
            }
        }
        proof {
            assert(more@.subrange(0, more@.len() as int) =~= more@);
            assert(self.rest() =~= old(self).rest() + more@);
        }
    }

    /// Reads the next value. On success the bytes it took are consumed, at least
    /// one, and the value's kind is the one its first byte announces; on failure
    /// nothing is consumed.
    pub fn read(&mut self) -> (r: Result<Resp, ReadError>)
        requires
            old(self).wf(),
        ensures
            final(self).wf(),
            old(self).rest().len() == 0 ==> r == Err::<Resp, ReadError>(ReadError::Eof),
            r is Ok ==> {
                &&& final(self).rest().len() < old(self).rest().len()
                &&& old(self).rest().subrange(
                    old(self).rest().len() - final(self).rest().len(),
                    old(self).rest().len() as int,
                ) == final(self).rest()
                &&& r->Ok_0.typ == kind_of(old(self).rest()[0])
            },
            r is Err ==> final(self).rest() == old(self).rest(),
            old(self).rest().len() > 0 && kind_of(old(self).rest()[0]) == Typ::STRING ==> {
                &&& old(self).rest().contains(10u8) ==> r is Ok
                &&& r is Ok ==> {
                    let l = old(self).rest().subrange(
                        0,
                        old(self).rest().len() - final(self).rest().len(),
                    );
                    &&& is_line(l)
                    &&& r->Ok_0.val is Str
                    &&& reads_as(strip_crlf(l), r->Ok_0.val->Str_0@)
                }
            },
    {
        if self.pos >= self.data.len() {
            return Err(ReadError::Eof);
        }
        match parse(&self.data, self.pos) {
            Ok((v, next)) => {
                let ghost o = old(self).rest();
                self.pos = next;
                proof {
                    assert(o[0] == self.data@[old(self).pos as int]);
                    assert(o.subrange(o.len() - self.rest().len(), o.len() as int) =~= self.rest());
                    assert(o.subrange(0, o.len() - self.rest().len()) =~= self.data@.subrange(
                        old(self).pos as int,
                        next as int,
                    ));
                }
                Ok(v)
            },
            Err(e) => {
                proof {
                    let o = old(self).rest();
                    if kind_of(o[0]) == Typ::STRING && o.contains(10u8) {
                        let k = choose|k: int| 0 <= k < o.len() && o[k] == 10u8;
                        assert(self.data@[self.pos + k] == 10u8);
                    }
                }
                Err(e)
            },
        }
    }
}

/// The end of the line starting at `pos` (just after its `\n`), if the buffer holds one.
fn line_end(data: &Vec<u8>, pos: usize) -> (r: Option<usize>)
    requires
        pos <= data@.len(),
    ensures
        match r {
            Some(e) => pos < e <= data@.len() && data@[e - 1] == 10 && forall|k: int|
                pos <= k < e - 1 ==> data@[k] != 10,
            None => forall|k: int| pos <= k < data@.len() ==> data@[k] != 10,
        },
{
    let mut i: usize = pos;
    while i < data.len()
        invariant
            pos <= i <= data@.len(),
            forall|k: int| pos <= k < i ==> data@[k] != 10,
        decreases data@.len() - i,
    {
        if data[i] == 10 {
            return Some(i + 1);
        }
        i = i + 1;
    }
    None
}

/// The line from `pos` to `end`, without a closing `\r\n`.
fn line_bytes(data: &Vec<u8>, pos: usize, end: usize) -> (r: Vec<u8>)
    requires
        pos < end <= data@.len(),
    ensures
        r@ == strip_crlf(data@.subrange(pos as int, end as int)),
{
    let mut stop = end;
    if end - pos >= 2 && data[end - 2] == 13 {
        stop = end - 2;
    }
    let mut out: Vec<u8> = Vec::new();
    let mut i: usize = pos;
    while i < stop
        invariant
            pos <= i <= stop,
            pos <= stop <= end <= data@.len(),
            out@ == data@.subrange(pos as int, i as int),
        decreases stop - i,
    {
        out.push(data[i]);
        i = i + 1;
        proof {
            assert(out@ =~= data@.subrange(pos as int, i as int));
        }
    }
    proof {
        assert(out@ =~= strip_crlf(data@.subrange(pos as int, end as int)));
    }
    out
}

/// The integer on a length line: surrounding blanks are skipped, an optional sign
/// and decimal digits are read; anything else reads as 0.
fn line_int(line: &Vec<u8>) -> (r: i64) {
    let mut a: usize = 0;
    let mut b: usize = line.len();
    while a < b && (line[a] == 32 || (9 <= line[a] && line[a] <= 13))
        invariant
            a <= b <= line@.len(),
        decreases b - a,
    {
        a = a + 1;
    }
    while b > a && (line[b - 1] == 32 || (9 <= line[b - 1] && line[b - 1] <= 13))
        invariant
            a <= b <= line@.len(),
        decreases b,
    {
        b = b - 1;
    }
    if a == b {
        return 0;
    }
    let neg = line[a] == 45;
    if line[a] == 45 || line[a] == 43 {
        a = a + 1;
        if a == b {
            return 0;
        }
    }
    let mut acc: u64 = 0;
    while a < b
        invariant
            a <= b <= line@.len(),
            acc <= 0x8000_0000_0000_0000,
        decreases b - a,
    {
        let c = line[a];
        if c < 48 || c > 57 {
            return 0;
        }
        if acc > 922_337_203_685_477_580 {
            return 0;
        }
        acc = acc * 10 + (c - 48) as u64;
        if acc > 0x8000_0000_0000_0000 {
            return 0;
        }
        a = a + 1;
    }
    if neg {
        if acc == 0x8000_0000_0000_0000 {
            i64::MIN
        } else {
            0 - (acc as i64)
        }
    } else if acc == 0x8000_0000_0000_0000 {
        0
    } else {
        acc as i64
    }
}

/// Parses one value starting at `pos`, returning it and the position after it.
fn parse(data: &Vec<u8>, pos: usize) -> (r: Result<(Resp, usize), ReadError>)
    requires
        pos < data@.len(),
    ensures
        r is Ok ==> pos < r->Ok_0.1 <= data@.len() && r->Ok_0.0.typ == kind_of(data@[pos as int]),
        r is Err ==> r == Err::<(Resp, usize), ReadError>(ReadError::Incomplete),
        kind_of(data@[pos as int]) == Typ::STRING ==> {
            &&& (exists|k: int| pos <= k < data@.len() && data@[k] == 10) ==> r is Ok
            &&& r is Ok ==> {
                let l = data@.subrange(pos as int, r->Ok_0.1 as int);
                &&& is_line(l)
                &&& r->Ok_0.0.val is Str
                &&& reads_as(strip_crlf(l), r->Ok_0.0.val->Str_0@)
            }
        },
    decreases data@.len() - pos,
{
    let total = data.len();
    let first = data[pos];
    if first == 42 {
        let end = match line_end(data, pos + 1) {
            Some(e) => e,
            None => {
                return Err(ReadError::Incomplete);
            },
        };
        let n = line_int(&line_bytes(data, pos + 1, end));
        let mut items: Vec<Resp> = Vec::new();
        let mut at: usize = end;
        let mut k: i64 = 0;
        while k < n
            invariant
                pos < at <= data@.len(),
                0 <= k,
                data@[pos as int] == 42,
            decreases n - k,
        {
            if at >= data.len() {
                return Err(ReadError::Incomplete);
            }
            match parse(data, at) {
                Ok((v, next)) => {
                    items.push(v);
                    at = next;
                },
                Err(e) => {
                    return Err(e);
                },
            }
            k = k + 1;
        }
        Ok((Resp { typ: Typ::ARRAY, val: Value::Arr(items) }, at))
    } else if first == 36 {
        let end = match line_end(data, pos + 1) {
            Some(e) => e,
            None => {
                return Err(ReadError::Incomplete);
            },
        };
        let len = line_int(&line_bytes(data, pos + 1, end));
        if len < 0 {
            return Ok((Resp { typ: Typ::BULK, val: Value::Str(String::new()) }, end));
        }
        if (len as u64) > ((total - end) as u64) {
            return Err(ReadError::Incomplete);
        }
        let stop = end + len as usize;
        let mut body: Vec<u8> = Vec::new();
        let mut i: usize = end;
        while i < stop
            invariant
                end <= i,
                stop <= data@.len(),
                pos < data@.len(),
                data@[pos as int] == 36,
            decreases stop - i,
        {
            body.push(data[i]);
            i = i + 1;
        }
        let after = if stop < data.len() {
            match line_end(data, stop) {
                Some(e) => e,
                None => {
                    return Err(ReadError::Incomplete);
                },
            }
        } else {
            return Err(ReadError::Incomplete);
        };
        Ok((Resp { typ: Typ::BULK, val: Value::Str(text_or_empty(body.as_slice())) }, after))
    } else {
        let end = match line_end(data, pos) {
            Some(e) => e,
            None => {
                return Err(ReadError::Incomplete);
            },
        };
        let line = line_bytes(data, pos, end);
        let text = text_or_empty(line.as_slice());
        proof {
            let l = data@.subrange(pos as int, end as int);
            assert forall|k: int| 0 <= k < l.len() - 1 implies l[k] != 10 by {
                assert(l[k] == data@[pos + k]);
            }
        }
        Ok((Resp { typ: Typ::STRING, val: Value::Str(text) }, end))
    }
}

} // verus!
