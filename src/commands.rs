use vstd::prelude::*;
use vstd::string::StrSliceExecFns;
use vstd::string::StringExecFns;

use crate::resp::{Resp, Typ, Value};

verus! {

/// What a command runs when it is called.
#[derive(Debug, Clone, Copy, PartialEq, Eq, Structural)]
pub enum Handler {
    Ping,
    Info,
    Dummy,
}

/// A command's name, handler and metadata: `arity` is an exact argument count, or
/// at least `-arity` arguments when negative, counting the command name.
pub struct Command {
    pub name: &'static str,
    pub handler: Handler,
    pub doc: &'static str,
    pub arity: i32,
    pub flags: Flags,
    pub first_key: i32,
    pub last_key: i32,
    pub step: i32,
}

/// The flags a command carries.
#[derive(Debug, Clone, Copy, PartialEq, Eq, Structural)]
pub enum Flags {
    /// `readonly` and `fast`.
    ReadonlyFast,
    /// None.
    Plain,
}

impl Flags {
    /// The flag names.
    pub fn names(&self) -> (r: Vec<&'static str>)
        ensures
            *self == Flags::ReadonlyFast ==> r@.len() == 2 && r@[0]@ == "readonly"@ && r@[1]@
                == "fast"@,
            *self == Flags::Plain ==> r@.len() == 0,
    {
        let mut v: Vec<&'static str> = Vec::new();
        if let Flags::ReadonlyFast = self {
            v.push("readonly");
            v.push("fast");
        }
        v
    }
}

/// A simple-string reply holding `text`.
pub open spec fn is_reply(r: Resp, typ: Typ, text: Seq<char>) -> bool {
    r.typ == typ && r.val is Str && r.val->Str_0@ == text
}

pub fn ping(args: Vec<Resp>) -> (r: Resp)
    ensures
        is_reply(r, Typ::STRING, "PONG"@),
{
    Resp { val: Value::Str(String::from_str("PONG")), typ: Typ::STRING }
}

pub fn info(args: Vec<Resp>) -> (r: Resp)
    ensures
        is_reply(r, Typ::BULK, "INFO"@),
{
    Resp { val: Value::Str(String::from_str("INFO")), typ: Typ::BULK }
}

/// The reply of a command that has no behaviour of its own yet.
pub fn dummy(args: Vec<Resp>) -> (r: Resp)
    ensures
        is_reply(r, Typ::STRING, "OK"@),
{
    Resp { val: Value::Str(String::from_str("OK")), typ: Typ::STRING }
}

impl Handler {
    pub fn call(&self, args: Vec<Resp>) -> (r: Resp)
        ensures
            match self {
                Handler::Ping => is_reply(r, Typ::STRING, "PONG"@),
                Handler::Info => is_reply(r, Typ::BULK, "INFO"@),
                Handler::Dummy => is_reply(r, Typ::STRING, "OK"@),
            },
    {
        match self {
            Handler::Ping => ping(args),
            Handler::Info => info(args),
            Handler::Dummy => dummy(args),
        }
    }
}

fn command(
    name: &'static str,
    handler: Handler,
    doc: &'static str,
    arity: i32,
    flags: Flags,
) -> (r: Command)
    ensures
        r.name == name,
        r.handler == handler,
        r.doc == doc,
        r.arity == arity,
        r.flags == flags,
        r.first_key == 0,
        r.last_key == 0,
        r.step == 0,
{
    Command { name, handler, doc, arity, flags, first_key: 0, last_key: 0, step: 0 }
}

/// The command table, in order: name, handler, documentation, arity and flags.
pub open spec fn command_table() -> Seq<(Seq<char>, Handler, Seq<char>, i32, Flags)> {
    seq![
        ("PING"@, Handler::Ping, "PING [ARGUMENT]\nReturns PONG to test server responsiveness."@, -1i32, Flags::ReadonlyFast),
        ("COMMAND"@, Handler::Dummy, "COMMAND\nReturns metadata about all registered commands."@, 0i32, Flags::ReadonlyFast),
        ("INFO"@, Handler::Info, "INFO\nReturns information and statistics about the server."@, 0i32, Flags::ReadonlyFast),
        ("CONFIG"@, Handler::Dummy, "CONFIG\nCommand to handle server configuration."@, -1i32, Flags::ReadonlyFast),
        ("HELP"@, Handler::Dummy, "HELP [COMMAND]\nProvides details on how to use a command and what the command actually does."@, -1i32, Flags::ReadonlyFast),
        ("APPEND"@, Handler::Dummy, "APPEND [KEY] [VALUE]\nAppends a value to a key and returns the new length of the string."@, 3i32, Flags::ReadonlyFast),
        ("DECR"@, Handler::Dummy, "DECR [KEY]\nDecrements the integer value of a key by one."@, 2i32, Flags::ReadonlyFast),
        ("DECRBY"@, Handler::Dummy, "DECRBY [KEY] [DECREMENT]\nDecrements the integer value of a key by the given amount."@, 3i32, Flags::ReadonlyFast),
        ("GET"@, Handler::Dummy, "GET [KEY]\nGets the value of a key."@, 2i32, Flags::ReadonlyFast),
        ("GETDEL"@, Handler::Dummy, "GETDEL [KEY]\nGets the value of a key and deletes it."@, 2i32, Flags::ReadonlyFast),
        ("GETEX"@, Handler::Dummy, "GETEX [KEY] [EXPIRATION]\nGets the value of a key and sets an expiration."@, 3i32, Flags::ReadonlyFast),
        ("GETRANGE"@, Handler::Dummy, "GETRANGE [KEY] [START] [END]\nGets a substring of the string stored at a key."@, 4i32, Flags::ReadonlyFast),
        ("GETSET"@, Handler::Dummy, "GETSET [KEY] [VALUE]\nGets the previous key value and then sets it to the passed value."@, 3i32, Flags::ReadonlyFast),
        ("INCR"@, Handler::Dummy, "INCR [KEY]\nIncrements the integer value of a key by one."@, 2i32, Flags::ReadonlyFast),
        ("INCRBY"@, Handler::Dummy, "INCRBY [KEY] [INCREMENT]\nIncrements the integer value of a key by the given amount."@, 3i32, Flags::ReadonlyFast),
        ("INCRBYFLOAT"@, Handler::Dummy, "INCRBYFLOAT [KEY] [INCREMENT]\nIncrements the float value of a key by the given amount."@, 3i32, Flags::ReadonlyFast),
        ("LCS"@, Handler::Dummy, "LCS [KEY1] [KEY2] LEN\nFinds the Longest Common Subsequence between the value of two keys.\nSend the optional LEN argument to get just the length."@, 4i32, Flags::ReadonlyFast),
        ("MGET"@, Handler::Dummy, "MGET key [key ...]\nReturns the values for all the keys. Returns nil for a non-existing key."@, -2i32, Flags::ReadonlyFast),
        ("MSET"@, Handler::Dummy, "MSET key value [key1 value1 ...]\nSets the values for all the keys value pair."@, -3i32, Flags::ReadonlyFast),
        ("SET"@, Handler::Dummy, "SET [KEY] [VALUE]\nSets the value of a key."@, -3i32, Flags::ReadonlyFast),
        ("SETRANGE"@, Handler::Dummy, "SETRANGE key offset value"@, -3i32, Flags::ReadonlyFast),
        ("SETEX"@, Handler::Dummy, "SET [KEY] [VALUE] [EX SECONDS]\nSets the value of a key with expiration in seconds."@, 4i32, Flags::ReadonlyFast),
        ("STRLEN"@, Handler::Dummy, "STRLEN [KEY]\nReturns the length of the string value stored at key."@, 2i32, Flags::ReadonlyFast),
        ("HSET"@, Handler::Dummy, "HSET [KEY] [FIELD] [VALUE]\nSets a field in the hash stored at key to a value."@, -4i32, Flags::ReadonlyFast),
        ("HGET"@, Handler::Dummy, "HGET [KEY] [FIELD]\nGets the value of a field in the hash stored at key."@, 3i32, Flags::ReadonlyFast),
        ("HEXISTS"@, Handler::Dummy, "HEXISTS [KEY] [FIELD]\nChecks if the hash and the field combination exists in the store."@, 3i32, Flags::ReadonlyFast),
        ("HEXPIRE"@, Handler::Dummy, "HEXPIRE key seconds [NX XX GT LT]\nSets a timeout on hash key. After the timeout, the key gets deleted."@, 3i32, Flags::ReadonlyFast),
        ("HDEL"@, Handler::Dummy, "HDEL [KEY] [FIELD]\nDeletes a field from the hash stored at key."@, 3i32, Flags::ReadonlyFast),
        ("HGETALL"@, Handler::Dummy, "HGETALL [KEY]\nReturns all fields and values of the hash stored at key."@, 2i32, Flags::ReadonlyFast),
        ("RPOP"@, Handler::Dummy, "RPOP [KEY] [COUNT]\nRemoves and returns the last element(s) of the list stored at key."@, -2i32, Flags::Plain),
        ("RPUSH"@, Handler::Dummy, "RPUSH [KEY] [VALUE] [VALUE ...]\nInserts one or more elements at the end of the list stored at key."@, -3i32, Flags::Plain),
        ("SADD"@, Handler::Dummy, "SADD [KEY] [MEMBER] [MEMBER ...]\nAdds one or more members to the set stored at key."@, -3i32, Flags::ReadonlyFast),
        ("SCARD"@, Handler::Dummy, "SCARD [KEY]\nReturns the number of members in the set stored at key."@, 2i32, Flags::ReadonlyFast),
        ("SDIFF"@, Handler::Dummy, "SDIFF [KEY] [KEY ...]\nReturns the members of the set resulting from the difference between the first set and all the successive sets."@, -2i32, Flags::ReadonlyFast),
        ("SISMEMBER"@, Handler::Dummy, "SISMEMBER [KEY] [MEMBER]\nReturns if member is a member of the set stored at key."@, 3i32, Flags::ReadonlyFast),
        ("COPY"@, Handler::Dummy, "COPY [key1] [key2]\nCopies value(s) of key1 into key2. If key2 doesn't exist, creates key2 and copies the value of key1 into key2."@, 3i32, Flags::ReadonlyFast),
        ("DEL"@, Handler::Dummy, "DEL key1 [keys...]\nDeletes all the keys passed as argument. Ignores the keys in the argument that don't exist."@, -2i32, Flags::ReadonlyFast),
        ("EXISTS"@, Handler::Dummy, "EXISTS key1 [keys...]\nReturns an integer denoting how many of the passed keys exist in the cache."@, -2i32, Flags::ReadonlyFast),
        ("EXPIRE"@, Handler::Dummy, "EXPIRE key seconds [NX XX GT LT]\nSets a timeout on key. After the timeout, the key gets deleted."@, 3i32, Flags::ReadonlyFast),
        ("EXPIREAT"@, Handler::Dummy, "EXPIREAT key unix-time-seconds [NX XX GT LT]\nSets the timeout of a key to the unix time stamp in seconds. After the timeout, the key gets deleted."@, 3i32, Flags::ReadonlyFast),
        ("EXPIRETIME"@, Handler::Dummy, "EXPIRETIME key\nReturns the expire time of a key in unix epoch seconds. -1 if the key doesn't have an expiry set, -2 if the key doesn't exist."@, 2i32, Flags::ReadonlyFast),
        ("KEYS"@, Handler::Dummy, "KEYS\nReturns the keys that exist in the store."@, 1i32, Flags::ReadonlyFast),
    ]
}

/// `c` is the table row `t`, with no key positions.
pub open spec fn is_row(c: Command, t: (Seq<char>, Handler, Seq<char>, i32, Flags)) -> bool {
    &&& c.name@ == t.0
    &&& c.handler == t.1
    &&& c.doc@ == t.2
    &&& c.arity == t.3
    &&& c.flags == t.4
    &&& c.first_key == 0
    &&& c.last_key == 0
    &&& c.step == 0
}

/// Builds the command table.
pub fn init_commands() -> (r: Vec<Command>)
    ensures
        r@.len() == command_table().len(),
        forall|i: int| 0 <= i < r@.len() ==> is_row(#[trigger] r@[i], command_table()[i]),
{
    let mut m: Vec<Command> = Vec::new();
    m.push(command("PING", Handler::Ping, "PING [ARGUMENT]\nReturns PONG to test server responsiveness.", -1, Flags::ReadonlyFast));
    m.push(command("COMMAND", Handler::Dummy, "COMMAND\nReturns metadata about all registered commands.", 0, Flags::ReadonlyFast));
    m.push(command("INFO", Handler::Info, "INFO\nReturns information and statistics about the server.", 0, Flags::ReadonlyFast));
    m.push(command("CONFIG", Handler::Dummy, "CONFIG\nCommand to handle server configuration.", -1, Flags::ReadonlyFast));
    m.push(command("HELP", Handler::Dummy, "HELP [COMMAND]\nProvides details on how to use a command and what the command actually does.", -1, Flags::ReadonlyFast));
    m.push(command("APPEND", Handler::Dummy, "APPEND [KEY] [VALUE]\nAppends a value to a key and returns the new length of the string.", 3, Flags::ReadonlyFast));
    m.push(command("DECR", Handler::Dummy, "DECR [KEY]\nDecrements the integer value of a key by one.", 2, Flags::ReadonlyFast));
    m.push(command("DECRBY", Handler::Dummy, "DECRBY [KEY] [DECREMENT]\nDecrements the integer value of a key by the given amount.", 3, Flags::ReadonlyFast));
    m.push(command("GET", Handler::Dummy, "GET [KEY]\nGets the value of a key.", 2, Flags::ReadonlyFast));
    m.push(command("GETDEL", Handler::Dummy, "GETDEL [KEY]\nGets the value of a key and deletes it.", 2, Flags::ReadonlyFast));
    m.push(command("GETEX", Handler::Dummy, "GETEX [KEY] [EXPIRATION]\nGets the value of a key and sets an expiration.", 3, Flags::ReadonlyFast));
    m.push(command("GETRANGE", Handler::Dummy, "GETRANGE [KEY] [START] [END]\nGets a substring of the string stored at a key.", 4, Flags::ReadonlyFast));
    m.push(command("GETSET", Handler::Dummy, "GETSET [KEY] [VALUE]\nGets the previous key value and then sets it to the passed value.", 3, Flags::ReadonlyFast));
    m.push(command("INCR", Handler::Dummy, "INCR [KEY]\nIncrements the integer value of a key by one.", 2, Flags::ReadonlyFast));
    m.push(command("INCRBY", Handler::Dummy, "INCRBY [KEY] [INCREMENT]\nIncrements the integer value of a key by the given amount.", 3, Flags::ReadonlyFast));
    m.push(command("INCRBYFLOAT", Handler::Dummy, "INCRBYFLOAT [KEY] [INCREMENT]\nIncrements the float value of a key by the given amount.", 3, Flags::ReadonlyFast));
    m.push(command("LCS", Handler::Dummy, "LCS [KEY1] [KEY2] LEN\nFinds the Longest Common Subsequence between the value of two keys.\nSend the optional LEN argument to get just the length.", 4, Flags::ReadonlyFast));
    m.push(command("MGET", Handler::Dummy, "MGET key [key ...]\nReturns the values for all the keys. Returns nil for a non-existing key.", -2, Flags::ReadonlyFast));
    m.push(command("MSET", Handler::Dummy, "MSET key value [key1 value1 ...]\nSets the values for all the keys value pair.", -3, Flags::ReadonlyFast));
    m.push(command("SET", Handler::Dummy, "SET [KEY] [VALUE]\nSets the value of a key.", -3, Flags::ReadonlyFast));
    m.push(command("SETRANGE", Handler::Dummy, "SETRANGE key offset value", -3, Flags::ReadonlyFast));
    m.push(command("SETEX", Handler::Dummy, "SET [KEY] [VALUE] [EX SECONDS]\nSets the value of a key with expiration in seconds.", 4, Flags::ReadonlyFast));
    m.push(command("STRLEN", Handler::Dummy, "STRLEN [KEY]\nReturns the length of the string value stored at key.", 2, Flags::ReadonlyFast));
    m.push(command("HSET", Handler::Dummy, "HSET [KEY] [FIELD] [VALUE]\nSets a field in the hash stored at key to a value.", -4, Flags::ReadonlyFast));
    m.push(command("HGET", Handler::Dummy, "HGET [KEY] [FIELD]\nGets the value of a field in the hash stored at key.", 3, Flags::ReadonlyFast));
    m.push(command("HEXISTS", Handler::Dummy, "HEXISTS [KEY] [FIELD]\nChecks if the hash and the field combination exists in the store.", 3, Flags::ReadonlyFast));
    m.push(command("HEXPIRE", Handler::Dummy, "HEXPIRE key seconds [NX XX GT LT]\nSets a timeout on hash key. After the timeout, the key gets deleted.", 3, Flags::ReadonlyFast));
    m.push(command("HDEL", Handler::Dummy, "HDEL [KEY] [FIELD]\nDeletes a field from the hash stored at key.", 3, Flags::ReadonlyFast));
    m.push(command("HGETALL", Handler::Dummy, "HGETALL [KEY]\nReturns all fields and values of the hash stored at key.", 2, Flags::ReadonlyFast));
    m.push(command("RPOP", Handler::Dummy, "RPOP [KEY] [COUNT]\nRemoves and returns the last element(s) of the list stored at key.", -2, Flags::Plain));
    m.push(command("RPUSH", Handler::Dummy, "RPUSH [KEY] [VALUE] [VALUE ...]\nInserts one or more elements at the end of the list stored at key.", -3, Flags::Plain));
    m.push(command("SADD", Handler::Dummy, "SADD [KEY] [MEMBER] [MEMBER ...]\nAdds one or more members to the set stored at key.", -3, Flags::ReadonlyFast));
    m.push(command("SCARD", Handler::Dummy, "SCARD [KEY]\nReturns the number of members in the set stored at key.", 2, Flags::ReadonlyFast));
    m.push(command("SDIFF", Handler::Dummy, "SDIFF [KEY] [KEY ...]\nReturns the members of the set resulting from the difference between the first set and all the successive sets.", -2, Flags::ReadonlyFast));
    m.push(command("SISMEMBER", Handler::Dummy, "SISMEMBER [KEY] [MEMBER]\nReturns if member is a member of the set stored at key.", 3, Flags::ReadonlyFast));
    m.push(command("COPY", Handler::Dummy, "COPY [key1] [key2]\nCopies value(s) of key1 into key2. If key2 doesn't exist, creates key2 and copies the value of key1 into key2.", 3, Flags::ReadonlyFast));
    m.push(command("DEL", Handler::Dummy, "DEL key1 [keys...]\nDeletes all the keys passed as argument. Ignores the keys in the argument that don't exist.", -2, Flags::ReadonlyFast));
    m.push(command("EXISTS", Handler::Dummy, "EXISTS key1 [keys...]\nReturns an integer denoting how many of the passed keys exist in the cache.", -2, Flags::ReadonlyFast));
    m.push(command("EXPIRE", Handler::Dummy, "EXPIRE key seconds [NX XX GT LT]\nSets a timeout on key. After the timeout, the key gets deleted.", 3, Flags::ReadonlyFast));
    m.push(command("EXPIREAT", Handler::Dummy, "EXPIREAT key unix-time-seconds [NX XX GT LT]\nSets the timeout of a key to the unix time stamp in seconds. After the timeout, the key gets deleted.", 3, Flags::ReadonlyFast));
    m.push(command("EXPIRETIME", Handler::Dummy, "EXPIRETIME key\nReturns the expire time of a key in unix epoch seconds. -1 if the key doesn't have an expiry set, -2 if the key doesn't exist.", 2, Flags::ReadonlyFast));
    m.push(command("KEYS", Handler::Dummy, "KEYS\nReturns the keys that exist in the store.", 1, Flags::ReadonlyFast));
    proof {
        assert forall|i: int| 0 <= i < m@.len() implies is_row(#[trigger] m@[i], command_table()[i]) by {}
    }
    m
}

/// The command table.
pub fn commands() -> (r: Vec<Command>)
    ensures
        r@.len() == command_table().len(),
        forall|i: int| 0 <= i < r@.len() ==> is_row(#[trigger] r@[i], command_table()[i]),
{
    init_commands()
}

/// The code of `c` in upper case, for ASCII letters.
pub open spec fn ascii_upper(c: char) -> u32 {
    if 'a' <= c && c <= 'z' {
        ((c as u32) - 32) as u32
    } else {
        c as u32
    }
}

/// Command names compare without regard to ASCII case.
pub open spec fn same_name(request: Seq<char>, name: Seq<char>) -> bool {
    request.len() == name.len() && forall|i: int|
        0 <= i < name.len() ==> ascii_upper(#[trigger] request[i]) == ascii_upper(name[i])
}

fn name_matches(request: &str, name: &str) -> (r: bool)
    ensures
        r == same_name(request@, name@),
{
    let n = name.unicode_len();
    if request.unicode_len() != n {
        return false;
    }
    let mut i: usize = 0;
    while i < n
        invariant
            n == name@.len(),
            n == request@.len(),
            i <= n,
            forall|j: int| 0 <= j < i ==> ascii_upper(#[trigger] request@[j]) == ascii_upper(name@[j]),
        decreases n - i,
    {
        let a = request.get_char(i);
        let b = name.get_char(i);
        let ua: u32 = if 'a' <= a && a <= 'z' { (a as u32) - 32 } else { a as u32 };
        let ub: u32 = if 'a' <= b && b <= 'z' { (b as u32) - 32 } else { b as u32 };
        if ua != ub {
            return false;
        }
        i = i + 1;
    }
    true
}

/// The position of the first command in `table` named `request`, in any case.
pub fn find(table: &Vec<Command>, request: &str) -> (r: Option<usize>)
    ensures
        match r {
            Some(i) => i < table@.len() && same_name(request@, table@[i as int].name@) && forall|
                j: int,
            | 0 <= j < i ==> !same_name(request@, (#[trigger] table@[j]).name@),
            None => forall|j: int|
                0 <= j < table@.len() ==> !same_name(request@, (#[trigger] table@[j]).name@),
        },
{
    let mut i: usize = 0;
    while i < table.len()
        invariant
            i <= table@.len(),
            forall|j: int| 0 <= j < i ==> !same_name(request@, (#[trigger] table@[j]).name@),
        decreases table@.len() - i,
    {
        if name_matches(request, table[i].name) {
            return Some(i);
        }
        i = i + 1;
    }
    None
}

} // verus!
