//! The bytes written back for each decision.
use vstd::prelude::*;
use crate::command::RedisCommand;
use crate::resp::{append_bytes, ser, serialize, RespDatatype, RespValue};

verus! {

/// `+PONG\r\n`
pub open spec fn pong_bytes() -> Seq<u8> {
    seq![43u8, 80, 79, 78, 71, 13, 10]
}

/// `+OK\r\n`
pub open spec fn ok_bytes() -> Seq<u8> {
    seq![43u8, 79, 75, 13, 10]
}

/// What is written back for a decision, message by message; `None` when
/// nothing is written at once.
pub open spec fn response_spec(c: RedisCommand) -> Option<Seq<Seq<u8>>> {
    match c {
        RedisCommand::Pong => Some(seq![pong_bytes()]),
        RedisCommand::Okay | RedisCommand::ReplconfOk1 | RedisCommand::ReplconfOk2 => Some(
            seq![ok_bytes()],
        ),
        RedisCommand::BulkString(m) => Some(seq![ser(RespValue::BulkString(m@))]),
        RedisCommand::Error(m) => Some(seq![ser(RespValue::SimpleError(m@))]),
        RedisCommand::NullBulkString => Some(seq![ser(RespValue::NullBulkString)]),
        RedisCommand::SimpleString(m) => Some(seq![seq![43u8] + m@ + seq![13u8, 10]]),
        RedisCommand::RespDatatype(v) => Some(seq![ser(v@)]),
        RedisCommand::FullResync(line, rdb) => Some(
            seq![seq![43u8] + line@ + seq![13u8, 10], ser(RespValue::RdbFile(rdb@))],
        ),
        RedisCommand::ReplconfAck(_) => None,
        RedisCommand::Wait(_, _) => None,
    }
}

/// The bytes of several messages.
pub open spec fn messages(r: Option<Vec<Vec<u8>>>) -> Option<Seq<Seq<u8>>> {
    match r {
        Some(v) => Some(Seq::new(v@.len(), |i: int| v@[i]@)),
        None => None,
    }
}

pub fn pong_string() -> (r: Vec<u8>)
    ensures
        r@ == pong_bytes(),
{
    vec![43u8, 80, 79, 78, 71, 13, 10]
}

pub fn ok_string() -> (r: Vec<u8>)
    ensures
        r@ == ok_bytes(),
{
    vec![43u8, 79, 75, 13, 10]
}

fn status_line(text: &[u8]) -> (r: Vec<u8>)
    ensures
        r@ == seq![43u8] + text@ + seq![13u8, 10],
{
    let mut r: Vec<u8> = vec![43u8];
    append_bytes(&mut r, text);
    r.push(13u8);
    r.push(10u8);
    assert(r@ =~= seq![43u8] + text@ + seq![13u8, 10]);
    r
}

fn one(m: Vec<u8>) -> (r: Option<Vec<Vec<u8>>>)
    ensures
        messages(r) == Some(seq![m@]),
{
    let r = vec![m];
    assert(Seq::new(r@.len(), |i: int| r@[i]@) =~= seq![m@]);
    Some(r)
}

/// The messages written back to a client for a decision.
pub fn formulate_response(redis_command: &RedisCommand) -> (r: Option<Vec<Vec<u8>>>)
    ensures
        messages(r) == response_spec(*redis_command),
{
    match redis_command {
        RedisCommand::Pong => one(pong_string()),
        RedisCommand::Okay | RedisCommand::ReplconfOk1 | RedisCommand::ReplconfOk2 => one(ok_string()),
        RedisCommand::BulkString(message) => {
            let mut b: Vec<u8> = Vec::new();
            append_bytes(&mut b, message.as_slice());
            let v = RespDatatype::BulkString(b);
            one(serialize(&v))
        },
        RedisCommand::Error(message) => {
            let v = RespDatatype::SimpleError(message.clone());
            assert(v@ == RespValue::SimpleError(message@));
            one(serialize(&v))
        },
        RedisCommand::NullBulkString => one(serialize(&RespDatatype::NullBulkString)),
        RedisCommand::SimpleString(message) => one(status_line(message.as_slice())),
        RedisCommand::RespDatatype(resp_object) => one(serialize(resp_object)),
        RedisCommand::FullResync(line, rdb_file) => {
            let first = status_line(line.as_slice());
            let mut b: Vec<u8> = Vec::new();
            append_bytes(&mut b, rdb_file.as_slice());
            let second = serialize(&RespDatatype::RDBFile(b));
            let ghost s1 = first@;
            let ghost s2 = second@;
            let r = vec![first, second];
            assert(Seq::new(r@.len(), |i: int| r@[i]@) =~= seq![s1, s2]);
            Some(r)
        },
        RedisCommand::ReplconfAck(_) => None,
        RedisCommand::Wait(_, _) => None,
    }
}

} // verus!
