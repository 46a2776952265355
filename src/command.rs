//! The commands the dispatcher decides on, and what each one answers.
use vstd::prelude::*;
use crate::resp::{RespDatatype, RespValue};

verus! {

/// What the dispatcher decided for one request.
#[derive(Debug)]
pub enum RedisCommand {
    Pong,
    Okay,
    Error(String),
    SimpleString(Vec<u8>),
    BulkString(Vec<u8>),
    /// The `FULLRESYNC <replid> <offset>` line and the snapshot that follows it.
    FullResync(Vec<u8>, Vec<u8>),
    ReplconfOk1,
    ReplconfOk2,
    /// The offset a replica acknowledges.
    ReplconfAck(Vec<u8>),
    RespDatatype(RespDatatype),
    NullBulkString,
    /// `WAIT numreplicas timeout_ms`: the probe itself runs over the sockets.
    Wait(u64, u64),
}

/// The model of a decision; an error's text is not part of it.
pub enum Reply {
    Pong,
    Okay,
    Error,
    SimpleString(Seq<u8>),
    BulkString(Seq<u8>),
    FullResync(Seq<u8>, Seq<u8>),
    ReplconfOk1,
    ReplconfOk2,
    ReplconfAck(Seq<u8>),
    Value(RespValue),
    NullBulkString,
    Wait(u64, u64),
}

impl View for RedisCommand {
    type V = Reply;

    open spec fn view(&self) -> Reply {
        match self {
            RedisCommand::Pong => Reply::Pong,
            RedisCommand::Okay => Reply::Okay,
            RedisCommand::Error(_) => Reply::Error,
            RedisCommand::SimpleString(s) => Reply::SimpleString(s@),
            RedisCommand::BulkString(b) => Reply::BulkString(b@),
            RedisCommand::FullResync(line, rdb) => Reply::FullResync(line@, rdb@),
            RedisCommand::ReplconfOk1 => Reply::ReplconfOk1,
            RedisCommand::ReplconfOk2 => Reply::ReplconfOk2,
            RedisCommand::ReplconfAck(a) => Reply::ReplconfAck(a@),
            RedisCommand::RespDatatype(v) => Reply::Value(v@),
            RedisCommand::NullBulkString => Reply::NullBulkString,
            RedisCommand::Wait(n, t) => Reply::Wait(*n, *t),
        }
    }
}

/// An error decision with the given text.
pub fn make_error_command(text: &str) -> (r: Option<RedisCommand>)
    ensures
        r matches Some(c) && c@ == Reply::Error,
{
    Some(RedisCommand::Error(text.to_owned()))
}

} // verus!
