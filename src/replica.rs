//! The replica side of replication: the handshake with a primary, and the
//! application of the primary's command stream with its byte offset.
use vstd::prelude::*;
use crate::command::{RedisCommand, Reply};
use crate::database::Database;
use crate::decimal::{decimal_bytes, nat_decimal};
use crate::dispatch_model::{fullresync_spec, interpret_spec};
use crate::interpreter::{dispatch, empty_rdb, interpret_fullresync, views};
use crate::responder::{messages, ok_bytes, pong_bytes};
use crate::resp::{ser, serialize, RespDatatype, RespValue};
use crate::store::{bytes_equal, to_vec};

verus! {

/// The total length of a sequence of frames.
pub open spec fn total_len(s: Seq<Seq<u8>>) -> nat
    decreases s.len(),
{
    if s.len() == 0 {
        0
    } else {
        total_len(s.drop_last()) + s.last().len()
    }
}

/// What a replica keeps of its link to the primary.
pub struct ReplicaData {
    bytes_processed: u64,
    applied: Ghost<Seq<Seq<u8>>>,
}

impl ReplicaData {
    /// The bytes of every frame applied from the primary, in order.
    pub closed spec fn applied(&self) -> Seq<Seq<u8>> {
        self.applied@
    }

    pub closed spec fn processed(&self) -> u64 {
        self.bytes_processed
    }

    pub closed spec fn wf(&self) -> bool {
        self.bytes_processed == total_len(self.applied@)
    }

    pub fn new() -> (r: Self)
        ensures
            r.wf(),
            r.processed() == 0,
            r.applied() == Seq::<Seq<u8>>::empty(),
    {
        ReplicaData { bytes_processed: 0, applied: Ghost(Seq::empty()) }
    }

    pub fn bytes_processed(&self) -> (r: u64)
        ensures
            r == self.processed(),
    {
        self.bytes_processed
    }

    /// Counts a frame applied from the primary.
    pub fn record(&mut self, raw: &[u8])
        requires
            old(self).wf(),
            old(self).processed() + raw@.len() <= u64::MAX,
        ensures
            final(self).wf(),
            final(self).applied() == old(self).applied().push(raw@),
            final(self).processed() == old(self).processed() + raw@.len(),
    {
        self.bytes_processed = self.bytes_processed + raw.len() as u64;
        self.applied = Ghost(self.applied@.push(raw@));
        assert(self.applied@.drop_last() =~= old(self).applied@);
    }
}

/// On a replica, the offset it keeps is the total length of the frames it has
/// applied from its primary.
pub proof fn lemma_offset_is_applied_length(d: &ReplicaData)
    requires
        d.wf(),
    ensures
        d.processed() == total_len(d.applied()),
{
}

/// Decides on one request from the primary's stream. `GETACK *` is answered
/// with the offset before this request.
pub fn replica_interpret(
    db: &mut Database,
    resp_object: RespDatatype,
    replica_data: &ReplicaData,
    now_ms: u64,
) -> (r: Option<RedisCommand>)
    requires
        old(db).wf(),
    ensures
        final(db).wf(),
        final(db).config() == old(db).config(),
        match interpret_spec(
            resp_object@,
            old(db).values(),
            old(db).config(),
            now_ms,
            nat_decimal(replica_data.processed() as nat),
            empty_rdb(),
            true,
        ) {
            Some((reply, values)) => r matches Some(c) && c@ == reply && final(db).values() == values,
            None => r is None && final(db).values() == old(db).values(),
        },
{
    let ghost v = resp_object@;
    match resp_object {
        RespDatatype::Array(items) => {
            assert(v->Array_0 =~= views(items@));
            if items.len() == 0 {
                return None;
            }
            match &items[0] {
                RespDatatype::BulkString(_) => {},
                _ => return None,
            }
            let ack = decimal_bytes(replica_data.bytes_processed());
            Some(dispatch(db, &items, now_ms, ack.as_slice(), true))
        },
        RespDatatype::SimpleString(string) => {
            let line = string.as_str().as_bytes();
            Some(interpret_fullresync(line))
        },
        _ => None,
    }
}

/// `*3\r\n$8\r\nREPLCONF\r\n$3\r\nACK\r\n$<n>\r\n<offset>\r\n`
pub open spec fn ack_message(offset: Seq<u8>) -> Seq<u8> {
    ser(
        RespValue::Array(
            seq![
                RespValue::BulkString(seq![82u8, 69, 80, 76, 67, 79, 78, 70]),
                RespValue::BulkString(seq![65u8, 67, 75]),
                RespValue::BulkString(offset),
            ],
        ),
    )
}

/// What a replica writes back to its primary: only acknowledgements.
pub fn replica_formulate_response(redis_command: &RedisCommand) -> (r: Option<Vec<Vec<u8>>>)
    ensures
        match *redis_command {
            RedisCommand::ReplconfAck(a) => messages(r) == Some(seq![ack_message(a@)]),
            _ => r is None,
        },
{
    match redis_command {
        RedisCommand::ReplconfAck(ack_arg) => {
            let name: Vec<u8> = vec![82u8, 69, 80, 76, 67, 79, 78, 70];
            let ack: Vec<u8> = vec![65u8, 67, 75];
            assert(name@ =~= seq![82u8, 69, 80, 76, 67, 79, 78, 70]);
            assert(ack@ =~= seq![65u8, 67, 75]);
            let items = vec![
                RespDatatype::BulkString(name),
                RespDatatype::BulkString(ack),
                RespDatatype::BulkString(to_vec(ack_arg.as_slice())),
            ];
            assert(views(items@) =~= seq![
                RespValue::BulkString(seq![82u8, 69, 80, 76, 67, 79, 78, 70]),
                RespValue::BulkString(seq![65u8, 67, 75]),
                RespValue::BulkString(ack_arg@),
            ]);
            let m = array_of(items);
            let ghost s = m@;
            let r = vec![m];
            assert(Seq::new(r@.len(), |i: int| r@[i]@) =~= seq![s]);
            Some(r)
        },
        _ => None,
    }
}

/// Applies one frame from the primary: decides on it, computes what to write
/// back, then counts its bytes, whatever the frame held. `None` when the frame
/// is no command.
pub fn handle_master_frame(
    db: &mut Database,
    replica_data: &mut ReplicaData,
    resp_object: RespDatatype,
    raw: &[u8],
    now_ms: u64,
) -> (r: Option<Option<Vec<Vec<u8>>>>)
    requires
        old(db).wf(),
        old(replica_data).wf(),
        old(replica_data).processed() + raw@.len() <= u64::MAX,
    ensures
        final(db).wf(),
        final(replica_data).wf(),
        final(db).config() == old(db).config(),
        final(replica_data).applied() == old(replica_data).applied().push(raw@),
        final(replica_data).processed() == old(replica_data).processed() + raw@.len(),
        match interpret_spec(
            resp_object@,
            old(db).values(),
            old(db).config(),
            now_ms,
            nat_decimal(old(replica_data).processed() as nat),
            empty_rdb(),
            true,
        ) {
            Some((reply, values)) => r is Some && final(db).values() == values && (reply
                matches Reply::ReplconfAck(a) ==> messages(r.unwrap()) == Some(seq![ack_message(a)]))
                && (!(reply is ReplconfAck) ==> r.unwrap() is None),
            None => r is None && final(db).values() == old(db).values(),
        },
{
    let decision = replica_interpret(db, resp_object, replica_data, now_ms);
    replica_data.record(raw);
    match decision {
        Some(command) => Some(replica_formulate_response(&command)),
        None => None,
    }
}

/// The steps of a replica's handshake with its primary.
#[derive(Debug, Clone, Copy, PartialEq, Eq, Structural)]
pub enum HandshakeStep {
    Ping,
    ListeningPort,
    Capa,
    Psync,
    Done,
}

/// The handshake was answered otherwise than a primary answers.
#[derive(Debug, PartialEq, Eq, Structural)]
pub enum HandshakeError {
    HandshakeFailed,
}

pub open spec fn bulk(b: Seq<u8>) -> RespValue {
    RespValue::BulkString(b)
}

/// The request sent at each step.
pub open spec fn handshake_request_spec(step: HandshakeStep, own_port: Seq<u8>) -> Seq<u8> {
    match step {
        HandshakeStep::Ping => ser(RespValue::Array(seq![bulk(seq![80u8, 73, 78, 71])])),
        HandshakeStep::ListeningPort => ser(
            RespValue::Array(
                seq![
                    bulk(seq![82u8, 69, 80, 76, 67, 79, 78, 70]),
                    bulk(seq![108u8, 105, 115, 116, 101, 110, 105, 110, 103, 45, 112, 111, 114, 116]),
                    bulk(own_port),
                ],
            ),
        ),
        HandshakeStep::Capa => ser(
            RespValue::Array(
                seq![
                    bulk(seq![82u8, 69, 80, 76, 67, 79, 78, 70]),
                    bulk(seq![99u8, 97, 112, 97]),
                    bulk(seq![112u8, 115, 121, 110, 99, 50]),
                ],
            ),
        ),
        HandshakeStep::Psync => ser(
            RespValue::Array(
                seq![bulk(seq![80u8, 83, 89, 78, 67]), bulk(seq![63u8]), bulk(seq![45u8, 49])],
            ),
        ),
        HandshakeStep::Done => Seq::empty(),
    }
}

/// The step after `step`.
pub open spec fn next_step(step: HandshakeStep) -> HandshakeStep {
    match step {
        HandshakeStep::Ping => HandshakeStep::ListeningPort,
        HandshakeStep::ListeningPort => HandshakeStep::Capa,
        HandshakeStep::Capa => HandshakeStep::Psync,
        _ => HandshakeStep::Done,
    }
}

fn array_of(items: Vec<RespDatatype>) -> (r: Vec<u8>)
    ensures
        r@ == ser(RespValue::Array(views(items@))),
{
    let v = RespDatatype::Array(items);
    assert(v@->Array_0 =~= views(items@));
    serialize(&v)
}

/// The request to send at `step`; `own_port` is this replica's listening port.
pub fn handshake_request(step: HandshakeStep, own_port: &[u8]) -> (r: Vec<u8>)
    ensures
        r@ == handshake_request_spec(step, own_port@),
{
    match step {
        HandshakeStep::Ping => {
            let items = vec![RespDatatype::BulkString(vec![80u8, 73, 78, 71])];
            assert(views(items@) =~= seq![bulk(seq![80u8, 73, 78, 71])]);
            array_of(items)
        },
        HandshakeStep::ListeningPort => {
            let items = vec![
                RespDatatype::BulkString(vec![82u8, 69, 80, 76, 67, 79, 78, 70]),
                RespDatatype::BulkString(vec![108u8, 105, 115, 116, 101, 110, 105, 110, 103, 45, 112, 111, 114, 116]),
                RespDatatype::BulkString(to_vec(own_port)),
            ];
            assert(views(items@) =~= seq![
                bulk(seq![82u8, 69, 80, 76, 67, 79, 78, 70]),
                bulk(seq![108u8, 105, 115, 116, 101, 110, 105, 110, 103, 45, 112, 111, 114, 116]),
                bulk(own_port@),
            ]);
            array_of(items)
        },
        HandshakeStep::Capa => {
            let items = vec![
                RespDatatype::BulkString(vec![82u8, 69, 80, 76, 67, 79, 78, 70]),
                RespDatatype::BulkString(vec![99u8, 97, 112, 97]),
                RespDatatype::BulkString(vec![112u8, 115, 121, 110, 99, 50]),
            ];
            assert(views(items@) =~= seq![
                bulk(seq![82u8, 69, 80, 76, 67, 79, 78, 70]),
                bulk(seq![99u8, 97, 112, 97]),
                bulk(seq![112u8, 115, 121, 110, 99, 50]),
            ]);
            array_of(items)
        },
        HandshakeStep::Psync => {
            let name: Vec<u8> = vec![80u8, 83, 89, 78, 67];
            let id: Vec<u8> = vec![63u8];
            let offset: Vec<u8> = vec![45u8, 49];
            assert(name@ =~= seq![80u8, 83, 89, 78, 67]);
            assert(id@ =~= seq![63u8]);
            assert(offset@ =~= seq![45u8, 49]);
            let items = vec![
                RespDatatype::BulkString(name),
                RespDatatype::BulkString(id),
                RespDatatype::BulkString(offset),
            ];
            assert(views(items@) =~= seq![
                bulk(seq![80u8, 83, 89, 78, 67]),
                bulk(seq![63u8]),
                bulk(seq![45u8, 49]),
            ]);
            array_of(items)
        },
        HandshakeStep::Done => Vec::new(),
    }
}

/// Checks the primary's answer at `step`. The first three steps expect
/// `+PONG`, `+OK`, `+OK` to the byte; `PSYNC` expects a `FULLRESYNC` line,
/// whose replication ID and offset are returned.
pub fn check_handshake_reply(step: HandshakeStep, value: &RespDatatype, raw: &[u8]) -> (r: Result<
    Option<(Vec<u8>, Vec<u8>)>,
    HandshakeError,
>)
    ensures
        match step {
            HandshakeStep::Ping => (r is Ok <==> raw@ == pong_bytes()) && (r is Ok ==> r == Ok::<
                Option<(Vec<u8>, Vec<u8>)>,
                HandshakeError,
            >(None)),
            HandshakeStep::ListeningPort | HandshakeStep::Capa => (r is Ok <==> raw@ == ok_bytes())
                && (r is Ok ==> r == Ok::<Option<(Vec<u8>, Vec<u8>)>, HandshakeError>(None)),
            HandshakeStep::Psync => match value@ {
                RespValue::SimpleString(s) => match fullresync_spec(vstd::utf8::encode_utf8(s)) {
                    Reply::FullResync(id, off) => r matches Ok(Some((i, o))) && i@ == id && o@
                        == off,
                    _ => r is Err,
                },
                _ => r is Err,
            },
            HandshakeStep::Done => r is Err,
        },
{
    match step {
        HandshakeStep::Ping => {
            let pong = crate::responder::pong_string();
            if bytes_equal(raw, pong.as_slice()) {
                Ok(None)
            } else {
                Err(HandshakeError::HandshakeFailed)
            }
        },
        HandshakeStep::ListeningPort | HandshakeStep::Capa => {
            let ok = crate::responder::ok_string();
            if bytes_equal(raw, ok.as_slice()) {
                Ok(None)
            } else {
                Err(HandshakeError::HandshakeFailed)
            }
        },
        HandshakeStep::Psync => match value {
            RespDatatype::SimpleString(s) => match interpret_fullresync(s.as_str().as_bytes()) {
                RedisCommand::FullResync(id, offset) => Ok(Some((id, offset))),
                _ => Err(HandshakeError::HandshakeFailed),
            },
            _ => Err(HandshakeError::HandshakeFailed),
        },
        HandshakeStep::Done => Err(HandshakeError::HandshakeFailed),
    }
}

/// The step that follows `step`.
pub fn advance(step: HandshakeStep) -> (r: HandshakeStep)
    ensures
        r == next_step(step),
{
    match step {
        HandshakeStep::Ping => HandshakeStep::ListeningPort,
        HandshakeStep::ListeningPort => HandshakeStep::Capa,
        HandshakeStep::Capa => HandshakeStep::Psync,
        _ => HandshakeStep::Done,
    }
}

} // verus!
