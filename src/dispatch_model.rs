//! What the dispatcher decides for each request, stated over the models of
//! requests, the keyspace and the configuration.
use vstd::prelude::*;
use vstd::utf8::*;
use crate::command::Reply;
use crate::decimal::parse_u64_spec;
use crate::resp::RespValue;
use crate::store::{deadline, visible, Stored};

verus! {

pub open spec fn upper(b: u8) -> u8 {
    if 97 <= b && b <= 122 {
        (b - 32) as u8
    } else {
        b
    }
}

pub open spec fn lower(b: u8) -> u8 {
    if 65 <= b && b <= 90 {
        (b + 32) as u8
    } else {
        b
    }
}

pub open spec fn upper_seq(s: Seq<u8>) -> Seq<u8> {
    Seq::new(s.len(), |i: int| upper(s[i]))
}

pub open spec fn lower_seq(s: Seq<u8>) -> Seq<u8> {
    Seq::new(s.len(), |i: int| lower(s[i]))
}

/// The request's `i`-th element, when it is a bulk string.
pub open spec fn bulk_arg(xs: Seq<RespValue>, i: int) -> Option<Seq<u8>> {
    if 0 <= i < xs.len() {
        match xs[i] {
            RespValue::BulkString(b) => Some(b),
            _ => None,
        }
    } else {
        None
    }
}

/// A configuration value, when set.
pub open spec fn cfg(c: Map<Seq<u8>, Stored>, k: Seq<u8>) -> Option<Seq<u8>> {
    if c.contains_key(k) {
        Some(c[k].0)
    } else {
        None
    }
}

/// The commands the dispatcher knows, by name.
#[derive(PartialEq, Eq, Structural)]
pub enum CommandKind {
    Ping,
    Echo,
    SetKey,
    GetKey,
    Info,
    Replconf,
    Psync,
    Wait,
    Unknown,
}

pub open spec fn kind_of(name: Seq<u8>) -> CommandKind {
    let u = upper_seq(name);
    if u == seq![80u8, 73, 78, 71] {
        CommandKind::Ping
    } else if u == seq![69u8, 67, 72, 79] {
        CommandKind::Echo
    } else if u == seq![83u8, 69, 84] {
        CommandKind::SetKey
    } else if u == seq![71u8, 69, 84] {
        CommandKind::GetKey
    } else if u == seq![73u8, 78, 70, 79] {
        CommandKind::Info
    } else if u == seq![82u8, 69, 80, 76, 67, 79, 78, 70] {
        CommandKind::Replconf
    } else if u == seq![80u8, 83, 89, 78, 67] {
        CommandKind::Psync
    } else if u == seq![87u8, 65, 73, 84] {
        CommandKind::Wait
    } else {
        CommandKind::Unknown
    }
}

pub open spec fn role_key() -> Seq<u8> {
    seq![114u8, 111, 108, 101]
}

pub open spec fn replid_key() -> Seq<u8> {
    seq![109u8, 97, 115, 116, 101, 114, 95, 114, 101, 112, 108, 105, 100]
}

pub open spec fn offset_key() -> Seq<u8> {
    seq![109u8, 97, 115, 116, 101, 114, 95, 114, 101, 112, 108, 95, 111, 102, 102, 115, 101, 116]
}

pub open spec fn master_word() -> Seq<u8> {
    seq![109u8, 97, 115, 116, 101, 114]
}

/// True when the configuration names this server a primary.
pub open spec fn is_primary(c: Map<Seq<u8>, Stored>) -> bool {
    cfg(c, role_key()) == Some(master_word())
}

pub open spec fn is_lower_hex(b: u8) -> bool {
    (48 <= b && b <= 57) || (97 <= b && b <= 102)
}

/// A replication ID: 40 lowercase hexadecimal digits.
pub open spec fn valid_replid(s: Seq<u8>) -> bool {
    s.len() == 40 && forall|i: int| 0 <= i < s.len() ==> is_lower_hex(#[trigger] s[i])
}

/// The milliseconds a `PX` argument gives.
pub open spec fn px_value(v: RespValue) -> Option<u64> {
    match v {
        RespValue::Integer(n) => if 0 <= n <= i64::MAX {
            Some(n as u64)
        } else {
            None
        },
        RespValue::BulkString(s) => parse_u64_spec(s),
        _ => None,
    }
}

/// The expiry that the options of a `SET` from position `i` on give, the
/// last `PX` winning; `None` when an option is invalid.
pub open spec fn set_options(xs: Seq<RespValue>, i: int, acc: Option<u64>) -> Option<Option<u64>>
    decreases xs.len() - i,
{
    if i < 0 || i >= xs.len() {
        Some(acc)
    } else if (bulk_arg(xs, i) matches Some(b) && upper_seq(b) == seq![80u8, 88]) {
        if i + 1 >= xs.len() {
            None
        } else {
            match px_value(xs[i + 1]) {
                Some(ms) => set_options(xs, i + 2, Some(ms)),
                None => None,
            }
        }
    } else {
        set_options(xs, i + 1, acc)
    }
}

pub open spec fn set_spec(xs: Seq<RespValue>, m: Map<Seq<u8>, Stored>, now: u64) -> (Reply, Map<
    Seq<u8>,
    Stored,
>) {
    match (bulk_arg(xs, 1), bulk_arg(xs, 2)) {
        (Some(k), Some(v)) => match set_options(xs, 3, None) {
            Some(None) => (Reply::Okay, m.insert(k, (v, None))),
            Some(Some(ms)) => (Reply::Okay, m.insert(k, (v, Some(deadline(now, ms))))),
            None => (Reply::Error, m),
        },
        _ => (Reply::Error, m),
    }
}

/// The keyspace after a read of `k` at `now`: an expired key is dropped.
pub open spec fn after_read(m: Map<Seq<u8>, Stored>, k: Seq<u8>, now: u64) -> Map<Seq<u8>, Stored> {
    if m.contains_key(k) && visible(m, k, now) is None {
        m.remove(k)
    } else {
        m
    }
}

pub open spec fn get_spec(xs: Seq<RespValue>, m: Map<Seq<u8>, Stored>, now: u64) -> (Reply, Map<
    Seq<u8>,
    Stored,
>) {
    match bulk_arg(xs, 1) {
        None => (Reply::Error, m),
        Some(k) => (
            match visible(m, k, now) {
                Some(v) => Reply::BulkString(v),
                None => Reply::NullBulkString,
            },
            after_read(m, k, now),
        ),
    }
}

pub open spec fn echo_spec(xs: Seq<RespValue>) -> Reply {
    match bulk_arg(xs, 1) {
        Some(msg) => Reply::BulkString(msg),
        None => Reply::NullBulkString,
    }
}

/// `role:<role>\r\nmaster_replid:<id>\r\nmaster_repl_offset:<offset>\r\n`
pub open spec fn info_text(role: Seq<u8>, id: Seq<u8>, offset: Seq<u8>) -> Seq<u8> {
    seq![114u8, 111, 108, 101, 58] + role + seq![13u8, 10] + replid_key() + seq![58u8] + id + seq![
        13u8,
        10,
    ] + offset_key() + seq![58u8] + offset + seq![13u8, 10]
}

pub open spec fn info_spec(xs: Seq<RespValue>, c: Map<Seq<u8>, Stored>) -> Reply {
    match bulk_arg(xs, 1) {
        None => Reply::Error,
        Some(a) => if a == seq![114u8, 101, 112, 108, 105, 99, 97, 116, 105, 111, 110] {
            match (cfg(c, role_key()), cfg(c, replid_key()), cfg(c, offset_key())) {
                (Some(r), Some(id), Some(off)) => Reply::BulkString(info_text(r, id, off)),
                _ => Reply::Error,
            }
        } else {
            Reply::Error
        },
    }
}

/// `REPLCONF`: the first recognised option from position `i` on decides.
pub open spec fn replconf_spec(xs: Seq<RespValue>, i: int, ack: Seq<u8>) -> Reply
    decreases xs.len() - i,
{
    if i < 0 || i >= xs.len() {
        Reply::Error
    } else {
        match bulk_arg(xs, i) {
            Some(a) => {
                let l = lower_seq(a);
                if l == seq![108u8, 105, 115, 116, 101, 110, 105, 110, 103, 45, 112, 111, 114, 116] {
                    match bulk_arg(xs, i + 1) {
                        Some(p) => match parse_u64_spec(p) {
                            Some(n) => if 1 <= n <= 65535 {
                                Reply::ReplconfOk1
                            } else {
                                Reply::Error
                            },
                            None => Reply::Error,
                        },
                        None => Reply::Error,
                    }
                } else if l == seq![99u8, 97, 112, 97] {
                    Reply::ReplconfOk2
                } else if l == seq![103u8, 101, 116, 97, 99, 107] {
                    match bulk_arg(xs, i + 1) {
                        Some(s) => if s == seq![42u8] {
                            Reply::ReplconfAck(ack)
                        } else {
                            Reply::Error
                        },
                        None => Reply::Error,
                    }
                } else {
                    replconf_spec(xs, i + 1, ack)
                }
            },
            None => replconf_spec(xs, i + 1, ack),
        }
    }
}

/// `FULLRESYNC `
pub open spec fn fullresync_word() -> Seq<u8> {
    seq![70u8, 85, 76, 76, 82, 69, 83, 89, 78, 67, 32]
}

/// `PSYNC ? -1`: the `FULLRESYNC` line and the snapshot `rdb`.
pub open spec fn psync_spec(xs: Seq<RespValue>, c: Map<Seq<u8>, Stored>, rdb: Seq<u8>) -> Reply {
    match (bulk_arg(xs, 1), bulk_arg(xs, 2)) {
        (Some(id), Some(off)) => if id == seq![63u8] && off == seq![45u8, 49] {
            match (cfg(c, replid_key()), cfg(c, offset_key())) {
                (Some(r), Some(o)) => Reply::FullResync(fullresync_word() + r + seq![32u8] + o, rdb),
                _ => Reply::Error,
            }
        } else {
            Reply::Error
        },
        _ => Reply::Error,
    }
}

pub open spec fn wait_spec(xs: Seq<RespValue>) -> Reply {
    match (bulk_arg(xs, 1), bulk_arg(xs, 2)) {
        (Some(n), Some(t)) => match (parse_u64_spec(n), parse_u64_spec(t)) {
            (Some(a), Some(b)) => Reply::Wait(a, b),
            _ => Reply::Error,
        },
        _ => Reply::Error,
    }
}

/// A `+FULLRESYNC <replid> <offset>` line from a primary.
pub open spec fn fullresync_spec(line: Seq<u8>) -> Reply {
    if line.len() >= 53 && line.subrange(0, 11) == fullresync_word() && valid_replid(
        line.subrange(11, 51),
    ) && line[51] == 32u8 && parse_u64_spec(line.subrange(52, line.len() as int)) is Some {
        Reply::FullResync(line.subrange(11, 51), line.subrange(52, line.len() as int))
    } else {
        Reply::Error
    }
}

/// The commands a replica applies from its primary's stream.
pub open spec fn replica_link_accepts(k: CommandKind) -> bool {
    k == CommandKind::Ping || k == CommandKind::SetKey || k == CommandKind::Info || k
        == CommandKind::Replconf
}

/// The decision and the keyspace after an array request `xs` whose first
/// element is a bulk string naming the command.
pub open spec fn dispatch_spec(
    xs: Seq<RespValue>,
    values: Map<Seq<u8>, Stored>,
    config: Map<Seq<u8>, Stored>,
    now: u64,
    ack: Seq<u8>,
    rdb: Seq<u8>,
    replica_link: bool,
) -> (Reply, Map<Seq<u8>, Stored>) {
    let k = kind_of(bulk_arg(xs, 0).unwrap());
    if replica_link && k != CommandKind::Unknown && !replica_link_accepts(k) {
        (Reply::Error, values)
    } else {
        match k {
            CommandKind::Ping => (Reply::Pong, values),
            CommandKind::Echo => (echo_spec(xs), values),
            CommandKind::SetKey => set_spec(xs, values, now),
            CommandKind::GetKey => get_spec(xs, values, now),
            CommandKind::Info => (info_spec(xs, config), values),
            CommandKind::Replconf => (replconf_spec(xs, 1, ack), values),
            CommandKind::Psync => (psync_spec(xs, config, rdb), values),
            CommandKind::Wait => (wait_spec(xs), values),
            CommandKind::Unknown => (Reply::Error, values),
        }
    }
}

/// The decision for a request, with the keyspace after it; `None` for a
/// request that is no command (not an array naming one, nor a status line).
pub open spec fn interpret_spec(
    v: RespValue,
    values: Map<Seq<u8>, Stored>,
    config: Map<Seq<u8>, Stored>,
    now: u64,
    ack: Seq<u8>,
    rdb: Seq<u8>,
    replica_link: bool,
) -> Option<(Reply, Map<Seq<u8>, Stored>)> {
    match v {
        RespValue::Array(xs) => if bulk_arg(xs, 0) is Some {
            Some(dispatch_spec(xs, values, config, now, ack, rdb, replica_link))
        } else {
            None
        },
        RespValue::SimpleString(s) => Some((fullresync_spec(encode_utf8(s)), values)),
        _ => None,
    }
}

/// The text of the error that answers an unknown command.
pub open spec fn unknown_command_text() -> Seq<char> {
    "Unknown command received"@
}

/// True when a request is an array whose first element is a bulk string that
/// names no known command.
pub open spec fn is_unknown_request(v: RespValue) -> bool {
    v matches RespValue::Array(xs) && bulk_arg(xs, 0) matches Some(name) && kind_of(name)
        == CommandKind::Unknown
}

/// True when a request is a `SET`.
pub open spec fn is_set_request(v: RespValue) -> bool {
    v matches RespValue::Array(xs) && bulk_arg(xs, 0) matches Some(name) && kind_of(name)
        == CommandKind::SetKey
}

/// A `GET` of the key that a successful `SET` just wrote reads the value set,
/// until the `PX` deadline if one was given, and nothing after it.
pub proof fn lemma_set_then_get(
    set_request: Seq<RespValue>,
    get_request: Seq<RespValue>,
    m: Map<Seq<u8>, Stored>,
    set_at: u64,
    now: u64,
)
    requires
        set_spec(set_request, m, set_at).0 == Reply::Okay,
        bulk_arg(get_request, 1) == bulk_arg(set_request, 1),
    ensures
        ({
            let after = set_spec(set_request, m, set_at).1;
            let read = get_spec(get_request, after, now).0;
            let v = bulk_arg(set_request, 2).unwrap();
            match set_options(set_request, 3, None) {
                Some(None) => read == Reply::BulkString(v),
                Some(Some(ms)) => (now < deadline(set_at, ms) ==> read == Reply::BulkString(v)) && (
                now > set_at + ms ==> read == Reply::NullBulkString),
                None => false,
            }
        }),
{
}

} // verus!
