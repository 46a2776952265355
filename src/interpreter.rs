//! The command dispatcher: turns one framed request into a decision, applying
//! writes to the keyspace and queueing them for replicas.
use vstd::prelude::*;
use vstd::string::*;
use vstd::utf8::{encode_utf8, is_ascii_chars, is_ascii_chars_encode_utf8};
use crate::command::{RedisCommand, Reply};
use crate::database::{get_config, get_value, set_value, set_value_expiry, Database};
use crate::decimal::parse_u64_range;
use crate::dispatch_model::{
    bulk_arg, dispatch_spec, fullresync_spec, fullresync_word, get_spec, info_spec, info_text,
    interpret_spec, is_primary, is_set_request, is_unknown_request, unknown_command_text, kind_of, lower_seq, master_word, offset_key,
    psync_spec, px_value, replconf_spec, replid_key, role_key, set_options, set_spec, upper_seq,
    wait_spec, CommandKind,
};
use crate::replication::{ReplicaSet, ReplicaTask};
use crate::resp::{append_bytes, RespDatatype, RespValue};
use crate::store::{bytes_equal, opt_bytes, to_vec};

verus! {

/// The views of a list of values.
pub open spec fn views(items: Seq<RespDatatype>) -> Seq<RespValue> {
    Seq::new(items.len(), |i: int| items[i]@)
}

/// An empty snapshot (RDB version 11), in hexadecimal.
pub const EMPTY_RDB_HEX: &'static str = "524544495330303131fa0972656469732d76657205372e322e30fa0a72656469732d62697473c040fa056374696d65c26d08bc65fa08757365642d6d656dc2b0c41000fa08616f662d62617365c000fff06e3bfec0ff5aa2";

pub open spec fn is_hex_digit(b: u8) -> bool {
    (48 <= b && b <= 57) || (97 <= b && b <= 102) || (65 <= b && b <= 70)
}

pub open spec fn hex_val(b: u8) -> int {
    if 48 <= b && b <= 57 {
        b - 48
    } else if 97 <= b && b <= 102 {
        b - 87
    } else {
        b - 55
    }
}

/// The bytes that hexadecimal text stands for, two digits to a byte, when it
/// is such text.
pub open spec fn hex_decodes(s: Seq<u8>) -> Option<Seq<u8>> {
    if s.len() % 2 == 0 && forall|i: int| 0 <= i < s.len() ==> is_hex_digit(#[trigger] s[i]) {
        Some(Seq::new(s.len() / 2, |i: int| (hex_val(s[2 * i]) * 16 + hex_val(s[2 * i + 1])) as u8))
    } else {
        None
    }
}

/// Relies on `hex::decode`: text of even length whose characters are all
/// hexadecimal digits (either case) decodes to one byte per pair, the first
/// digit high; any other text is refused.
#[verifier::external_body]
fn decode_hex(text: &str) -> (r: Option<Vec<u8>>)
    ensures
        opt_bytes(r) == hex_decodes(text.spec_bytes()),
{
    hex::decode(text).ok()
}

/// The snapshot sent after `FULLRESYNC`.
pub open spec fn empty_rdb() -> Seq<u8> {
    hex_decodes(EMPTY_RDB_HEX.spec_bytes()).unwrap()
}

/// The built-in snapshot is hexadecimal text, so it always decodes.
pub proof fn lemma_empty_rdb_decodes()
    ensures
        hex_decodes(EMPTY_RDB_HEX.spec_bytes()) is Some,
{
    reveal_strlit("524544495330303131fa0972656469732d76657205372e322e30fa0a72656469732d62697473c040fa056374696d65c26d08bc65fa08757365642d6d656dc2b0c41000fa08616f662d62617365c000fff06e3bfec0ff5aa2");
    let chars = EMPTY_RDB_HEX@;
    assert(chars.len() == 176);
    assert(forall|i: int| 0 <= i < 176 ==> ('0' <= #[trigger] chars[i] <= '9') || ('a' <= chars[i] <= 'f'));
    assert(is_ascii_chars(chars));
    is_ascii_chars_encode_utf8(chars);
    let b = EMPTY_RDB_HEX.spec_bytes();
    assert(forall|i: int| 0 <= i < b.len() ==> is_hex_digit(#[trigger] b[i])) by {
        assert forall|i: int| 0 <= i < b.len() implies is_hex_digit(#[trigger] b[i]) by {
            assert(b[i] == chars[i] as u8);
        }
    }
}

pub fn empty_rdb_payload() -> (r: Vec<u8>)
    ensures
        r@ == empty_rdb(),
{
    proof {
        lemma_empty_rdb_decodes();
    }
    match decode_hex(EMPTY_RDB_HEX) {
        Some(rdb) => rdb,
        None => vstd::pervasive::unreached(),
    }
}

pub fn ascii_upper(b: &[u8]) -> (r: Vec<u8>)
    ensures
        r@ == upper_seq(b@),
{
    let mut r: Vec<u8> = Vec::new();
    let mut i: usize = 0;
    while i < b.len()
        invariant
            i <= b@.len(),
            r@ == upper_seq(b@.subrange(0, i as int)),
        decreases b@.len() - i,
    {
        let c = b[i];
        r.push(if 97 <= c && c <= 122 { c - 32 } else { c });
        i += 1;
        assert(r@ =~= upper_seq(b@.subrange(0, i as int)));
    }
    assert(b@.subrange(0, b@.len() as int) =~= b@);
    r
}

pub fn ascii_lower(b: &[u8]) -> (r: Vec<u8>)
    ensures
        r@ == lower_seq(b@),
{
    let mut r: Vec<u8> = Vec::new();
    let mut i: usize = 0;
    while i < b.len()
        invariant
            i <= b@.len(),
            r@ == lower_seq(b@.subrange(0, i as int)),
        decreases b@.len() - i,
    {
        let c = b[i];
        r.push(if 65 <= c && c <= 90 { c + 32 } else { c });
        i += 1;
        assert(r@ =~= lower_seq(b@.subrange(0, i as int)));
    }
    assert(b@.subrange(0, b@.len() as int) =~= b@);
    r
}

fn bulk_at(items: &Vec<RespDatatype>, i: usize) -> (r: Option<&Vec<u8>>)
    ensures
        match r {
            Some(b) => bulk_arg(views(items@), i as int) == Some(b@),
            None => bulk_arg(views(items@), i as int) is None,
        },
{
    if i < items.len() {
        match &items[i] {
            RespDatatype::BulkString(b) => Some(b),
            _ => None,
        }
    } else {
        None
    }
}

/// Which command a name stands for, case aside.
pub fn kind_of_name(name: &[u8]) -> (k: CommandKind)
    ensures
        k == kind_of(name@),
{
    let u = ascii_upper(name);
    let u = u.as_slice();
    if bytes_equal(u, &[80u8, 73, 78, 71]) {
        CommandKind::Ping
    } else if bytes_equal(u, &[69u8, 67, 72, 79]) {
        CommandKind::Echo
    } else if bytes_equal(u, &[83u8, 69, 84]) {
        CommandKind::SetKey
    } else if bytes_equal(u, &[71u8, 69, 84]) {
        CommandKind::GetKey
    } else if bytes_equal(u, &[73u8, 78, 70, 79]) {
        CommandKind::Info
    } else if bytes_equal(u, &[82u8, 69, 80, 76, 67, 79, 78, 70]) {
        CommandKind::Replconf
    } else if bytes_equal(u, &[80u8, 83, 89, 78, 67]) {
        CommandKind::Psync
    } else if bytes_equal(u, &[87u8, 65, 73, 84]) {
        CommandKind::Wait
    } else {
        CommandKind::Unknown
    }
}

fn role_key_bytes() -> (r: Vec<u8>)
    ensures
        r@ == role_key(),
{
    vec![114u8, 111, 108, 101]
}

fn replid_key_bytes() -> (r: Vec<u8>)
    ensures
        r@ == replid_key(),
{
    vec![109u8, 97, 115, 116, 101, 114, 95, 114, 101, 112, 108, 105, 100]
}

fn offset_key_bytes() -> (r: Vec<u8>)
    ensures
        r@ == offset_key(),
{
    vec![109u8, 97, 115, 116, 101, 114, 95, 114, 101, 112, 108, 95, 111, 102, 102, 115, 101, 116]
}

fn error_command(text: &str) -> (r: RedisCommand)
    ensures
        r@ == Reply::Error,
{
    RedisCommand::Error(text.to_owned())
}

fn px_arg(v: &RespDatatype) -> (r: Option<u64>)
    ensures
        r == px_value(v@),
{
    match v {
        RespDatatype::Integer(n) => if *n >= 0 {
            Some(*n as u64)
        } else {
            None
        },
        RespDatatype::BulkString(s) => {
            assert(s@.subrange(0, s@.len() as int) =~= s@);
            parse_u64_range(s.as_slice(), 0, s.len())
        },
        _ => None,
    }
}

/// The expiry given by the options of a `SET`.
fn set_options_of(items: &Vec<RespDatatype>) -> (r: Result<Option<u64>, String>)
    ensures
        r is Ok <==> set_options(views(items@), 3, None) is Some,
        r matches Ok(e) ==> set_options(views(items@), 3, None) == Some(e),
{
    let ghost xs = views(items@);
    let mut expiry: Option<u64> = None;
    let mut i: usize = 3;
    while i < items.len()
        invariant
            3 <= i,
            xs == views(items@),
            set_options(xs, 3, None) == set_options(xs, i as int, expiry),
        decreases items@.len() - i,
    {
        let is_px = match bulk_at(items, i) {
            Some(b) => {
                let u = ascii_upper(b.as_slice());
                bytes_equal(u.as_slice(), &[80u8, 88])
            },
            None => false,
        };
        if is_px {
            if i + 1 >= items.len() {
                return Err("No integer argument given for PX".to_owned());
            }
            match px_arg(&items[i + 1]) {
                Some(ms) => {
                    expiry = Some(ms);
                    i = i + 2;
                },
                None => {
                    return Err("Invalid argument given for PX".to_owned());
                },
            }
        } else {
            i = i + 1;
        }
    }
    Ok(expiry)
}

fn interpret_set(db: &mut Database, items: &Vec<RespDatatype>, now_ms: u64) -> (r: RedisCommand)
    requires
        old(db).wf(),
    ensures
        final(db).wf(),
        (r@, final(db).values()) == set_spec(views(items@), old(db).values(), now_ms),
        final(db).config() == old(db).config(),
{
    let key = match bulk_at(items, 1) {
        Some(key) => key,
        None => return error_command("Expected key after SET"),
    };
    let value = match bulk_at(items, 2) {
        Some(value) => value,
        None => return error_command("Expected value after SET key"),
    };
    match set_options_of(items) {
        Ok(Some(expiry)) => set_value_expiry(db, key.as_slice(), value.as_slice(), expiry, now_ms),
        Ok(None) => set_value(db, key.as_slice(), value.as_slice()),
        Err(text) => return RedisCommand::Error(text),
    }
    RedisCommand::Okay
}

fn interpret_get(db: &mut Database, items: &Vec<RespDatatype>, now_ms: u64) -> (r: RedisCommand)
    requires
        old(db).wf(),
    ensures
        final(db).wf(),
        (r@, final(db).values()) == get_spec(views(items@), old(db).values(), now_ms),
        final(db).config() == old(db).config(),
{
    let key = match bulk_at(items, 1) {
        Some(key) => key,
        None => return error_command("Expected key after GET"),
    };
    match get_value(db, key.as_slice(), now_ms) {
        Some(value) => RedisCommand::BulkString(value),
        None => RedisCommand::NullBulkString,
    }
}

fn interpret_info(db: &Database, items: &Vec<RespDatatype>) -> (r: RedisCommand)
    requires
        db.wf(),
    ensures
        r@ == info_spec(views(items@), db.config()),
{
    let arg = match bulk_at(items, 1) {
        Some(arg) => arg,
        None => return error_command("Expected a section after INFO"),
    };
    // replication
    if !bytes_equal(arg.as_slice(), &[114u8, 101, 112, 108, 105, 99, 97, 116, 105, 111, 110]) {
        return error_command("Unknown argument for INFO");
    }
    let role = match get_config(db, role_key_bytes().as_slice()) {
        Some(role) => role,
        None => return error_command("This server has no role configured"),
    };
    let master_replid = match get_config(db, replid_key_bytes().as_slice()) {
        Some(id) => id,
        None => return error_command("This server has no replication ID configured"),
    };
    let master_repl_offset = match get_config(db, offset_key_bytes().as_slice()) {
        Some(offset) => offset,
        None => return error_command("This server has no replication offset configured"),
    };
    let mut text: Vec<u8> = Vec::new();
    // role:
    append_bytes(&mut text, &[114u8, 111, 108, 101, 58]);
    append_bytes(&mut text, role.as_slice());
    // \r\nmaster_replid:
    append_bytes(&mut text, &[13u8, 10, 109, 97, 115, 116, 101, 114, 95, 114, 101, 112, 108, 105, 100, 58]);
    append_bytes(&mut text, master_replid.as_slice());
    // \r\nmaster_repl_offset:
    append_bytes(
        &mut text,
        &[13u8, 10, 109, 97, 115, 116, 101, 114, 95, 114, 101, 112, 108, 95, 111, 102, 102, 115, 101, 116, 58],
    );
    append_bytes(&mut text, master_repl_offset.as_slice());
    append_bytes(&mut text, &[13u8, 10]);
    assert(text@ =~= info_text(role@, master_replid@, master_repl_offset@));
    RedisCommand::BulkString(text)
}

/// `REPLCONF`; `ack` is the offset that `GETACK *` is answered with.
fn interpret_replconf(items: &Vec<RespDatatype>, ack: &[u8]) -> (r: RedisCommand)
    ensures
        r@ == replconf_spec(views(items@), 1, ack@),
{
    let ghost xs = views(items@);
    let mut i: usize = 1;
    while i < items.len()
        invariant
            1 <= i,
            xs == views(items@),
            replconf_spec(xs, 1, ack@) == replconf_spec(xs, i as int, ack@),
        decreases items@.len() - i,
    {
        match bulk_at(items, i) {
            Some(argument) => {
                let l = ascii_lower(argument.as_slice());
                let l = l.as_slice();
                // listening-port
                if bytes_equal(l, &[108u8, 105, 115, 116, 101, 110, 105, 110, 103, 45, 112, 111, 114, 116]) {
                    return match bulk_at(items, i + 1) {
                        Some(port) => match parse_u64_range(port.as_slice(), 0, port.len()) {
                            Some(n) => {
                                assert(port@.subrange(0, port@.len() as int) =~= port@);
                                if 1 <= n && n <= 65535 {
                                    RedisCommand::ReplconfOk1
                                } else {
                                    error_command("Port must be within 1-65535")
                                }
                            },
                            None => {
                                assert(port@.subrange(0, port@.len() as int) =~= port@);
                                error_command("Invalid argument for port")
                            },
                        },
                        None => error_command("Invalid argument for port"),
                    };
                }
                // capa
                if bytes_equal(l, &[99u8, 97, 112, 97]) {
                    return RedisCommand::ReplconfOk2;
                }
                // getack
                let star: Vec<u8> = vec![42u8];
                assert(star@ =~= seq![42u8]);
                if bytes_equal(l, &[103u8, 101, 116, 97, 99, 107]) {
                    return match bulk_at(items, i + 1) {
                        Some(arg) => if bytes_equal(arg.as_slice(), star.as_slice()) {
                            RedisCommand::ReplconfAck(to_vec(ack))
                        } else {
                            error_command("Invalid argument for GETACK")
                        },
                        None => error_command("Invalid argument for GETACK"),
                    };
                }
            },
            None => {},
        }
        i += 1;
    }
    error_command("REPLCONF needs listening-port, capa or GETACK")
}

fn interpret_psync(db: &Database, items: &Vec<RespDatatype>) -> (r: RedisCommand)
    requires
        db.wf(),
    ensures
        r@ == psync_spec(views(items@), db.config(), empty_rdb()),
{
    let repl_id = match bulk_at(items, 1) {
        Some(id) => id,
        None => return error_command("No repl_id argument for PSYNC command given."),
    };
    let repl_offset = match bulk_at(items, 2) {
        Some(offset) => offset,
        None => return error_command("No repl_offset argument for PSYNC command given."),
    };
    let question: Vec<u8> = vec![63u8];
    let minus_one: Vec<u8> = vec![45u8, 49];
    assert(question@ =~= seq![63u8]);
    assert(minus_one@ =~= seq![45u8, 49]);
    if !(bytes_equal(repl_id.as_slice(), question.as_slice()) && bytes_equal(
        repl_offset.as_slice(),
        minus_one.as_slice(),
    )) {
        return error_command("Only PSYNC ? -1 is supported");
    }
    let id = match get_config(db, replid_key_bytes().as_slice()) {
        Some(id) => id,
        None => return error_command("This server has no replication ID configured"),
    };
    let offset = match get_config(db, offset_key_bytes().as_slice()) {
        Some(offset) => offset,
        None => return error_command("This server has no replication offset configured"),
    };
    let rdb = empty_rdb_payload();
    // FULLRESYNC <id> <offset>
    let mut line: Vec<u8> = vec![70u8, 85, 76, 76, 82, 69, 83, 89, 78, 67, 32];
    append_bytes(&mut line, id.as_slice());
    line.push(32u8);
    append_bytes(&mut line, offset.as_slice());
    assert(line@ =~= fullresync_word() + id@ + seq![32u8] + offset@);
    RedisCommand::FullResync(line, rdb)
}

fn interpret_wait(items: &Vec<RespDatatype>) -> (r: RedisCommand)
    ensures
        r@ == wait_spec(views(items@)),
{
    let n = match bulk_at(items, 1) {
        Some(n) => n,
        None => return error_command("WAIT needs numreplicas and timeout"),
    };
    let t = match bulk_at(items, 2) {
        Some(t) => t,
        None => return error_command("WAIT needs numreplicas and timeout"),
    };
    assert(n@.subrange(0, n@.len() as int) =~= n@);
    assert(t@.subrange(0, t@.len() as int) =~= t@);
    match (parse_u64_range(n.as_slice(), 0, n.len()), parse_u64_range(t.as_slice(), 0, t.len())) {
        (Some(a), Some(b)) => RedisCommand::Wait(a, b),
        _ => error_command("WAIT arguments must be non-negative integers"),
    }
}

/// A `FULLRESYNC <replid> <offset>` status line from a primary.
pub fn interpret_fullresync(line: &[u8]) -> (r: RedisCommand)
    ensures
        r@ == fullresync_spec(line@),
{
    if line.len() < 53 {
        return error_command("Invalid FULLRESYNC line");
    }
    let head = crate::parse::copy_range(line, 0, 11);
    if !bytes_equal(head.as_slice(), &[70u8, 85, 76, 76, 82, 69, 83, 89, 78, 67, 32]) {
        return error_command("Unknown status line received");
    }
    let id = crate::parse::copy_range(line, 11, 51);
    if !crate::utils::is_valid_master_replid(id.as_slice()) {
        return error_command("Invalid master replid");
    }
    if line[51] != 32u8 {
        return error_command("Invalid master repl offset");
    }
    match parse_u64_range(line, 52, line.len()) {
        Some(_) => RedisCommand::FullResync(id, crate::parse::copy_range(line, 52, line.len())),
        None => error_command("Invalid master repl offset"),
    }
}

/// The decision on an array request whose first element names the command.
pub fn dispatch(
    db: &mut Database,
    items: &Vec<RespDatatype>,
    now_ms: u64,
    ack: &[u8],
    replica_link: bool,
) -> (r: RedisCommand)
    requires
        old(db).wf(),
        bulk_arg(views(items@), 0) is Some,
    ensures
        final(db).wf(),
        (r@, final(db).values()) == dispatch_spec(
            views(items@),
            old(db).values(),
            old(db).config(),
            now_ms,
            ack@,
            empty_rdb(),
            replica_link,
        ),
        kind_of(bulk_arg(views(items@), 0).unwrap()) == CommandKind::Unknown ==> (r matches RedisCommand::Error(m)
            && m@ == unknown_command_text()),
        final(db).config() == old(db).config(),
{
    let name = match bulk_at(items, 0) {
        Some(name) => name,
        None => return error_command("Missing command name"),
    };
    let kind = kind_of_name(name.as_slice());
    if kind == CommandKind::Unknown {
        return RedisCommand::Error("Unknown command received".to_owned());
    }
    if replica_link && !(kind == CommandKind::Ping || kind == CommandKind::SetKey || kind
        == CommandKind::Info || kind == CommandKind::Replconf) {
        return error_command("Command not accepted from a primary");
    }
    match kind {
        CommandKind::Ping => RedisCommand::Pong,
        CommandKind::Echo => match bulk_at(items, 1) {
            Some(message) => RedisCommand::BulkString(to_vec(message.as_slice())),
            None => RedisCommand::NullBulkString,
        },
        CommandKind::SetKey => interpret_set(db, items, now_ms),
        CommandKind::GetKey => interpret_get(db, items, now_ms),
        CommandKind::Info => interpret_info(db, items),
        CommandKind::Replconf => interpret_replconf(items, ack),
        CommandKind::Psync => interpret_psync(db, items),
        CommandKind::Wait => interpret_wait(items),
        CommandKind::Unknown => RedisCommand::Error("Unknown command received".to_owned()),
    }
}

/// True when the configuration names this server a primary.
pub fn is_primary_server(db: &Database) -> (r: bool)
    requires
        db.wf(),
    ensures
        r == is_primary(db.config()),
{
    match get_config(db, role_key_bytes().as_slice()) {
        Some(role) => {
            let master: [u8; 6] = [109u8, 97, 115, 116, 101, 114];
            assert(master@ =~= master_word());
            bytes_equal(role.as_slice(), &master)
        },
        None => false,
    }
}

/// Decides on one request from a client. `buf` holds the bytes that carried
/// it; a `SET` that succeeds on a primary queues them for every replica.
pub fn interpret(
    db: &mut Database,
    replicas: &mut ReplicaSet,
    resp_object: RespDatatype,
    buf: &Vec<u8>,
    now_ms: u64,
) -> (r: Option<RedisCommand>)
    requires
        old(db).wf(),
        old(replicas).wf(),
    ensures
        final(db).wf(),
        final(replicas).wf(),
        final(db).config() == old(db).config(),
        match interpret_spec(
            resp_object@,
            old(db).values(),
            old(db).config(),
            now_ms,
            seq![48u8],
            empty_rdb(),
            false,
        ) {
            Some((reply, values)) => r matches Some(c) && c@ == reply && final(db).values() == values,
            None => r is None && final(db).values() == old(db).values(),
        },
        final(replicas).accepted() == if is_set_request(resp_object@) && (r matches Some(c) && c@
            == Reply::Okay) && is_primary(old(db).config()) {
            old(replicas).accepted().push(buf@)
        } else {
            old(replicas).accepted()
        },
        is_unknown_request(resp_object@) ==> (r matches Some(RedisCommand::Error(m)) && m@
            == unknown_command_text()),
        final(replicas).dispatched() == old(replicas).dispatched(),
        final(replicas).len() == old(replicas).len(),
        forall|i: int|
            0 <= i < old(replicas).len() ==> {
                &&& final(replicas).id_at(i) == old(replicas).id_at(i)
                &&& final(replicas).sent_at(i) == old(replicas).sent_at(i)
                &&& final(replicas).joined_at(i) == old(replicas).joined_at(i)
                &&& final(replicas).offset_at(i) == old(replicas).offset_at(i)
            },
{
    let ghost v = resp_object@;
    match resp_object {
        RespDatatype::Array(items) => {
            assert(v->Array_0 =~= views(items@));
            let is_set = match bulk_at(&items, 0) {
                Some(name) => kind_of_name(name.as_slice()) == CommandKind::SetKey,
                None => return None,
            };
            let no_offset: Vec<u8> = vec![48u8];
            assert(no_offset@ =~= seq![48u8]);
            let command = dispatch(db, &items, now_ms, no_offset.as_slice(), false);
            let accepted = match command {
                RedisCommand::Okay => true,
                _ => false,
            };
            if is_set && accepted && is_primary_server(db) {
                replicas.push_to_replicas(ReplicaTask::new(to_vec(buf.as_slice())));
            }
            Some(command)
        },
        RespDatatype::SimpleString(string) => {
            let line = string.as_str().as_bytes();
            assert(line@ == encode_utf8(string@));
            Some(interpret_fullresync(line))
        },
        _ => None,
    }
}

} // verus!
