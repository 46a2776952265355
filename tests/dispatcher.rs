use redis_core::command::RedisCommand;
use redis_core::database::{set_config, Database};
use redis_core::framer::RespFramer;
use redis_core::interpreter::interpret;
use redis_core::replication::{ReplicaIdentifier, ReplicaSet};
use redis_core::responder::formulate_response;
use redis_core::resp::RespDatatype;
use redis_core::slaves::{SlaveIdentifier, SlaveTask};

const REPLID: &[u8] = b"8371b4fb1155b71f4a04d3e1bc3e18c4a990aeeb";

fn server(role: &[u8]) -> (Database, ReplicaSet) {
    let mut db = Database::new();
    set_config(&mut db, b"role", role);
    set_config(&mut db, b"master_replid", REPLID);
    set_config(&mut db, b"master_repl_offset", b"0");
    (db, ReplicaSet::new())
}

fn decide(db: &mut Database, replicas: &mut ReplicaSet, request: &[u8]) -> Option<RedisCommand> {
    let mut framer = RespFramer::new();
    framer.feed(request);
    let (value, raw) = framer.deserialize_stream().unwrap().unwrap();
    interpret(db, replicas, value, &raw, 0)
}

fn reply(db: &mut Database, replicas: &mut ReplicaSet, request: &[u8]) -> Vec<u8> {
    let command = decide(db, replicas, request).unwrap();
    formulate_response(&command).unwrap().concat()
}

fn is_error(bytes: &[u8]) -> bool {
    bytes.first() == Some(&b'-') && bytes.ends_with(b"\r\n")
}

#[test]
fn unknown_command_is_an_error() {
    let (mut db, mut replicas) = server(b"master");
    assert!(is_error(&reply(&mut db, &mut replicas, b"*1\r\n$5\r\nHELLO\r\n")));
}

#[test]
fn names_and_options_ignore_case() {
    let (mut db, mut replicas) = server(b"master");
    let out = reply(&mut db, &mut replicas, b"*5\r\n$3\r\nset\r\n$1\r\nk\r\n$1\r\nv\r\n$2\r\npx\r\n$2\r\n50\r\n");
    assert_eq!(out, b"+OK\r\n".to_vec());
    assert_eq!(reply(&mut db, &mut replicas, b"*1\r\n$4\r\nPiNg\r\n"), b"+PONG\r\n".to_vec());
}

#[test]
fn set_argument_errors() {
    let (mut db, mut replicas) = server(b"master");
    assert!(is_error(&reply(&mut db, &mut replicas, b"*2\r\n$3\r\nSET\r\n$1\r\nk\r\n")));
    assert!(is_error(&reply(&mut db, &mut replicas, b"*4\r\n$3\r\nSET\r\n$1\r\nk\r\n$1\r\nv\r\n$2\r\nPX\r\n")));
    assert!(is_error(&reply(&mut db, &mut replicas, b"*5\r\n$3\r\nSET\r\n$1\r\nk\r\n$1\r\nv\r\n$2\r\nPX\r\n:-5\r\n")));
    assert!(is_error(&reply(&mut db, &mut replicas, b"*5\r\n$3\r\nSET\r\n$1\r\nk\r\n$1\r\nv\r\n$2\r\nPX\r\n$2\r\n-5\r\n")));
    assert!(is_error(&reply(&mut db, &mut replicas, b"*5\r\n$3\r\nSET\r\n$1\r\nk\r\n$1\r\nv\r\n$2\r\nPX\r\n$3\r\nabc\r\n")));
    assert_eq!(reply(&mut db, &mut replicas, b"*2\r\n$3\r\nGET\r\n$1\r\nk\r\n"), b"$-1\r\n".to_vec());
    let out = reply(&mut db, &mut replicas, b"*5\r\n$3\r\nSET\r\n$1\r\nk\r\n$1\r\nv\r\n$2\r\nPX\r\n:5\r\n");
    assert_eq!(out, b"+OK\r\n".to_vec());
}

#[test]
fn get_and_echo_edge_cases() {
    let (mut db, mut replicas) = server(b"master");
    assert!(is_error(&reply(&mut db, &mut replicas, b"*1\r\n$3\r\nGET\r\n")));
    assert_eq!(reply(&mut db, &mut replicas, b"*1\r\n$4\r\nECHO\r\n"), b"$-1\r\n".to_vec());
}

#[test]
fn info_errors() {
    let (mut db, mut replicas) = server(b"master");
    assert!(is_error(&reply(&mut db, &mut replicas, b"*2\r\n$4\r\nINFO\r\n$6\r\nserver\r\n")));
    let mut bare = Database::new();
    assert!(is_error(&reply(&mut bare, &mut replicas, b"*2\r\n$4\r\nINFO\r\n$11\r\nreplication\r\n")));
}

#[test]
fn replconf_options() {
    let (mut db, mut replicas) = server(b"master");
    let ok = decide(&mut db, &mut replicas, b"*3\r\n$8\r\nREPLCONF\r\n$14\r\nlistening-port\r\n$4\r\n6380\r\n");
    assert!(matches!(ok, Some(RedisCommand::ReplconfOk1)));
    for port in [&b"0"[..], &b"70000"[..], &b"x"[..]] {
        let mut request = b"*3\r\n$8\r\nREPLCONF\r\n$14\r\nlistening-port\r\n".to_vec();
        request.extend_from_slice(format!("${}\r\n", port.len()).as_bytes());
        request.extend_from_slice(port);
        request.extend_from_slice(b"\r\n");
        assert!(matches!(decide(&mut db, &mut replicas, &request), Some(RedisCommand::Error(_))));
    }
    let capa = decide(&mut db, &mut replicas, b"*3\r\n$8\r\nREPLCONF\r\n$4\r\ncapa\r\n$6\r\npsync2\r\n");
    assert!(matches!(capa, Some(RedisCommand::ReplconfOk2)));
    match decide(&mut db, &mut replicas, b"*3\r\n$8\r\nREPLCONF\r\n$6\r\nGETACK\r\n$1\r\n*\r\n") {
        Some(RedisCommand::ReplconfAck(a)) => assert_eq!(a, b"0".to_vec()),
        other => panic!("unexpected {:?}", other),
    }
    assert!(matches!(decide(&mut db, &mut replicas, b"*1\r\n$8\r\nREPLCONF\r\n"), Some(RedisCommand::Error(_))));
}

#[test]
fn psync_sends_fullresync_and_the_empty_snapshot() {
    let (mut db, mut replicas) = server(b"master");
    let command = decide(&mut db, &mut replicas, b"*3\r\n$5\r\nPSYNC\r\n$1\r\n?\r\n$2\r\n-1\r\n").unwrap();
    let messages = formulate_response(&command).unwrap();
    assert_eq!(messages.len(), 2);
    let mut line = b"+FULLRESYNC ".to_vec();
    line.extend_from_slice(REPLID);
    line.extend_from_slice(b" 0\r\n");
    assert_eq!(messages[0], line);
    assert!(messages[1].starts_with(b"$88\r\nREDIS0011"));
    assert_eq!(messages[1].len(), 5 + 88);
    assert!(messages[1].ends_with(&[0xff, 0xf0, 0x6e, 0x3b, 0xfe, 0xc0, 0xff, 0x5a, 0xa2]));
    assert!(matches!(
        decide(&mut db, &mut replicas, b"*3\r\n$5\r\nPSYNC\r\n$3\r\nabc\r\n$1\r\n5\r\n"),
        Some(RedisCommand::Error(_))
    ));
}

#[test]
fn requests_that_are_no_command() {
    let (mut db, mut replicas) = server(b"master");
    assert!(decide(&mut db, &mut replicas, b":5\r\n").is_none());
    assert!(decide(&mut db, &mut replicas, b"*1\r\n:5\r\n").is_none());
    assert!(decide(&mut db, &mut replicas, b"*0\r\n").is_none());
    assert!(matches!(decide(&mut db, &mut replicas, b"+HELLO\r\n"), Some(RedisCommand::Error(_))));
}

#[test]
fn set_on_a_primary_is_queued_verbatim() {
    let (mut db, mut replicas) = server(b"master");
    let id = replicas.register();
    let set = b"*3\r\n$3\r\nSET\r\n$1\r\na\r\n$1\r\n1\r\n";
    decide(&mut db, &mut replicas, set);
    decide(&mut db, &mut replicas, b"*2\r\n$3\r\nGET\r\n$1\r\na\r\n");
    decide(&mut db, &mut replicas, b"*2\r\n$3\r\nSET\r\n$1\r\na\r\n");
    let task = replicas.next_task().unwrap();
    assert_eq!(task.command(), &set[..]);
    assert!(replicas.next_task().is_none());
    assert_eq!(replicas.replica_ids(), vec![id]);
    let (acked, pending) = replicas.wait_plan();
    assert_eq!((acked, pending), (0, vec![id]));
}

#[test]
fn set_on_a_replica_is_not_queued() {
    let (mut db, mut replicas) = server(b"slave");
    decide(&mut db, &mut replicas, b"*3\r\n$3\r\nSET\r\n$1\r\na\r\n$1\r\n1\r\n");
    assert!(replicas.next_task().is_none());
}

fn handshake_answers() -> Vec<RedisCommand> {
    vec![
        RedisCommand::Pong,
        RedisCommand::ReplconfOk1,
        RedisCommand::ReplconfOk2,
        RedisCommand::FullResync(b"FULLRESYNC x 0".to_vec(), Vec::new()),
    ]
}

#[test]
fn handshake_is_recognised_in_order() {
    let mut watcher = ReplicaIdentifier::init();
    let answers = handshake_answers();
    for (i, answer) in answers.iter().enumerate() {
        assert_eq!(watcher.is_replica(answer), i == 3);
    }
    assert!(watcher.is_synced());
    let mut watcher = ReplicaIdentifier::init();
    assert!(!watcher.is_replica(&answers[0]));
    assert!(!watcher.is_replica(&RedisCommand::BulkString(b"x".to_vec())));
    assert!(!watcher.is_replica(&answers[1]));
    assert!(!watcher.is_replica(&answers[2]));
    assert!(!watcher.is_replica(&answers[3]));
    assert!(!watcher.is_synced());
}

#[test]
fn slave_identifier_follows_the_same_steps() {
    let mut watcher = SlaveIdentifier::init();
    let answers = handshake_answers();
    for (i, answer) in answers.iter().enumerate() {
        assert_eq!(watcher.is_slave(answer), i == 3);
    }
    assert!(watcher.is_synced());
    let task = SlaveTask::new(b"*1\r\n$4\r\nPING\r\n".to_vec());
    assert_eq!(task.command(), b"*1\r\n$4\r\nPING\r\n");
}

#[test]
fn value_decisions_are_written_as_is() {
    let out = formulate_response(&RedisCommand::RespDatatype(RespDatatype::Integer(3))).unwrap();
    assert_eq!(out, vec![b":3\r\n".to_vec()]);
    let out = formulate_response(&RedisCommand::SimpleString(b"QUEUED".to_vec())).unwrap();
    assert_eq!(out, vec![b"+QUEUED\r\n".to_vec()]);
    assert!(formulate_response(&RedisCommand::ReplconfAck(b"0".to_vec())).is_none());
    assert!(formulate_response(&RedisCommand::Wait(1, 0)).is_none());
}

#[test]
fn unknown_command_text_is_fixed() {
    let (mut db, mut replicas) = server(b"master");
    let out = reply(&mut db, &mut replicas, b"*1\r\n$5\r\nHELLO\r\n");
    assert_eq!(out, b"-Unknown command received\r\n".to_vec());
}

#[test]
fn px_is_an_unsigned_64_bit_count() {
    let (mut db, mut replicas) = server(b"master");
    let big = b"*5\r\n$3\r\nSET\r\n$1\r\nk\r\n$1\r\nv\r\n$2\r\nPX\r\n$20\r\n10000000000000000000\r\n";
    assert_eq!(reply(&mut db, &mut replicas, big), b"+OK\r\n".to_vec());
    assert_eq!(reply(&mut db, &mut replicas, b"*2\r\n$3\r\nGET\r\n$1\r\nk\r\n"), b"$1\r\nv\r\n".to_vec());
    let minus_zero = b"*5\r\n$3\r\nSET\r\n$1\r\nj\r\n$1\r\nv\r\n$2\r\nPX\r\n$2\r\n-0\r\n";
    assert!(is_error(&reply(&mut db, &mut replicas, minus_zero)));
    assert_eq!(reply(&mut db, &mut replicas, b"*2\r\n$3\r\nGET\r\n$1\r\nj\r\n"), b"$-1\r\n".to_vec());
    let plus = b"*5\r\n$3\r\nSET\r\n$1\r\nj\r\n$1\r\nv\r\n$2\r\nPX\r\n$3\r\n+50\r\n";
    assert_eq!(reply(&mut db, &mut replicas, plus), b"+OK\r\n".to_vec());
    let too_big = b"*5\r\n$3\r\nSET\r\n$1\r\nj\r\n$1\r\nv\r\n$2\r\nPX\r\n$20\r\n18446744073709551616\r\n";
    assert!(is_error(&reply(&mut db, &mut replicas, too_big)));
}

#[test]
fn port_and_wait_refuse_signs_other_than_plus() {
    let (mut db, mut replicas) = server(b"master");
    let port = b"*3\r\n$8\r\nREPLCONF\r\n$14\r\nlistening-port\r\n$2\r\n-1\r\n";
    assert!(matches!(decide(&mut db, &mut replicas, port), Some(RedisCommand::Error(_))));
    let wait = b"*3\r\n$4\r\nWAIT\r\n$2\r\n-0\r\n$1\r\n0\r\n";
    assert!(matches!(decide(&mut db, &mut replicas, wait), Some(RedisCommand::Error(_))));
}
