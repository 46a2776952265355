use redis_core::command::RedisCommand;
use redis_core::database::{get_config, set_config, Database};
use redis_core::framer::RespFramer;
use redis_core::interpreter::interpret;
use redis_core::replication::{wait_outcome, ReplicaSet};
use redis_core::responder::formulate_response;
use redis_core::resp::{serialize, RespDatatype};
use redis_core::utils::generate_master_replid;

fn primary() -> (Database, ReplicaSet) {
    let mut db = Database::new();
    set_config(&mut db, b"role", b"master");
    let id = generate_master_replid();
    set_config(&mut db, b"master_replid", &id);
    set_config(&mut db, b"master_repl_offset", b"0");
    (db, ReplicaSet::new())
}

/// Frames one request, decides on it at `now`, and returns the bytes written back.
fn exchange(db: &mut Database, replicas: &mut ReplicaSet, request: &[u8], now: u64) -> Vec<u8> {
    let mut framer = RespFramer::new();
    framer.feed(request);
    let (value, raw) = framer.deserialize_stream().unwrap().unwrap();
    assert_eq!(raw, request.to_vec());
    let command = interpret(db, replicas, value, &raw, now).unwrap();
    formulate_response(&command).unwrap().concat()
}

#[test]
fn ping_replies_pong() {
    let (mut db, mut replicas) = primary();
    let out = exchange(&mut db, &mut replicas, b"*1\r\n$4\r\nPING\r\n", 0);
    assert_eq!(out, b"+PONG\r\n".to_vec());
}

#[test]
fn echo_replies_bulk() {
    let (mut db, mut replicas) = primary();
    let out = exchange(&mut db, &mut replicas, b"*2\r\n$4\r\nECHO\r\n$5\r\nhello\r\n", 0);
    assert_eq!(out, b"$5\r\nhello\r\n".to_vec());
}

#[test]
fn set_then_get_round_trip() {
    let (mut db, mut replicas) = primary();
    let out = exchange(&mut db, &mut replicas, b"*3\r\n$3\r\nSET\r\n$4\r\npear\r\n$6\r\nbanana\r\n", 10);
    assert_eq!(out, b"+OK\r\n".to_vec());
    let out = exchange(&mut db, &mut replicas, b"*2\r\n$3\r\nGET\r\n$4\r\npear\r\n", 20);
    assert_eq!(out, b"$6\r\nbanana\r\n".to_vec());
}

#[test]
fn set_with_px_expires() {
    let (mut db, mut replicas) = primary();
    let set = b"*5\r\n$3\r\nSET\r\n$1\r\nk\r\n$1\r\nv\r\n$2\r\nPX\r\n$3\r\n100\r\n";
    assert_eq!(exchange(&mut db, &mut replicas, set, 1000), b"+OK\r\n".to_vec());
    let get = b"*2\r\n$3\r\nGET\r\n$1\r\nk\r\n";
    assert_eq!(exchange(&mut db, &mut replicas, get, 1050), b"$1\r\nv\r\n".to_vec());
    assert_eq!(exchange(&mut db, &mut replicas, get, 1200), b"$-1\r\n".to_vec());
}

#[test]
fn wait_with_no_writes_counts_every_replica() {
    let (mut db, mut replicas) = primary();
    replicas.register();
    let mut framer = RespFramer::new();
    let request = b"*3\r\n$4\r\nWAIT\r\n$1\r\n1\r\n$3\r\n500\r\n";
    framer.feed(request);
    let (value, raw) = framer.deserialize_stream().unwrap().unwrap();
    let command = interpret(&mut db, &mut replicas, value, &raw, 0).unwrap();
    let (numreplicas, timeout) = match command {
        RedisCommand::Wait(n, t) => (n, t),
        other => panic!("unexpected decision {:?}", other),
    };
    assert_eq!((numreplicas, timeout), (1, 500));
    let (acked, pending) = replicas.wait_plan();
    assert_eq!(acked, 1);
    assert!(pending.is_empty());
    let count = wait_outcome(acked, numreplicas, 0, timeout).unwrap();
    let reply = serialize(&RespDatatype::Integer(count as i64));
    assert_eq!(reply, b":1\r\n".to_vec());
}

#[test]
fn wait_counts_all_replicas_up_to_numreplicas() {
    let (_db, mut replicas) = primary();
    replicas.register();
    replicas.register();
    replicas.register();
    let (acked, pending) = replicas.wait_plan();
    assert_eq!(acked, 3);
    assert!(pending.is_empty());
    assert_eq!(wait_outcome(acked, 3, 0, 500), Some(3));
    assert_eq!(wait_outcome(acked, 1, 0, 500), Some(1));
}

#[test]
fn info_replication_on_primary() {
    let (mut db, mut replicas) = primary();
    let out = exchange(&mut db, &mut replicas, b"*2\r\n$4\r\nINFO\r\n$11\r\nreplication\r\n", 0);
    let id = get_config(&db, b"master_replid").unwrap();
    assert_eq!(id.len(), 40);
    let mut payload = b"role:master\r\nmaster_replid:".to_vec();
    payload.extend_from_slice(&id);
    payload.extend_from_slice(b"\r\nmaster_repl_offset:0\r\n");
    let mut expected = format!("${}\r\n", payload.len()).into_bytes();
    expected.extend_from_slice(&payload);
    expected.extend_from_slice(b"\r\n");
    assert_eq!(out, expected);
}
