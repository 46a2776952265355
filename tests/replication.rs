use redis_core::database::{get_value, Database};
use redis_core::framer::RespFramer;
use redis_core::replica::{handle_master_frame, replica_formulate_response, ReplicaData};
use redis_core::replication::{getack_request, is_ack_reply, wait_outcome, ReplicaSet, ReplicaTask, WaitTally};
use redis_core::command::RedisCommand;

#[test]
fn fan_out_sends_each_write_to_every_replica_in_order() {
    let mut replicas = ReplicaSet::new();
    let early = replicas.register();
    replicas.push_to_replicas(ReplicaTask::new(b"one".to_vec()));
    let first = replicas.next_task().unwrap();
    assert_eq!(first.command(), b"one");
    let late = replicas.register();
    replicas.push_to_replicas(ReplicaTask::new(b"two".to_vec()));
    replicas.push_to_replicas(ReplicaTask::new(b"three".to_vec()));
    assert_eq!(replicas.next_task().unwrap().command(), b"two");
    assert_eq!(replicas.next_task().unwrap().command(), b"three");
    assert!(replicas.next_task().is_none());
    assert_eq!(replicas.replica_ids(), vec![early, late]);
    assert!(replicas.remove_replica(early));
    assert!(!replicas.remove_replica(early));
    assert_eq!(replicas.replica_ids(), vec![late]);
    let (acked, pending) = replicas.wait_plan();
    assert_eq!((acked, pending), (0, vec![late]));
}

#[test]
fn wait_stops_on_enough_acks_or_the_timeout() {
    assert_eq!(wait_outcome(0, 2, 10, 100), None);
    assert_eq!(wait_outcome(2, 2, 10, 100), Some(2));
    assert_eq!(wait_outcome(5, 2, 10, 100), Some(2));
    assert_eq!(wait_outcome(1, 2, 100, 100), Some(1));
    assert_eq!(wait_outcome(1, 2, 1_000_000, 0), None);
    assert_eq!(wait_outcome(0, 0, 0, 0), Some(0));
}

#[test]
fn acknowledgements_are_recognised() {
    assert!(is_ack_reply(b"*3\r\n$8\r\nREPLCONF\r\n$3\r\nACK\r\n$2\r\n31\r\n"));
    assert!(!is_ack_reply(b"*3\r\n$8\r\nREPLCONF\r\n$3\r\nACX\r\n$2\r\n31\r\n"));
    assert!(!is_ack_reply(b"*3\r\n"));
    assert_eq!(getack_request(), b"*3\r\n$8\r\nREPLCONF\r\n$6\r\nGETACK\r\n$1\r\n*\r\n".to_vec());
}

#[test]
fn replica_counts_the_bytes_of_applied_frames() {
    let mut db = Database::new();
    let mut data = ReplicaData::new();
    let mut framer = RespFramer::new();
    let set = b"*3\r\n$3\r\nSET\r\n$3\r\nfoo\r\n$1\r\n1\r\n";
    assert_eq!(set.len() + 14, 43);
    let ping = b"*1\r\n$4\r\nPING\r\n";
    let getack = b"*3\r\n$8\r\nREPLCONF\r\n$6\r\nGETACK\r\n$1\r\n*\r\n";
    framer.feed(set);
    framer.feed(ping);
    framer.feed(getack);
    let (v, raw) = framer.deserialize_stream().unwrap().unwrap();
    assert_eq!(handle_master_frame(&mut db, &mut data, v, &raw, 0), Some(None));
    let (v, raw) = framer.deserialize_stream().unwrap().unwrap();
    assert_eq!(handle_master_frame(&mut db, &mut data, v, &raw, 0), Some(None));
    assert_eq!(data.bytes_processed(), (set.len() + ping.len()) as u64);
    let (v, raw) = framer.deserialize_stream().unwrap().unwrap();
    let out = handle_master_frame(&mut db, &mut data, v, &raw, 0).unwrap().unwrap();
    assert_eq!(out, vec![b"*3\r\n$8\r\nREPLCONF\r\n$3\r\nACK\r\n$2\r\n43\r\n".to_vec()]);
    assert_eq!(data.bytes_processed(), (set.len() + ping.len() + getack.len()) as u64);
    assert_eq!(get_value(&mut db, b"foo", 0), Some(b"1".to_vec()));
}

#[test]
fn replica_link_does_not_answer_other_commands() {
    let mut db = Database::new();
    let mut data = ReplicaData::new();
    let mut framer = RespFramer::new();
    framer.feed(b"*2\r\n$3\r\nGET\r\n$3\r\nfoo\r\n");
    let (v, raw) = framer.deserialize_stream().unwrap().unwrap();
    assert_eq!(handle_master_frame(&mut db, &mut data, v, &raw, 0), Some(None));
    assert_eq!(data.bytes_processed(), raw.len() as u64);
    assert!(replica_formulate_response(&RedisCommand::Pong).is_none());
}

#[test]
fn tally_counts_each_asked_replica_once() {
    let ack = b"*3\r\n$8\r\nREPLCONF\r\n$3\r\nACK\r\n$2\r\n31\r\n";
    let mut tally = WaitTally::new(1, vec![4, 7]);
    assert!(tally.awaits(4));
    assert!(!tally.awaits(5));
    assert!(!tally.on_reply(5, ack));
    assert!(!tally.on_reply(4, b"+OK\r\n"));
    assert!(tally.on_reply(4, ack));
    assert!(!tally.on_reply(4, ack));
    assert!(!tally.awaits(4));
    assert_eq!(tally.acked(), 2);
    assert_eq!(tally.outcome(3, 10, 100), None);
    assert!(tally.on_reply(7, ack));
    assert_eq!(tally.outcome(3, 10, 100), Some(3));
}
