use redis_core::framer::RespFramer;
use redis_core::replica::{advance, check_handshake_reply, handshake_request, HandshakeError, HandshakeStep};

#[test]
fn replica_handshake_writes_the_four_requests() {
    let port = b"6380";
    assert_eq!(handshake_request(HandshakeStep::Ping, port), b"*1\r\n$4\r\nPING\r\n".to_vec());
    assert_eq!(
        handshake_request(HandshakeStep::ListeningPort, port),
        b"*3\r\n$8\r\nREPLCONF\r\n$14\r\nlistening-port\r\n$4\r\n6380\r\n".to_vec()
    );
    assert_eq!(
        handshake_request(HandshakeStep::Capa, port),
        b"*3\r\n$8\r\nREPLCONF\r\n$4\r\ncapa\r\n$6\r\npsync2\r\n".to_vec()
    );
    assert_eq!(
        handshake_request(HandshakeStep::Psync, port),
        b"*3\r\n$5\r\nPSYNC\r\n$1\r\n?\r\n$2\r\n-1\r\n".to_vec()
    );
    assert_eq!(advance(HandshakeStep::Ping), HandshakeStep::ListeningPort);
    assert_eq!(advance(HandshakeStep::ListeningPort), HandshakeStep::Capa);
    assert_eq!(advance(HandshakeStep::Capa), HandshakeStep::Psync);
    assert_eq!(advance(HandshakeStep::Psync), HandshakeStep::Done);
}

#[test]
fn replica_handshake_accepts_the_primary_answers() {
    let id = "8371b4fb1155b71f4a04d3e1bc3e18c4a990aeeb";
    let mut stream = b"+PONG\r\n+OK\r\n+OK\r\n".to_vec();
    stream.extend_from_slice(format!("+FULLRESYNC {} 0\r\n", id).as_bytes());
    stream.extend_from_slice(b"$5\r\nREDIS");
    stream.extend_from_slice(b"*1\r\n$4\r\nPING\r\n");
    let mut framer = RespFramer::new();
    framer.feed(&stream);
    let mut step = HandshakeStep::Ping;
    let mut learned = None;
    while step != HandshakeStep::Done {
        let (value, raw) = framer.deserialize_stream().unwrap().unwrap();
        learned = check_handshake_reply(step, &value, &raw).unwrap();
        step = advance(step);
    }
    let (replid, offset) = learned.unwrap();
    assert_eq!(replid, id.as_bytes().to_vec());
    assert_eq!(offset, b"0".to_vec());
    assert_eq!(framer.get_rdb().unwrap().unwrap(), b"REDIS".to_vec());
    let (_, raw) = framer.deserialize_stream().unwrap().unwrap();
    assert_eq!(raw, b"*1\r\n$4\r\nPING\r\n".to_vec());
}

#[test]
fn replica_handshake_rejects_a_wrong_answer() {
    let mut framer = RespFramer::new();
    framer.feed(b"+OK\r\n");
    let (value, raw) = framer.deserialize_stream().unwrap().unwrap();
    assert_eq!(check_handshake_reply(HandshakeStep::Ping, &value, &raw), Err(HandshakeError::HandshakeFailed));
    let mut framer = RespFramer::new();
    framer.feed(b"+FULLRESYNC abc 0\r\n+FULLRESYNC 8371b4fb1155b71f4a04d3e1bc3e18c4a990aeeb -0\r\n");
    let (value, raw) = framer.deserialize_stream().unwrap().unwrap();
    assert_eq!(check_handshake_reply(HandshakeStep::Psync, &value, &raw), Err(HandshakeError::HandshakeFailed));
    let (value, raw) = framer.deserialize_stream().unwrap().unwrap();
    assert_eq!(check_handshake_reply(HandshakeStep::Psync, &value, &raw), Err(HandshakeError::HandshakeFailed));
}

#[test]
fn fullresync_offsets_are_unsigned_64_bit() {
    let mut framer = RespFramer::new();
    framer.feed(b"+FULLRESYNC 8371b4fb1155b71f4a04d3e1bc3e18c4a990aeeb 18446744073709551615\r\n");
    let (value, raw) = framer.deserialize_stream().unwrap().unwrap();
    let (_, offset) = check_handshake_reply(HandshakeStep::Psync, &value, &raw).unwrap().unwrap();
    assert_eq!(offset, b"18446744073709551615".to_vec());
}
