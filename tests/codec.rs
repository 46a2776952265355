use redis_core::framer::{FrameError, RespFramer};
use redis_core::parse::{deserialize, Frame};
use redis_core::resp::{serialize, RespDatatype};

fn sample_values() -> Vec<RespDatatype> {
    vec![
        RespDatatype::SimpleString("OK".to_string()),
        RespDatatype::SimpleError("ERR bad".to_string()),
        RespDatatype::Integer(-42),
        RespDatatype::Integer(i64::MIN),
        RespDatatype::BulkString(b"hello".to_vec()),
        RespDatatype::BulkString(Vec::new()),
        RespDatatype::NullBulkString,
        RespDatatype::Array(vec![
            RespDatatype::BulkString(b"SET".to_vec()),
            RespDatatype::Array(vec![RespDatatype::Integer(7)]),
        ]),
        RespDatatype::NullArray,
    ]
}

#[test]
fn serialize_writes_each_form() {
    let expected: Vec<&[u8]> = vec![
        b"+OK\r\n",
        b"-ERR bad\r\n",
        b":-42\r\n",
        b":-9223372036854775808\r\n",
        b"$5\r\nhello\r\n",
        b"$0\r\n\r\n",
        b"$-1\r\n",
        b"*2\r\n$3\r\nSET\r\n*1\r\n:7\r\n",
        b"*-1\r\n",
    ];
    for (value, bytes) in sample_values().iter().zip(expected) {
        assert_eq!(serialize(value), bytes.to_vec());
    }
}

#[test]
fn snapshot_has_no_trailing_crlf() {
    assert_eq!(serialize(&RespDatatype::RDBFile(b"abc".to_vec())), b"$3\r\nabc".to_vec());
}

#[test]
fn serialized_values_read_back() {
    for value in sample_values() {
        let bytes = serialize(&value);
        match deserialize(&bytes) {
            Frame::Complete(back, n) => {
                assert_eq!(n, bytes.len());
                assert_eq!(format!("{:?}", back), format!("{:?}", value));
            }
            _ => panic!("value did not read back"),
        }
    }
}

#[test]
fn non_canonical_input_reads_back_the_same_after_reserializing() {
    let input = b":+007\r\n";
    let first = match deserialize(input) {
        Frame::Complete(v, n) => {
            assert_eq!(n, input.len());
            v
        }
        _ => panic!("not framed"),
    };
    let again = serialize(&first);
    assert_eq!(again, b":7\r\n".to_vec());
    match deserialize(&again) {
        Frame::Complete(v, _) => assert_eq!(format!("{:?}", v), format!("{:?}", first)),
        _ => panic!("not framed"),
    }
    match deserialize(b"$-5\r\n") {
        Frame::Complete(RespDatatype::NullBulkString, 5) => {}
        _ => panic!("negative length is a null bulk string"),
    }
}

#[test]
fn partial_frames_wait_for_more_bytes() {
    let mut framer = RespFramer::new();
    framer.feed(b"*2\r\n$4\r\nECHO\r\n$5\r\nhel");
    assert!(matches!(framer.deserialize_stream(), Ok(None)));
    framer.feed(b"lo\r\n*1\r\n$4\r\nPI");
    let (value, raw) = framer.deserialize_stream().unwrap().unwrap();
    assert!(matches!(value, RespDatatype::Array(_)));
    assert_eq!(raw, b"*2\r\n$4\r\nECHO\r\n$5\r\nhello\r\n".to_vec());
    assert!(matches!(framer.deserialize_stream(), Ok(None)));
    assert!(!framer.is_empty());
    assert_eq!(framer.finish(), Err(FrameError::UnexpectedEof));
    framer.feed(b"NG\r\n");
    let (_, raw2) = framer.deserialize_stream().unwrap().unwrap();
    let mut all = raw.clone();
    all.extend_from_slice(&raw2);
    assert_eq!(all, b"*2\r\n$4\r\nECHO\r\n$5\r\nhello\r\n*1\r\n$4\r\nPING\r\n".to_vec());
    assert!(framer.is_empty());
    assert_eq!(framer.finish(), Ok(()));
}

#[test]
fn pipelined_requests_come_out_in_order() {
    let mut framer = RespFramer::new();
    framer.feed(b"+a\r\n:1\r\n$1\r\nx\r\n");
    let (_, a) = framer.deserialize_stream().unwrap().unwrap();
    let (_, b) = framer.deserialize_stream().unwrap().unwrap();
    let (_, c) = framer.deserialize_stream().unwrap().unwrap();
    assert_eq!((a, b, c), (b"+a\r\n".to_vec(), b":1\r\n".to_vec(), b"$1\r\nx\r\n".to_vec()));
}

#[test]
fn malformed_frames_are_refused() {
    let bad: Vec<&[u8]> = vec![
        b"?x\r\n",
        b"$3\r\nabcXY",
        b":12a\r\n",
        b":99999999999999999999\r\n",
        b"$999999999\r\n",
        b"\r\n",
        b"+\xff\xfe\r\n",
        b"*1\r\n!\r\n",
    ];
    for bytes in bad {
        let mut framer = RespFramer::new();
        framer.feed(bytes);
        assert_eq!(framer.deserialize_stream().err(), Some(FrameError::MalformedFrame));
    }
}

#[test]
fn utf8_simple_strings_are_decoded() {
    match deserialize("+héllo\r\n".as_bytes()) {
        Frame::Complete(RespDatatype::SimpleString(s), n) => {
            assert_eq!(s, "héllo");
            assert_eq!(n, "+héllo\r\n".len());
        }
        _ => panic!("not framed"),
    }
}

#[test]
fn snapshot_transfer_is_framed_without_crlf() {
    let mut framer = RespFramer::new();
    framer.feed(b"$4\r\nRED");
    assert_eq!(framer.get_rdb(), Ok(None));
    framer.feed(b"I*1\r\n");
    assert_eq!(framer.get_rdb(), Ok(Some(b"REDI".to_vec())));
    let mut framer = RespFramer::new();
    framer.feed(b"+4\r\nREDI");
    assert_eq!(framer.get_rdb(), Err(FrameError::MalformedFrame));
    let mut framer = RespFramer::new();
    framer.feed(b"$-0\r\n");
    assert_eq!(framer.get_rdb(), Err(FrameError::MalformedFrame));
    let mut framer = RespFramer::new();
    framer.feed(b"$0\r\n*1\r\n");
    assert_eq!(framer.get_rdb(), Ok(Some(Vec::new())));
}
