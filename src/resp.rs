//! RESP values, their wire encoding, and the serializer.
use vstd::prelude::*;
use vstd::utf8::*;
use vstd::string::*;
use crate::decimal::{int_decimal, nat_decimal, push_decimal, push_signed_decimal};

verus! {

/// A RESP value as it is held in memory.
#[derive(Debug)]
pub enum RespDatatype {
    SimpleString(String),
    SimpleError(String),
    Integer(i64),
    BulkString(Vec<u8>),
    NullBulkString,
    Array(Vec<RespDatatype>),
    NullArray,
    /// A length-prefixed snapshot blob, written without a trailing CRLF.
    RDBFile(Vec<u8>),
}

/// The mathematical model of a RESP value.
pub enum RespValue {
    SimpleString(Seq<char>),
    SimpleError(Seq<char>),
    Integer(int),
    BulkString(Seq<u8>),
    NullBulkString,
    Array(Seq<RespValue>),
    NullArray,
    RdbFile(Seq<u8>),
}

pub open spec fn resp_view(v: &RespDatatype) -> RespValue
    decreases v,
{
    match v {
        RespDatatype::SimpleString(s) => RespValue::SimpleString(s@),
        RespDatatype::SimpleError(s) => RespValue::SimpleError(s@),
        RespDatatype::Integer(i) => RespValue::Integer(*i as int),
        RespDatatype::BulkString(b) => RespValue::BulkString(b@),
        RespDatatype::NullBulkString => RespValue::NullBulkString,
        RespDatatype::Array(a) => RespValue::Array(
            Seq::new(
                a.len() as nat,
                |i: int|
                    if 0 <= i < a.len() {
                        resp_view(&a[i])
                    } else {
                        RespValue::NullArray
                    },
            ),
        ),
        RespDatatype::NullArray => RespValue::NullArray,
        RespDatatype::RDBFile(b) => RespValue::RdbFile(b@),
    }
}

impl View for RespDatatype {
    type V = RespValue;

    open spec fn view(&self) -> RespValue {
        resp_view(self)
    }
}

pub open spec fn crlf() -> Seq<u8> {
    seq![13u8, 10u8]
}

/// The length header `<tag><n>\r\n` of a bulk string, array or snapshot.
pub open spec fn header(tag: u8, n: nat) -> Seq<u8> {
    seq![tag] + nat_decimal(n) + crlf()
}

/// The wire encoding of a value.
pub open spec fn ser(v: RespValue) -> Seq<u8>
    decreases v,
{
    match v {
        RespValue::SimpleString(s) => seq![43u8] + encode_utf8(s) + crlf(),
        RespValue::SimpleError(s) => seq![45u8] + encode_utf8(s) + crlf(),
        RespValue::Integer(i) => seq![58u8] + int_decimal(i) + crlf(),
        RespValue::BulkString(b) => header(36u8, b.len()) + b + crlf(),
        RespValue::NullBulkString => seq![36u8, 45u8, 49u8, 13u8, 10u8],
        RespValue::Array(a) => header(42u8, a.len()) + ser_all(a),
        RespValue::NullArray => seq![42u8, 45u8, 49u8, 13u8, 10u8],
        RespValue::RdbFile(b) => header(36u8, b.len()) + b,
    }
}

/// The encodings of a sequence of values, one after the other.
pub open spec fn ser_all(a: Seq<RespValue>) -> Seq<u8>
    decreases a,
{
    if a.len() == 0 {
        Seq::empty()
    } else {
        ser_all(a.subrange(0, a.len() - 1)) + ser(a[a.len() - 1])
    }
}

/// Appends `b` to `out`.
pub fn append_bytes(out: &mut Vec<u8>, b: &[u8])
    ensures
        final(out)@ == old(out)@ + b@,
{
    let mut i: usize = 0;
    while i < b.len()
        invariant
            i <= b@.len(),
            out@ == old(out)@ + b@.subrange(0, i as int),
        decreases b@.len() - i,
    {
        out.push(b[i]);
        i += 1;
        assert(out@ =~= old(out)@ + b@.subrange(0, i as int));
    }
    assert(b@.subrange(0, b@.len() as int) =~= b@);
}

fn push_header(out: &mut Vec<u8>, tag: u8, n: usize)
    ensures
        final(out)@ == old(out)@ + header(tag, n as nat),
{
    out.push(tag);
    push_decimal(out, n as u64);
    out.push(13u8);
    out.push(10u8);
    assert(final(out)@ =~= old(out)@ + header(tag, n as nat));
}

/// The wire encoding of a value.
pub fn serialize(resp_object: &RespDatatype) -> (bytes: Vec<u8>)
    ensures
        bytes@ == ser(resp_object@),
{
    let mut bytes: Vec<u8> = Vec::new();
    serialize_recursive(&mut bytes, resp_object);
    assert(bytes@ =~= ser(resp_object@));
    bytes
}

fn serialize_recursive(bytes: &mut Vec<u8>, resp_object: &RespDatatype)
    ensures
        final(bytes)@ == old(bytes)@ + ser(resp_object@),
    decreases resp_object,
{
    match resp_object {
        RespDatatype::SimpleString(string) => {
            bytes.push(43u8);
            append_bytes(bytes, string.as_str().as_bytes());
            bytes.push(13u8);
            bytes.push(10u8);
        },
        RespDatatype::SimpleError(error_string) => {
            bytes.push(45u8);
            append_bytes(bytes, error_string.as_str().as_bytes());
            bytes.push(13u8);
            bytes.push(10u8);
        },
        RespDatatype::Integer(integer) => {
            bytes.push(58u8);
            push_signed_decimal(bytes, *integer);
            bytes.push(13u8);
            bytes.push(10u8);
        },
        RespDatatype::BulkString(bulk_string) => {
            push_header(bytes, 36u8, bulk_string.len());
            append_bytes(bytes, bulk_string.as_slice());
            bytes.push(13u8);
            bytes.push(10u8);
        },
        RespDatatype::NullBulkString => {
            bytes.push(36u8);
            bytes.push(45u8);
            bytes.push(49u8);
            bytes.push(13u8);
            bytes.push(10u8);
        },
        RespDatatype::Array(array) => {
            push_header(bytes, 42u8, array.len());
            let ghost start = bytes@;
            let ghost items = resp_object@->Array_0;
            let mut i: usize = 0;
            while i < array.len()
                invariant
                    i <= array@.len(),
                    items == resp_object@->Array_0,
                    items.len() == array@.len(),
                    *resp_object == RespDatatype::Array(*array),
                    bytes@ == start + ser_all(items.subrange(0, i as int)),
                decreases array@.len() - i,
            {
                assert(items[i as int] == array[i as int]@);
                serialize_recursive(bytes, &array[i]);
                proof {
                    let next = items.subrange(0, i + 1);
                    assert(next.subrange(0, i as int) =~= items.subrange(0, i as int));
                }
                i += 1;
            }
            assert(items.subrange(0, items.len() as int) =~= items);
        },
        RespDatatype::NullArray => {
            bytes.push(42u8);
            bytes.push(45u8);
            bytes.push(49u8);
            bytes.push(13u8);
            bytes.push(10u8);
        },
        RespDatatype::RDBFile(contents) => {
            push_header(bytes, 36u8, contents.len());
            append_bytes(bytes, contents.as_slice());
        },
    }
    assert(final(bytes)@ =~= old(bytes)@ + ser(resp_object@));
}

} // verus!
