//! The RESP grammar: what a buffer that starts a value holds, and the parser
//! that reads one value from the front of a buffer.
use vstd::prelude::*;
use vstd::utf8::*;
use crate::decimal::{parse_i64_range, parse_i64_spec};
use crate::resp::{RespDatatype, RespValue};

verus! {

/// The largest bulk string length that the framer accepts (512 MiB).
pub const MAX_BULK_LEN: i64 = 536870912;

/// What the grammar says of the bytes of `s` from a position on.
pub enum Parsed {
    /// A whole value, and the position just after it.
    Done(RespValue, int),
    /// A value has begun but more bytes are needed.
    Partial,
    /// The bytes cannot start a value.
    Malformed,
}

pub enum ParsedItems {
    Done(Seq<RespValue>, int),
    Partial,
    Malformed,
}

/// The first position `i >= from` where `\r\n` starts.
pub open spec fn find_crlf(s: Seq<u8>, from: int) -> Option<int>
    decreases s.len() - from,
{
    if from < 0 || from + 1 >= s.len() {
        None
    } else if s[from] == 13u8 && s[from + 1] == 10u8 {
        Some(from)
    } else {
        find_crlf(s, from + 1)
    }
}

pub proof fn lemma_find_crlf_bounds(s: Seq<u8>, from: int)
    ensures
        find_crlf(s, from) matches Some(e) ==> 0 <= from <= e && e + 1 < s.len() && s[e] == 13u8
            && s[e + 1] == 10u8,
    decreases s.len() - from,
{
    if 0 <= from && from + 1 < s.len() && !(s[from] == 13u8 && s[from + 1] == 10u8) {
        lemma_find_crlf_bounds(s, from + 1);
    }
}

pub proof fn lemma_prepend_assoc(a: Seq<RespValue>, b: Seq<RespValue>, r: ParsedItems)
    ensures
        prepend(a, prepend(b, r)) == prepend(a + b, r),
{
    if let ParsedItems::Done(ws, q) = r {
        assert(a + (b + ws) =~= (a + b) + ws);
    }
}

/// The value that starts at `pos`.
pub open spec fn parse_value(s: Seq<u8>, pos: int) -> Parsed
    decreases s.len() - pos, 0int, 0int,
{
    proof {
        lemma_find_crlf_bounds(s, pos);
    }
    match find_crlf(s, pos) {
        None => Parsed::Partial,
        Some(e) => {
            if e == pos {
                Parsed::Malformed
            } else {
                let tag = s[pos];
                let body = s.subrange(pos + 1, e);
                let next = e + 2;
                if tag == 43u8 || tag == 45u8 {
                    if valid_utf8(body) {
                        if tag == 43u8 {
                            Parsed::Done(RespValue::SimpleString(decode_utf8(body)), next)
                        } else {
                            Parsed::Done(RespValue::SimpleError(decode_utf8(body)), next)
                        }
                    } else {
                        Parsed::Malformed
                    }
                } else if tag == 58u8 {
                    match parse_i64_spec(body) {
                        Some(i) => Parsed::Done(RespValue::Integer(i as int), next),
                        None => Parsed::Malformed,
                    }
                } else if tag == 36u8 {
                    match parse_i64_spec(body) {
                        None => Parsed::Malformed,
                        Some(n) => {
                            if n < 0 {
                                Parsed::Done(RespValue::NullBulkString, next)
                            } else if n > MAX_BULK_LEN {
                                Parsed::Malformed
                            } else if s.len() < next + n + 2 {
                                Parsed::Partial
                            } else if s[next + n] == 13u8 && s[next + n + 1] == 10u8 {
                                Parsed::Done(
                                    RespValue::BulkString(s.subrange(next, next + n)),
                                    next + n + 2,
                                )
                            } else {
                                Parsed::Malformed
                            }
                        },
                    }
                } else if tag == 42u8 {
                    match parse_i64_spec(body) {
                        None => Parsed::Malformed,
                        Some(n) => {
                            if n < 0 {
                                Parsed::Done(RespValue::NullArray, next)
                            } else {
                                match parse_items(s, next, n as int) {
                                    ParsedItems::Done(items, q) => Parsed::Done(
                                        RespValue::Array(items),
                                        q,
                                    ),
                                    ParsedItems::Partial => Parsed::Partial,
                                    ParsedItems::Malformed => Parsed::Malformed,
                                }
                            }
                        },
                    }
                } else {
                    Parsed::Malformed
                }
            }
        },
    }
}

/// `k` values one after the other, starting at `pos`.
pub open spec fn parse_items(s: Seq<u8>, pos: int, k: int) -> ParsedItems
    decreases s.len() - pos, 1int, k,
{
    if k <= 0 {
        ParsedItems::Done(Seq::empty(), pos)
    } else {
        match parse_value(s, pos) {
            Parsed::Done(v, q) => {
                if pos < q <= s.len() {
                    prepend(seq![v], parse_items(s, q, k - 1))
                } else {
                    ParsedItems::Malformed
                }
            },
            Parsed::Partial => ParsedItems::Partial,
            Parsed::Malformed => ParsedItems::Malformed,
        }
    }
}

pub open spec fn prepend(vs: Seq<RespValue>, r: ParsedItems) -> ParsedItems {
    match r {
        ParsedItems::Done(ws, q) => ParsedItems::Done(vs + ws, q),
        ParsedItems::Partial => ParsedItems::Partial,
        ParsedItems::Malformed => ParsedItems::Malformed,
    }
}

/// The outcome of reading one value from the front of a buffer.
pub enum Frame {
    /// The value and the number of bytes it took.
    Complete(RespDatatype, usize),
    Incomplete,
    Malformed,
}

impl View for Frame {
    type V = Parsed;

    open spec fn view(&self) -> Parsed {
        match self {
            Frame::Complete(v, n) => Parsed::Done(v@, *n as int),
            Frame::Incomplete => Parsed::Partial,
            Frame::Malformed => Parsed::Malformed,
        }
    }
}

/// Relies on `String::from_utf8`: it accepts exactly the valid UTF-8 byte
/// sequences, and the string it builds holds those bytes.
#[verifier::external_body]
pub(crate) fn string_from_utf8(v: Vec<u8>) -> (r: Option<String>)
    ensures
        r is Some <==> valid_utf8(v@),
        r is Some ==> r.unwrap()@ == decode_utf8(v@),
{
    String::from_utf8(v).ok()
}

/// A copy of `s[start..end]`.
pub fn copy_range(s: &[u8], start: usize, end: usize) -> (r: Vec<u8>)
    requires
        start <= end <= s@.len(),
    ensures
        r@ == s@.subrange(start as int, end as int),
{
    let mut r: Vec<u8> = Vec::new();
    let mut i: usize = start;
    while i < end
        invariant
            start <= i <= end <= s@.len(),
            r@ == s@.subrange(start as int, i as int),
        decreases end - i,
    {
        r.push(s[i]);
        i += 1;
        assert(r@ =~= s@.subrange(start as int, i as int));
    }
    r
}

/// The first position from `from` on where `\r\n` starts.
pub fn find_crlf_from(s: &[u8], from: usize) -> (r: Option<usize>)
    ensures
        r is Some <==> find_crlf(s@, from as int) is Some,
        r is Some ==> r.unwrap() as int == find_crlf(s@, from as int).unwrap(),
{
    let mut i: usize = from;
    while i < s.len() && s.len() - i >= 2
        invariant
            from <= i,
            find_crlf(s@, from as int) == find_crlf(s@, i as int),
        decreases s@.len() - i,
    {
        if s[i] == 13u8 && s[i + 1] == 10u8 {
            return Some(i);
        }
        i += 1;
    }
    None
}

/// Reads the value at the front of `buf`.
pub fn deserialize(buf: &[u8]) -> (r: Frame)
    ensures
        r@ == parse_value(buf@, 0),
        r matches Frame::Complete(_, q) ==> 0 < q <= buf@.len(),
{
    parse_value_at(buf, 0)
}

/// Reads the value that starts at `pos`.
pub fn parse_value_at(buf: &[u8], pos: usize) -> (r: Frame)
    requires
        pos <= buf@.len(),
    ensures
        r@ == parse_value(buf@, pos as int),
        r matches Frame::Complete(_, q) ==> pos < q <= buf@.len(),
    decreases buf@.len() - pos,
{
    let e = match find_crlf_from(buf, pos) {
        None => return Frame::Incomplete,
        Some(e) => e,
    };
    proof {
        lemma_find_crlf_bounds(buf@, pos as int);
    }
    if e == pos {
        return Frame::Malformed;
    }
    let tag = buf[pos];
    let next = e + 2;
    if tag == 43u8 || tag == 45u8 {
        let body = copy_range(buf, pos + 1, e);
        match string_from_utf8(body) {
            Some(text) => {
                if tag == 43u8 {
                    Frame::Complete(RespDatatype::SimpleString(text), next)
                } else {
                    Frame::Complete(RespDatatype::SimpleError(text), next)
                }
            },
            None => Frame::Malformed,
        }
    } else if tag == 58u8 {
        match parse_i64_range(buf, pos + 1, e) {
            Some(i) => Frame::Complete(RespDatatype::Integer(i), next),
            None => Frame::Malformed,
        }
    } else if tag == 36u8 {
        match parse_i64_range(buf, pos + 1, e) {
            None => Frame::Malformed,
            Some(n) => {
                if n < 0 {
                    Frame::Complete(RespDatatype::NullBulkString, next)
                } else if n > MAX_BULK_LEN {
                    Frame::Malformed
                } else if buf.len() - next < n as usize + 2 {
                    Frame::Incomplete
                } else {
                    let end = next + n as usize;
                    if buf[end] == 13u8 && buf[end + 1] == 10u8 {
                        Frame::Complete(RespDatatype::BulkString(copy_range(buf, next, end)), end + 2)
                    } else {
                        Frame::Malformed
                    }
                }
            },
        }
    } else if tag == 42u8 {
        match parse_i64_range(buf, pos + 1, e) {
            None => Frame::Malformed,
            Some(n) => {
                if n < 0 {
                    Frame::Complete(RespDatatype::NullArray, next)
                } else {
                    parse_array_items(buf, pos, next, n as u64)
                }
            },
        }
    } else {
        Frame::Malformed
    }
}

/// Reads the `n` items of an array whose header spans `pos..next`.
fn parse_array_items(buf: &[u8], pos: usize, next: usize, n: u64) -> (r: Frame)
    requires
        pos < next <= buf@.len(),
        n <= i64::MAX,
    ensures
        r@ == (match parse_items(buf@, next as int, n as int) {
            ParsedItems::Done(items, q) => Parsed::Done(RespValue::Array(items), q),
            ParsedItems::Partial => Parsed::Partial,
            ParsedItems::Malformed => Parsed::Malformed,
        }),
        r matches Frame::Complete(_, q) ==> pos < q <= buf@.len(),
    decreases buf@.len() - pos, 0int,
{
    let mut items: Vec<RespDatatype> = Vec::new();
    let mut p: usize = next;
    let mut i: u64 = 0;
    while i < n
        invariant
            pos < next <= p <= buf@.len(),
            i <= n,
            items@.len() == i,
            parse_items(buf@, next as int, n as int) == prepend(
                Seq::new(items@.len(), |j: int| items@[j]@),
                parse_items(buf@, p as int, n - i),
            ),
        decreases n - i,
    {
        let ghost before = Seq::new(items@.len(), |j: int| items@[j]@);
        match parse_value_at(buf, p) {
            Frame::Complete(v, q) => {
                let ghost vv = v@;
                let ghost p0 = p as int;
                items.push(v);
                p = q;
                proof {
                    let after = Seq::new(items@.len(), |j: int| items@[j]@);
                    assert(after =~= before + seq![vv]);
                    assert(parse_items(buf@, p0, n - i) == prepend(
                        seq![vv],
                        parse_items(buf@, q as int, n - i - 1),
                    ));
                    lemma_prepend_assoc(before, seq![vv], parse_items(buf@, q as int, n - i - 1));
                }
            },
            Frame::Incomplete => {
                return Frame::Incomplete;
            },
            Frame::Malformed => {
                return Frame::Malformed;
            },
        }
        i += 1;
    }
    let ghost all = Seq::new(items@.len(), |j: int| items@[j]@);
    assert(all + Seq::<RespValue>::empty() =~= all);
    let r = RespDatatype::Array(items);
    assert(r@ == RespValue::Array(all)) by {
        assert(all =~= r@->Array_0);
    }
    Frame::Complete(r, p)
}

} // verus!
