//! The codec's round trip: the serializer's output reads back as the value
//! serialized, and a value read from bytes serializes to bytes that read back
//! as the same value.
use vstd::prelude::*;
use vstd::utf8::*;
use crate::decimal::{
    all_digits, digits_value, fits_i64, int_decimal, lemma_int_decimal_round_trip,
    lemma_nat_decimal_digits, nat_decimal, parse_i64_spec,
};
use crate::parse::{
    find_crlf, lemma_find_crlf_bounds, parse_items, parse_value, Parsed, ParsedItems,
    MAX_BULK_LEN,
};
use crate::resp::{crlf, header, ser, ser_all, RespValue};

verus! {

/// No `\r\n` inside the bytes.
pub open spec fn no_crlf(b: Seq<u8>) -> bool {
    forall|i: int| 0 <= i < b.len() - 1 ==> !(#[trigger] b[i] == 13u8 && b[i + 1] == 10u8)
}

/// The values the framer can produce, which are the values the serializer
/// writes in a form that reads back.
pub open spec fn well_formed(v: RespValue) -> bool
    decreases v,
{
    match v {
        RespValue::SimpleString(s) => no_crlf(encode_utf8(s)),
        RespValue::SimpleError(s) => no_crlf(encode_utf8(s)),
        RespValue::Integer(i) => fits_i64(i),
        RespValue::BulkString(b) => b.len() <= MAX_BULK_LEN,
        RespValue::NullBulkString => true,
        RespValue::Array(a) => a.len() <= i64::MAX && forall|i: int|
            0 <= i < a.len() ==> well_formed(#[trigger] a[i]),
        RespValue::NullArray => true,
        RespValue::RdbFile(_) => false,
    }
}

proof fn lemma_find_crlf_is(s: Seq<u8>, from: int, e: int)
    requires
        0 <= from <= e,
        e + 1 < s.len(),
        s[e] == 13u8,
        s[e + 1] == 10u8,
        forall|i: int| from <= i < e ==> !(#[trigger] s[i] == 13u8 && s[i + 1] == 10u8),
    ensures
        find_crlf(s, from) == Some(e),
    decreases e - from,
{
    if from < e {
        lemma_find_crlf_is(s, from + 1, e);
    }
}

proof fn lemma_find_crlf_first(s: Seq<u8>, from: int)
    ensures
        find_crlf(s, from) matches Some(e) ==> forall|i: int|
            from <= i < e ==> !(#[trigger] s[i] == 13u8 && s[i + 1] == 10u8),
    decreases s.len() - from,
{
    if 0 <= from && from + 1 < s.len() && !(s[from] == 13u8 && s[from + 1] == 10u8) {
        lemma_find_crlf_first(s, from + 1);
    }
}

proof fn lemma_decimal_no_cr(n: nat)
    ensures
        forall|i: int| 0 <= i < nat_decimal(n).len() ==> #[trigger] nat_decimal(n)[i] != 13u8,
{
    lemma_nat_decimal_digits(n);
}

/// A line `<tag><body>\r\n` at `pos` whose body holds no `\r\n` ends just
/// after its body.
proof fn lemma_line_at(s: Seq<u8>, pos: int, body: Seq<u8>)
    requires
        0 <= pos,
        pos + body.len() + 3 <= s.len(),
        s[pos] != 13u8,
        forall|k: int| 0 <= k < body.len() ==> s[pos + 1 + k] == #[trigger] body[k],
        no_crlf(body),
        s[pos + 1 + body.len()] == 13u8,
        s[pos + 2 + body.len()] == 10u8,
    ensures
        find_crlf(s, pos) == Some(pos + 1 + body.len()),
        s.subrange(pos + 1, pos + 1 + body.len()) == body,
{
    let e = pos + 1 + body.len();
    assert forall|i: int| pos <= i < e implies !(#[trigger] s[i] == 13u8 && s[i + 1] == 10u8) by {
        if i > pos && i + 1 < e {
            assert(s[i] == body[i - pos - 1]);
            assert(s[i + 1] == body[i - pos]);
        } else if i > pos {
            assert(i + 1 == e);
        }
    }
    lemma_find_crlf_is(s, pos, e);
    assert(s.subrange(pos + 1, e) =~= body);
}

proof fn lemma_parse_minus_one()
    ensures
        parse_i64_spec(seq![45u8, 49u8]) == Some(-1i64),
{
    let s = seq![45u8, 49u8];
    let d = s.drop_first();
    assert(d =~= seq![49u8]);
    assert(d.drop_last() =~= Seq::<u8>::empty());
    assert(digits_value(Seq::<u8>::empty()) == 0);
    assert(d.last() == 49u8);
    assert(digits_value(d) == digits_value(d.drop_last()) * 10 + 1);
    assert(digits_value(d) == 1);
    assert(all_digits(d));
}

proof fn lemma_ser_all_front(a: Seq<RespValue>)
    requires
        a.len() > 0,
    ensures
        ser_all(a) == ser(a[0]) + ser_all(a.subrange(1, a.len() as int)),
    decreases a.len(),
{
    if a.len() == 1 {
        assert(a.subrange(0, 0) =~= Seq::<RespValue>::empty());
        assert(a.subrange(1, 1) =~= Seq::<RespValue>::empty());
        assert(ser(a[0]) + Seq::<u8>::empty() =~= ser(a[0]));
    } else {
        let init = a.subrange(0, a.len() - 1);
        lemma_ser_all_front(init);
        assert(init.subrange(1, init.len() as int) =~= a.subrange(1, a.len() as int).subrange(
            0,
            a.len() - 2,
        ));
        assert(a.subrange(1, a.len() as int)[a.len() - 2] == a[a.len() - 1]);
        assert(ser(a[0]) + ser_all(init.subrange(1, init.len() as int)) + ser(a[a.len() - 1])
            =~= ser(a[0]) + (ser_all(init.subrange(1, init.len() as int)) + ser(a[a.len() - 1])));
    }
}

proof fn lemma_ser_nonempty(v: RespValue)
    ensures
        ser(v).len() >= 1,
        ser(v)[0] != 13u8,
{
    match v {
        RespValue::Array(a) => {
            assert(ser(v)[0] == 42u8);
        },
        _ => {},
    }
}

/// The bytes of a well-formed value, wherever they stand, read back as it.
pub proof fn lemma_parse_ser(s: Seq<u8>, pos: int, v: RespValue)
    requires
        well_formed(v),
        0 <= pos,
        pos + ser(v).len() <= s.len(),
        s.subrange(pos, pos + ser(v).len()) == ser(v),
    ensures
        parse_value(s, pos) == Parsed::Done(v, pos + ser(v).len()),
    decreases v, 0int,
{
    let w = ser(v);
    assert forall|k: int| 0 <= k < w.len() implies s[pos + k] == #[trigger] w[k] by {
        assert(s.subrange(pos, pos + w.len())[k] == s[pos + k]);
    }
    match v {
        RespValue::SimpleString(t) => {
            let enc = encode_utf8(t);
            assert(w == seq![43u8] + enc + crlf());
            assert forall|k: int| 0 <= k < enc.len() implies s[pos + 1 + k] == #[trigger] enc[k] by {
                assert(w[1 + k] == enc[k]);
            }
            assert(w[0] == 43u8);
            assert(w[1 + enc.len() as int] == 13u8);
            assert(w[2 + enc.len() as int] == 10u8);
            lemma_line_at(s, pos, enc);
            encode_utf8_valid_utf8(t);
            encode_utf8_decode_utf8(t);
        },
        RespValue::SimpleError(t) => {
            let enc = encode_utf8(t);
            assert(w == seq![45u8] + enc + crlf());
            assert forall|k: int| 0 <= k < enc.len() implies s[pos + 1 + k] == #[trigger] enc[k] by {
                assert(w[1 + k] == enc[k]);
            }
            assert(w[0] == 45u8);
            assert(w[1 + enc.len() as int] == 13u8);
            assert(w[2 + enc.len() as int] == 10u8);
            lemma_line_at(s, pos, enc);
            encode_utf8_valid_utf8(t);
            encode_utf8_decode_utf8(t);
        },
        RespValue::Integer(i) => {
            let d = int_decimal(i);
            assert(w == seq![58u8] + d + crlf());
            assert forall|k: int| 0 <= k < d.len() implies s[pos + 1 + k] == #[trigger] d[k] by {
                assert(w[1 + k] == d[k]);
            }
            lemma_nat_decimal_digits(if i < 0 { (-i) as nat } else { i as nat });
            assert(no_crlf(d)) by {
                assert forall|k: int| 0 <= k < d.len() implies #[trigger] d[k] != 13u8 by {
                    if i < 0 {
                        if k > 0 {
                            assert(d[k] == nat_decimal((-i) as nat)[k - 1]);
                        }
                    }
                }
            }
            assert(w[0] == 58u8);
            assert(w[1 + d.len() as int] == 13u8);
            assert(w[2 + d.len() as int] == 10u8);
            lemma_line_at(s, pos, d);
            lemma_int_decimal_round_trip(i);
        },
        RespValue::BulkString(b) => {
            let d = nat_decimal(b.len());
            let h = header(36u8, b.len());
            assert(w == h + b + crlf());
            assert(h == seq![36u8] + d + crlf());
            assert forall|k: int| 0 <= k < d.len() implies s[pos + 1 + k] == #[trigger] d[k] by {
                assert(w[1 + k] == d[k]);
            }
            lemma_nat_decimal_digits(b.len());
            lemma_decimal_no_cr(b.len());
            assert(w[0] == 36u8);
            assert(w[1 + d.len() as int] == 13u8);
            assert(w[2 + d.len() as int] == 10u8);
            lemma_line_at(s, pos, d);
            lemma_int_decimal_round_trip(b.len() as int);
            let next = pos + 1 + d.len() + 2;
            assert(s.subrange(next, next + b.len()) =~= b) by {
                assert forall|k: int| 0 <= k < b.len() implies s.subrange(next, next + b.len())[k] == b[k] by {
                    assert(w[h.len() + k] == b[k]);
                }
            }
            assert(w[(h.len() + b.len()) as int] == 13u8);
            assert(w[(h.len() + b.len() + 1) as int] == 10u8);
        },
        RespValue::NullBulkString => {
            let body = seq![45u8, 49u8];
            assert forall|k: int| 0 <= k < body.len() implies s[pos + 1 + k] == #[trigger] body[k] by {
                assert(w[1 + k] == body[k]);
            }
            lemma_line_at(s, pos, body);
            lemma_parse_minus_one();
        },
        RespValue::NullArray => {
            let body = seq![45u8, 49u8];
            assert forall|k: int| 0 <= k < body.len() implies s[pos + 1 + k] == #[trigger] body[k] by {
                assert(w[1 + k] == body[k]);
            }
            lemma_line_at(s, pos, body);
            lemma_parse_minus_one();
        },
        RespValue::Array(a) => {
            let d = nat_decimal(a.len());
            let h = header(42u8, a.len());
            assert(w == h + ser_all(a));
            assert(h == seq![42u8] + d + crlf());
            assert forall|k: int| 0 <= k < d.len() implies s[pos + 1 + k] == #[trigger] d[k] by {
                assert(w[1 + k] == d[k]);
            }
            lemma_nat_decimal_digits(a.len());
            lemma_decimal_no_cr(a.len());
            assert(w[0] == 42u8);
            assert(w[1 + d.len() as int] == 13u8);
            assert(w[2 + d.len() as int] == 10u8);
            lemma_line_at(s, pos, d);
            lemma_int_decimal_round_trip(a.len() as int);
            let next = pos + h.len();
            assert(s.subrange(next, next + ser_all(a).len()) =~= ser_all(a)) by {
                assert forall|k: int| 0 <= k < ser_all(a).len() implies s.subrange(
                    next,
                    next + ser_all(a).len(),
                )[k] == ser_all(a)[k] by {
                    assert(w[h.len() + k] == ser_all(a)[k]);
                }
            }
            lemma_parse_ser_items(s, next, a);
        },
        RespValue::RdbFile(_) => {},
    }
}

/// The bytes of well-formed values one after the other read back as them.
pub proof fn lemma_parse_ser_items(s: Seq<u8>, pos: int, a: Seq<RespValue>)
    requires
        forall|i: int| 0 <= i < a.len() ==> well_formed(#[trigger] a[i]),
        0 <= pos,
        pos + ser_all(a).len() <= s.len(),
        s.subrange(pos, pos + ser_all(a).len()) == ser_all(a),
    ensures
        parse_items(s, pos, a.len() as int) == ParsedItems::Done(a, pos + ser_all(a).len()),
    decreases a, 1int,
{
    if a.len() == 0 {
        assert(Seq::<RespValue>::empty() =~= a);
    } else {
        let rest = a.subrange(1, a.len() as int);
        lemma_ser_all_front(a);
        let w0 = ser(a[0]);
        let q = pos + w0.len();
        assert(s.subrange(pos, q) =~= w0) by {
            assert forall|k: int| 0 <= k < w0.len() implies s.subrange(pos, q)[k] == w0[k] by {
                assert(s.subrange(pos, pos + ser_all(a).len())[k] == ser_all(a)[k]);
            }
        }
        lemma_parse_ser(s, pos, a[0]);
        lemma_ser_nonempty(a[0]);
        assert(s.subrange(q, q + ser_all(rest).len()) =~= ser_all(rest)) by {
            assert forall|k: int| 0 <= k < ser_all(rest).len() implies s.subrange(
                q,
                q + ser_all(rest).len(),
            )[k] == ser_all(rest)[k] by {
                assert(s.subrange(pos, pos + ser_all(a).len())[w0.len() + k] == ser_all(a)[w0.len()
                    + k]);
            }
        }
        assert forall|i: int| 0 <= i < rest.len() implies well_formed(#[trigger] rest[i]) by {
            assert(rest[i] == a[i + 1]);
        }
        lemma_parse_ser_items(s, q, rest);
        assert(seq![a[0]] + rest =~= a);
    }
}

/// A value read from bytes is well formed.
pub proof fn lemma_parsed_well_formed(s: Seq<u8>, pos: int)
    ensures
        parse_value(s, pos) matches Parsed::Done(v, _) ==> well_formed(v),
    decreases s.len() - pos, 0int, 0int,
{
    lemma_find_crlf_bounds(s, pos);
    lemma_find_crlf_first(s, pos);
    if let Some(e) = find_crlf(s, pos) {
        if e != pos {
            let tag = s[pos];
            let body = s.subrange(pos + 1, e);
            assert(no_crlf(body)) by {
                assert forall|i: int| 0 <= i < body.len() - 1 implies !(#[trigger] body[i] == 13u8
                    && body[i + 1] == 10u8) by {
                    assert(body[i] == s[pos + 1 + i]);
                    assert(body[i + 1] == s[pos + 1 + i + 1]);
                }
            }
            if (tag == 43u8 || tag == 45u8) && valid_utf8(body) {
                decode_utf8_encode_utf8(body);
            }
            if tag == 42u8 {
                if let Some(n) = parse_i64_spec(body) {
                    if n >= 0 {
                        lemma_parsed_items_well_formed(s, e + 2, n as int);
                    }
                }
            }
        }
    }
}

/// Values read one after the other are well formed, and as many as asked.
pub proof fn lemma_parsed_items_well_formed(s: Seq<u8>, pos: int, k: int)
    ensures
        parse_items(s, pos, k) matches ParsedItems::Done(vs, _) ==> vs.len() == (if k < 0 {
            0
        } else {
            k
        }) && forall|i: int| 0 <= i < vs.len() ==> well_formed(#[trigger] vs[i]),
    decreases s.len() - pos, 1int, k,
{
    if k > 0 {
        lemma_parsed_well_formed(s, pos);
        if let Parsed::Done(v, q) = parse_value(s, pos) {
            if pos < q <= s.len() {
                lemma_parsed_items_well_formed(s, q, k - 1);
                if let ParsedItems::Done(ws, r) = parse_items(s, q, k - 1) {
                    let vs = seq![v] + ws;
                    assert forall|i: int| 0 <= i < vs.len() implies well_formed(#[trigger] vs[i]) by {
                        if i > 0 {
                            assert(vs[i] == ws[i - 1]);
                        }
                    }
                }
            }
        }
    }
}

proof fn lemma_no_crlf_from(s: Seq<u8>, from: int)
    requires
        forall|i: int| from <= i && i + 1 < s.len() ==> !(#[trigger] s[i] == 13u8 && s[i + 1] == 10u8),
    ensures
        find_crlf(s, from) is None,
    decreases s.len() - from,
{
    if 0 <= from && from + 1 < s.len() {
        lemma_no_crlf_from(s, from + 1);
    }
}

/// A line `<tag><body>\r\n` at `pos` cut off before its `\n` holds no line end.
proof fn lemma_line_cut(s: Seq<u8>, pos: int, body: Seq<u8>)
    requires
        0 <= pos <= s.len(),
        s.len() < pos + body.len() + 3,
        pos < s.len() ==> s[pos] != 13u8,
        forall|k: int| 0 <= k < body.len() && pos + 1 + k < s.len() ==> s[pos + 1 + k] == #[trigger] body[k],
        no_crlf(body),
        pos + 1 + body.len() < s.len() ==> s[pos + 1 + body.len()] == 13u8,
    ensures
        find_crlf(s, pos) is None,
{
    assert forall|i: int| pos <= i && i + 1 < s.len() implies !(#[trigger] s[i] == 13u8 && s[i + 1] == 10u8) by {
        if i > pos && i + 1 < pos + 1 + body.len() {
            assert(s[i] == body[i - pos - 1]);
            assert(s[i + 1] == body[i - pos]);
        }
    }
    lemma_no_crlf_from(s, pos);
}

/// Bytes that stop inside the encoding of a well-formed value, wherever they
/// stand, read as a value that needs more bytes.
pub proof fn lemma_parse_cut(s: Seq<u8>, pos: int, v: RespValue)
    requires
        well_formed(v),
        0 <= pos <= s.len(),
        s.len() < pos + ser(v).len(),
        forall|k: int| pos <= k < s.len() ==> s[k] == #[trigger] ser(v)[k - pos],
    ensures
        parse_value(s, pos) == Parsed::Partial,
    decreases v, 0int,
{
    let w = ser(v);
    assert forall|k: int| 0 <= k < w.len() && pos + k < s.len() implies s[pos + k] == #[trigger] w[k] by {
        assert(s[pos + k] == w[pos + k - pos]);
    }
    match v {
        RespValue::SimpleString(t) => {
            let enc = encode_utf8(t);
            assert(w == seq![43u8] + enc + crlf());
            assert forall|k: int| 0 <= k < enc.len() && pos + 1 + k < s.len() implies s[pos + 1 + k] == #[trigger] enc[k] by {
                assert(w[1 + k] == enc[k]);
            }
            assert(w[0] == 43u8);
            assert(w[1 + enc.len() as int] == 13u8);
            lemma_line_cut(s, pos, enc);
        },
        RespValue::SimpleError(t) => {
            let enc = encode_utf8(t);
            assert(w == seq![45u8] + enc + crlf());
            assert forall|k: int| 0 <= k < enc.len() && pos + 1 + k < s.len() implies s[pos + 1 + k] == #[trigger] enc[k] by {
                assert(w[1 + k] == enc[k]);
            }
            assert(w[0] == 45u8);
            assert(w[1 + enc.len() as int] == 13u8);
            lemma_line_cut(s, pos, enc);
        },
        RespValue::Integer(i) => {
            let d = int_decimal(i);
            assert(w == seq![58u8] + d + crlf());
            assert forall|k: int| 0 <= k < d.len() && pos + 1 + k < s.len() implies s[pos + 1 + k] == #[trigger] d[k] by {
                assert(w[1 + k] == d[k]);
            }
            lemma_nat_decimal_digits(if i < 0 { (-i) as nat } else { i as nat });
            assert(no_crlf(d)) by {
                assert forall|k: int| 0 <= k < d.len() implies #[trigger] d[k] != 13u8 by {
                    if i < 0 {
                        if k > 0 {
                            assert(d[k] == nat_decimal((-i) as nat)[k - 1]);
                        }
                    }
                }
            }
            assert(w[0] == 58u8);
            assert(w[1 + d.len() as int] == 13u8);
            lemma_line_cut(s, pos, d);
        },
        RespValue::NullBulkString => {
            let body = seq![45u8, 49u8];
            assert forall|k: int| 0 <= k < body.len() && pos + 1 + k < s.len() implies s[pos + 1 + k] == #[trigger] body[k] by {
                assert(w[1 + k] == body[k]);
            }
            lemma_line_cut(s, pos, body);
        },
        RespValue::NullArray => {
            let body = seq![45u8, 49u8];
            assert forall|k: int| 0 <= k < body.len() && pos + 1 + k < s.len() implies s[pos + 1 + k] == #[trigger] body[k] by {
                assert(w[1 + k] == body[k]);
            }
            lemma_line_cut(s, pos, body);
        },
        RespValue::BulkString(b) => {
            let d = nat_decimal(b.len());
            let h = header(36u8, b.len());
            assert(w == h + b + crlf());
            assert(h == seq![36u8] + d + crlf());
            lemma_nat_decimal_digits(b.len());
            lemma_decimal_no_cr(b.len());
            assert(w[0] == 36u8);
            assert(w[1 + d.len() as int] == 13u8);
            assert(w[2 + d.len() as int] == 10u8);
            if s.len() < pos + d.len() + 3 {
                assert forall|k: int| 0 <= k < d.len() && pos + 1 + k < s.len() implies s[pos + 1 + k] == #[trigger] d[k] by {
                    assert(w[1 + k] == d[k]);
                }
                lemma_line_cut(s, pos, d);
            } else {
                assert forall|k: int| 0 <= k < d.len() implies s[pos + 1 + k] == #[trigger] d[k] by {
                    assert(w[1 + k] == d[k]);
                }
                lemma_line_at(s, pos, d);
                lemma_int_decimal_round_trip(b.len() as int);
            }
        },
        RespValue::Array(a) => {
            let d = nat_decimal(a.len());
            let h = header(42u8, a.len());
            assert(w == h + ser_all(a));
            assert(h == seq![42u8] + d + crlf());
            lemma_nat_decimal_digits(a.len());
            lemma_decimal_no_cr(a.len());
            assert(w[0] == 42u8);
            assert(w[1 + d.len() as int] == 13u8);
            assert(w[2 + d.len() as int] == 10u8);
            if s.len() < pos + d.len() + 3 {
                assert forall|k: int| 0 <= k < d.len() && pos + 1 + k < s.len() implies s[pos + 1 + k] == #[trigger] d[k] by {
                    assert(w[1 + k] == d[k]);
                }
                lemma_line_cut(s, pos, d);
            } else {
                assert forall|k: int| 0 <= k < d.len() implies s[pos + 1 + k] == #[trigger] d[k] by {
                    assert(w[1 + k] == d[k]);
                }
                lemma_line_at(s, pos, d);
                lemma_int_decimal_round_trip(a.len() as int);
                let next = pos + h.len();
                assert forall|k: int| next <= k < s.len() implies s[k] == #[trigger] ser_all(a)[k - next] by {
                    assert(s[k] == w[k - pos]);
                    assert(w[k - pos] == ser_all(a)[k - pos - h.len()]);
                }
                lemma_parse_cut_items(s, next, a);
            }
        },
        RespValue::RdbFile(_) => {},
    }
}

/// Bytes that stop inside the encodings of well-formed values read as items
/// that need more bytes.
pub proof fn lemma_parse_cut_items(s: Seq<u8>, pos: int, a: Seq<RespValue>)
    requires
        forall|i: int| 0 <= i < a.len() ==> well_formed(#[trigger] a[i]),
        0 <= pos <= s.len(),
        s.len() < pos + ser_all(a).len(),
        forall|k: int| pos <= k < s.len() ==> s[k] == #[trigger] ser_all(a)[k - pos],
    ensures
        parse_items(s, pos, a.len() as int) == ParsedItems::Partial,
    decreases a, 1int,
{
    if a.len() == 0 {
        assert(ser_all(a).len() == 0);
    } else {
        let rest = a.subrange(1, a.len() as int);
        lemma_ser_all_front(a);
        let w0 = ser(a[0]);
        let q = pos + w0.len();
        if s.len() < q {
            assert forall|k: int| pos <= k < s.len() implies s[k] == #[trigger] w0[k - pos] by {
                assert(s[k] == ser_all(a)[k - pos]);
            }
            lemma_parse_cut(s, pos, a[0]);
        } else {
            assert(s.subrange(pos, q) =~= w0) by {
                assert forall|k: int| 0 <= k < w0.len() implies s.subrange(pos, q)[k] == w0[k] by {
                    assert(s[pos + k] == ser_all(a)[pos + k - pos]);
                }
            }
            lemma_parse_ser(s, pos, a[0]);
            lemma_ser_nonempty(a[0]);
            assert forall|k: int| q <= k < s.len() implies s[k] == #[trigger] ser_all(rest)[k - q] by {
                assert(s[k] == ser_all(a)[k - pos]);
            }
            assert forall|i: int| 0 <= i < rest.len() implies well_formed(#[trigger] rest[i]) by {
                assert(rest[i] == a[i + 1]);
            }
            lemma_parse_cut_items(s, q, rest);
        }
    }
}

/// Bytes that stop before the end of a well-formed value's encoding hold no
/// whole value: the framer asks for more, and a stream that ends there ends
/// inside a value.
pub proof fn lemma_truncated_value_is_partial(v: RespValue, n: int)
    requires
        well_formed(v),
        0 <= n < ser(v).len(),
    ensures
        parse_value(ser(v).subrange(0, n), 0) == Parsed::Partial,
{
    let s = ser(v).subrange(0, n);
    lemma_parse_cut(s, 0, v);
}

/// Serializing a well-formed value and reading the bytes back gives the
/// value, and takes exactly those bytes.
pub proof fn lemma_deserialize_serialize(v: RespValue)
    requires
        well_formed(v),
    ensures
        parse_value(ser(v), 0) == Parsed::Done(v, ser(v).len() as int),
{
    assert(ser(v).subrange(0, ser(v).len() as int) =~= ser(v));
    lemma_parse_ser(ser(v), 0, v);
}

/// A value read from the front of some bytes serializes to bytes that read
/// back as that same value.
pub proof fn lemma_serialize_deserialize(s: Seq<u8>)
    requires
        parse_value(s, 0) is Done,
    ensures
        parse_value(s, 0) matches Parsed::Done(v, _) && parse_value(ser(v), 0) == Parsed::Done(
            v,
            ser(v).len() as int,
        ),
{
    lemma_parsed_well_formed(s, 0);
    if let Parsed::Done(v, _) = parse_value(s, 0) {
        lemma_deserialize_serialize(v);
    }
}

} // verus!
