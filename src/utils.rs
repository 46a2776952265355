//! Small helpers: replication IDs, printable bytes, numbers in byte strings.
use vstd::prelude::*;
use vstd::utf8::*;
use rand::seq::SliceRandom;
use crate::decimal::{parse_i64_range, parse_i64_spec};
use crate::dispatch_model::{is_lower_hex, valid_replid};
use crate::resp::append_bytes;

verus! {

/// Relies on rand's `SliceRandom::choose` with the thread-local generator: it
/// gives nothing for an empty slice and otherwise one of its elements.
#[verifier::external_body]
fn choose_byte(items: &[u8]) -> (r: Option<u8>)
    ensures
        r is None <==> items@.len() == 0,
        r matches Some(b) ==> items@.contains(b),
{
    items.choose(&mut rand::thread_rng()).copied()
}

/// A fresh replication ID: 40 lowercase hexadecimal digits, drawn at random.
pub fn generate_master_replid() -> (r: Vec<u8>)
    ensures
        valid_replid(r@),
{
    let hex_digits: [u8; 16] = [48u8, 49, 50, 51, 52, 53, 54, 55, 56, 57, 97, 98, 99, 100, 101, 102];
    let digits: &[u8] = &hex_digits;
    assert(forall|i: int| 0 <= i < 16 ==> is_lower_hex(#[trigger] digits@[i]));
    let mut master_replid: Vec<u8> = Vec::new();
    let mut n: usize = 0;
    while n < 40
        invariant
            n <= 40,
            master_replid@.len() == n,
            digits@.len() == 16,
            forall|i: int| 0 <= i < 16 ==> is_lower_hex(#[trigger] digits@[i]),
            forall|i: int| 0 <= i < n ==> is_lower_hex(#[trigger] master_replid@[i]),
        decreases 40 - n,
    {
        let b = match choose_byte(digits) {
            Some(b) => b,
            None => vstd::pervasive::unreached(),
        };
        master_replid.push(b);
        n += 1;
    }
    master_replid
}

/// True when `master_replid` is a replication ID: 40 lowercase hexadecimal
/// digits.
pub fn is_valid_master_replid(master_replid: &[u8]) -> (r: bool)
    ensures
        r == valid_replid(master_replid@),
{
    if master_replid.len() != 40 {
        return false;
    }
    let mut i: usize = 0;
    while i < master_replid.len()
        invariant
            i <= master_replid@.len(),
            forall|j: int| 0 <= j < i ==> is_lower_hex(#[trigger] master_replid@[j]),
        decreases master_replid@.len() - i,
    {
        let b = master_replid[i];
        if b < 48 || (b > 57 && b < 97) || b > 102 {
            return false;
        }
        i += 1;
    }
    true
}

pub open spec fn hex_digit(n: int) -> u8 {
    if n < 10 {
        (48 + n) as u8
    } else {
        (87 + n) as u8
    }
}

/// How one byte is shown: the usual backslash escapes, printable ASCII as
/// itself, anything else as `\xHH`.
pub open spec fn escape(b: u8) -> Seq<u8> {
    if b == 9 {
        seq![92u8, 116]
    } else if b == 13 {
        seq![92u8, 114]
    } else if b == 10 {
        seq![92u8, 110]
    } else if b == 39 {
        seq![92u8, 39]
    } else if b == 34 {
        seq![92u8, 34]
    } else if b == 92 {
        seq![92u8, 92]
    } else if 32 <= b && b <= 126 {
        seq![b]
    } else {
        seq![92u8, 120, hex_digit(b as int / 16), hex_digit(b as int % 16)]
    }
}

pub open spec fn escaped(bs: Seq<u8>) -> Seq<u8>
    decreases bs.len(),
{
    if bs.len() == 0 {
        Seq::empty()
    } else {
        escaped(bs.drop_last()) + escape(bs.last())
    }
}

pub open spec fn ascii_chars(s: Seq<u8>) -> Seq<char> {
    Seq::new(s.len(), |i: int| s[i] as char)
}

fn push_escaped(out: &mut Vec<u8>, b: u8)
    ensures
        final(out)@ == old(out)@ + escape(b),
{
    if b == 9 {
        append_bytes(out, &[92u8, 116]);
    } else if b == 13 {
        append_bytes(out, &[92u8, 114]);
    } else if b == 10 {
        append_bytes(out, &[92u8, 110]);
    } else if b == 39 {
        append_bytes(out, &[92u8, 39]);
    } else if b == 34 {
        append_bytes(out, &[92u8, 34]);
    } else if b == 92 {
        append_bytes(out, &[92u8, 92]);
    } else if 32 <= b && b <= 126 {
        out.push(b);
    } else {
        let hi = b / 16;
        let lo = b % 16;
        out.push(92u8);
        out.push(120u8);
        out.push(if hi < 10 { 48 + hi } else { 87 + hi });
        out.push(if lo < 10 { 48 + lo } else { 87 + lo });
    }
    assert(final(out)@ =~= old(out)@ + escape(b));
}

/// A printable rendering of bytes.
pub fn show(bs: &[u8]) -> (r: String)
    ensures
        r@ == ascii_chars(escaped(bs@)),
{
    let mut visible: Vec<u8> = Vec::new();
    let mut i: usize = 0;
    while i < bs.len()
        invariant
            i <= bs@.len(),
            visible@ == escaped(bs@.subrange(0, i as int)),
            forall|j: int| 0 <= j < visible@.len() ==> #[trigger] visible@[j] < 128,
        decreases bs@.len() - i,
    {
        let ghost before = visible@;
        push_escaped(&mut visible, bs[i]);
        proof {
            assert(bs@.subrange(0, i + 1).drop_last() =~= bs@.subrange(0, i as int));
            let e = escape(bs@[i as int]);
            assert forall|j: int| 0 <= j < visible@.len() implies #[trigger] visible@[j] < 128 by {
                if j >= before.len() {
                    assert(visible@[j] == e[j - before.len()]);
                }
            }
        }
        i += 1;
    }
    assert(bs@.subrange(0, bs@.len() as int) =~= bs@);
    let ghost chars = ascii_chars(visible@);
    proof {
        assert(is_ascii_chars(chars));
        is_ascii_chars_encode_utf8(chars);
        assert(encode_utf8(chars) =~= visible@);
        encode_utf8_valid_utf8(chars);
        encode_utf8_decode_utf8(chars);
    }
    match crate::parse::string_from_utf8(visible) {
        Some(s) => s,
        None => vstd::pervasive::unreached(),
    }
}

/// The integer that bytes spell out: an optional sign and decimal digits,
/// within 64 signed bits.
pub fn parse_vec_u8(vec_u8: Vec<u8>) -> (r: Option<i64>)
    ensures
        r == parse_i64_spec(vec_u8@),
{
    let r = parse_i64_range(vec_u8.as_slice(), 0, vec_u8.len());
    assert(vec_u8@.subrange(0, vec_u8@.len() as int) =~= vec_u8@);
    r
}

} // verus!
