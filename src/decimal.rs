//! ASCII decimal numbers as they appear on the wire: lengths, integers,
//! offsets and ports.
use vstd::prelude::*;

verus! {

pub open spec fn is_digit(b: u8) -> bool {
    48 <= b && b <= 57
}

pub open spec fn all_digits(s: Seq<u8>) -> bool {
    forall|i: int| 0 <= i < s.len() ==> is_digit(#[trigger] s[i])
}

/// The value of a run of decimal digits, most significant first.
pub open spec fn digits_value(s: Seq<u8>) -> nat
    decreases s.len(),
{
    if s.len() == 0 {
        0
    } else {
        digits_value(s.drop_last()) * 10 + (s.last() as int - 48) as nat
    }
}

/// An integer written as an optional sign followed by at least one digit.
pub open spec fn parse_int_spec(s: Seq<u8>) -> Option<int> {
    if s.len() >= 2 && (s[0] == 45u8 || s[0] == 43u8) && all_digits(s.drop_first()) {
        if s[0] == 45u8 {
            Some(-(digits_value(s.drop_first()) as int))
        } else {
            Some(digits_value(s.drop_first()) as int)
        }
    } else if s.len() >= 1 && all_digits(s) {
        Some(digits_value(s) as int)
    } else {
        None
    }
}

/// A natural number written as an optional `+` followed by at least one digit.
pub open spec fn parse_nat_spec(s: Seq<u8>) -> Option<nat> {
    if s.len() >= 2 && s[0] == 43u8 && all_digits(s.drop_first()) {
        Some(digits_value(s.drop_first()))
    } else if s.len() >= 1 && all_digits(s) {
        Some(digits_value(s))
    } else {
        None
    }
}

/// The natural number that `s` denotes, when it fits in 64 unsigned bits.
pub open spec fn parse_u64_spec(s: Seq<u8>) -> Option<u64> {
    match parse_nat_spec(s) {
        Some(v) => if v <= u64::MAX {
            Some(v as u64)
        } else {
            None
        },
        None => None,
    }
}

pub open spec fn fits_i64(v: int) -> bool {
    i64::MIN <= v <= i64::MAX
}

/// The integer that `s` denotes, when it denotes one that fits in 64 signed bits.
pub open spec fn parse_i64_spec(s: Seq<u8>) -> Option<i64> {
    match parse_int_spec(s) {
        Some(v) => if fits_i64(v) {
            Some(v as i64)
        } else {
            None
        },
        None => None,
    }
}

/// The shortest decimal writing of a natural number.
pub open spec fn nat_decimal(n: nat) -> Seq<u8>
    decreases n,
{
    if n < 10 {
        seq![(n + 48) as u8]
    } else {
        nat_decimal(n / 10).push((n % 10 + 48) as u8)
    }
}

/// The decimal writing of an integer, with a leading `-` when negative.
pub open spec fn int_decimal(i: int) -> Seq<u8> {
    if i < 0 {
        seq![45u8] + nat_decimal((-i) as nat)
    } else {
        nat_decimal(i as nat)
    }
}

pub proof fn lemma_digits_value_prefix_monotone(s: Seq<u8>, j: int, k: int)
    requires
        0 <= j <= k <= s.len(),
    ensures
        digits_value(s.subrange(0, j)) <= digits_value(s.subrange(0, k)),
    decreases k - j,
{
    if j < k {
        lemma_digits_value_prefix_monotone(s, j, k - 1);
        assert(s.subrange(0, k).drop_last() =~= s.subrange(0, k - 1));
    }
}

pub proof fn lemma_nat_decimal_digits(n: nat)
    ensures
        nat_decimal(n).len() >= 1,
        all_digits(nat_decimal(n)),
        digits_value(nat_decimal(n)) == n,
        nat_decimal(n)[0] != 45u8,
        nat_decimal(n)[0] != 43u8,
    decreases n,
{
    if n >= 10 {
        lemma_nat_decimal_digits(n / 10);
        let d = nat_decimal(n / 10);
        assert(nat_decimal(n).drop_last() =~= d);
        assert(nat_decimal(n)[0] == d[0]);
        assert(nat_decimal(n).last() as int == n % 10 + 48);
        assert(n == (n / 10) * 10 + n % 10) by (nonlinear_arith);
        assert(digits_value(nat_decimal(n)) == digits_value(d) * 10 + n % 10);
    } else {
        assert(nat_decimal(n).drop_last() =~= Seq::<u8>::empty());
        assert(nat_decimal(n).last() as int == n + 48);
        assert(digits_value(nat_decimal(n)) == digits_value(Seq::<u8>::empty()) * 10 + n);
    }
}

/// Reading back the decimal writing of an integer gives the integer.
pub proof fn lemma_int_decimal_round_trip(i: int)
    ensures
        parse_int_spec(int_decimal(i)) == Some(i),
{
    if i < 0 {
        let m = (-i) as nat;
        lemma_nat_decimal_digits(m);
        assert((seq![45u8] + nat_decimal(m)).drop_first() =~= nat_decimal(m));
    } else {
        lemma_nat_decimal_digits(i as nat);
    }
}

/// Appends the decimal writing of `n`.
pub fn push_decimal(out: &mut Vec<u8>, n: u64)
    ensures
        final(out)@ == old(out)@ + nat_decimal(n as nat),
    decreases n,
{
    if n >= 10 {
        push_decimal(out, n / 10);
    }
    out.push((n % 10) as u8 + 48);
    proof {
        if n >= 10 {
            assert(nat_decimal(n as nat) == nat_decimal((n / 10) as nat).push((n % 10 + 48) as u8));
        }
        assert(final(out)@ =~= old(out)@ + nat_decimal(n as nat));
    }
}

/// Appends the decimal writing of `i`, signed.
pub fn push_signed_decimal(out: &mut Vec<u8>, i: i64)
    ensures
        final(out)@ == old(out)@ + int_decimal(i as int),
{
    if i < 0 {
        out.push(45u8);
        let m: u64 = (0i128 - i as i128) as u64;
        push_decimal(out, m);
        assert(final(out)@ =~= old(out)@ + int_decimal(i as int));
    } else {
        push_decimal(out, i as u64);
    }
}

/// The decimal writing of `n` as a new buffer.
pub fn decimal_bytes(n: u64) -> (r: Vec<u8>)
    ensures
        r@ == nat_decimal(n as nat),
{
    let mut r: Vec<u8> = Vec::new();
    push_decimal(&mut r, n);
    assert(r@ =~= nat_decimal(n as nat));
    r
}

/// The value of the digits `s[start..end]`, when all are digits and the value
/// fits in 64 unsigned bits.
fn digits_to_u64(s: &[u8], start: usize, end: usize) -> (r: Option<u64>)
    requires
        start <= end <= s@.len(),
    ensures
        r is Some <==> (all_digits(s@.subrange(start as int, end as int)) && digits_value(
            s@.subrange(start as int, end as int),
        ) <= u64::MAX),
        r is Some ==> r.unwrap() == digits_value(s@.subrange(start as int, end as int)),
{
    let ghost sub = s@.subrange(start as int, end as int);
    let mut acc: u64 = 0;
    let mut i: usize = start;
    while i < end
        invariant
            start <= i <= end <= s@.len(),
            sub == s@.subrange(start as int, end as int),
            all_digits(sub.subrange(0, i - start)),
            acc == digits_value(sub.subrange(0, i - start)),
        decreases end - i,
    {
        let b = s[i];
        if b < 48 || b > 57 {
            assert(!is_digit(sub[i - start]));
            return None;
        }
        assert(sub.subrange(0, i + 1 - start).drop_last() =~= sub.subrange(0, i - start));
        let d: u64 = (b - 48) as u64;
        match acc.checked_mul(10) {
            Some(t) => match t.checked_add(d) {
                Some(v) => {
                    acc = v;
                },
                None => {
                    proof {
                        lemma_digits_value_prefix_monotone(sub, i + 1 - start, sub.len() as int);
                        assert(sub.subrange(0, sub.len() as int) =~= sub);
                    }
                    return None;
                },
            },
            None => {
                proof {
                    lemma_digits_value_prefix_monotone(sub, i + 1 - start, sub.len() as int);
                    assert(sub.subrange(0, sub.len() as int) =~= sub);
                }
                return None;
            },
        }
        i += 1;
    }
    assert(sub.subrange(0, end - start) =~= sub);
    Some(acc)
}

/// Parses `s[start..end]` as a decimal natural number, with an optional `+`,
/// that fits in 64 unsigned bits.
pub fn parse_u64_range(s: &[u8], start: usize, end: usize) -> (r: Option<u64>)
    requires
        start <= end <= s@.len(),
    ensures
        r == parse_u64_spec(s@.subrange(start as int, end as int)),
{
    let ghost sub = s@.subrange(start as int, end as int);
    if start < end && s[start] == 43u8 {
        assert(sub.drop_first() =~= s@.subrange(start + 1, end as int));
        assert(!is_digit(sub[0]));
        if start + 1 == end {
            return None;
        }
        digits_to_u64(s, start + 1, end)
    } else if start < end {
        digits_to_u64(s, start, end)
    } else {
        None
    }
}

/// Parses `s[start..end]` as an optionally signed decimal integer that fits in
/// 64 signed bits.
pub fn parse_i64_range(s: &[u8], start: usize, end: usize) -> (r: Option<i64>)
    requires
        start <= end <= s@.len(),
    ensures
        r == parse_i64_spec(s@.subrange(start as int, end as int)),
{
    let ghost sub = s@.subrange(start as int, end as int);
    if start < end && (s[start] == 45u8 || s[start] == 43u8) {
        assert(sub.drop_first() =~= s@.subrange(start + 1, end as int));
        if start + 1 == end {
            assert(!all_digits(sub));
            return None;
        }
        assert(!is_digit(sub[0]));
        match digits_to_u64(s, start + 1, end) {
            Some(m) => {
                if s[start] == 45u8 {
                    if m <= 9223372036854775808u64 {
                        Some((0i128 - m as i128) as i64)
                    } else {
                        None
                    }
                } else {
                    if m <= 9223372036854775807u64 {
                        Some(m as i64)
                    } else {
                        None
                    }
                }
            },
            None => None,
        }
    } else {
        match digits_to_u64(s, start, end) {
            Some(m) => {
                if start < end && m <= 9223372036854775807u64 {
                    Some(m as i64)
                } else {
                    None
                }
            },
            None => None,
        }
    }
}

} // verus!
