//! Decimal text of integers: formatting, and parsing with the rules of
//! `from_str_radix(_, 10)` for `usize` and `i32`.
use vstd::prelude::*;

verus! {

/// `b` is an ASCII decimal digit.
pub open spec fn is_digit(b: u8) -> bool {
    48 <= b && b <= 57
}

/// Every byte of `s` is an ASCII decimal digit.
pub open spec fn all_digits(s: Seq<u8>) -> bool {
    forall|i: int| 0 <= i < s.len() ==> is_digit(#[trigger] s[i])
}

/// The number written by the digit string `s` (most significant first).
pub open spec fn digits_value(s: Seq<u8>) -> nat
    decreases s.len(),
{
    if s.len() == 0 {
        0
    } else {
        digits_value(s.drop_last()) * 10 + (s.last() - 48) as nat
    }
}

/// The shortest decimal text of `n`, as ASCII bytes.
pub open spec fn decimal_bytes(n: nat) -> Seq<u8>
    decreases n,
{
    if n < 10 {
        seq![(n + 48) as u8]
    } else {
        decimal_bytes(n / 10).push((n % 10 + 48) as u8)
    }
}

/// The decimal text of a signed integer: a `-` before the digits of its magnitude.
pub open spec fn decimal_int(x: int) -> Seq<u8> {
    if x < 0 {
        seq![45u8] + decimal_bytes((-x) as nat)
    } else {
        decimal_bytes(x as nat)
    }
}

/// What `usize::from_str_radix(s, 10)` accepts: an optional `+`, then at
/// least one digit, with a value that fits in `usize`.
pub open spec fn spec_parse_usize(s: Seq<u8>) -> Option<usize> {
    let d = if s.len() > 0 && s[0] == 43u8 { s.drop_first() } else { s };
    if d.len() > 0 && all_digits(d) && digits_value(d) <= usize::MAX {
        Some(digits_value(d) as usize)
    } else {
        None
    }
}

/// What `i32::from_str_radix(s, 10)` accepts: an optional `+` or `-`, then
/// at least one digit, with a value in the range of `i32`.
pub open spec fn spec_parse_i32(s: Seq<u8>) -> Option<i32> {
    if s.len() > 0 && s[0] == 45u8 {
        let d = s.drop_first();
        if d.len() > 0 && all_digits(d) && digits_value(d) <= 0x8000_0000 {
            Some((-digits_value(d)) as i32)
        } else {
            None
        }
    } else {
        let d = if s.len() > 0 && s[0] == 43u8 { s.drop_first() } else { s };
        if d.len() > 0 && all_digits(d) && digits_value(d) <= 0x7fff_ffff {
            Some(digits_value(d) as i32)
        } else {
            None
        }
    }
}

/// The value of a digit string is at least the value of each of its prefixes.
pub proof fn lemma_digits_value_prefix(s: Seq<u8>, k: int)
    requires
        0 <= k <= s.len(),
        all_digits(s),
    ensures
        digits_value(s.take(k)) <= digits_value(s),
    decreases s.len(),
{
    if k < s.len() {
        assert(s.drop_last().take(k) =~= s.take(k));
        lemma_digits_value_prefix(s.drop_last(), k);
    } else {
        assert(s.take(k) =~= s);
    }
}

/// The decimal text of `n` is a non-empty digit string whose value is `n`.
pub proof fn lemma_decimal_bytes(n: nat)
    ensures
        decimal_bytes(n).len() >= 1,
        all_digits(decimal_bytes(n)),
        digits_value(decimal_bytes(n)) == n,
        n < 10 <==> decimal_bytes(n).len() == 1,
        10 <= n < 100 ==> decimal_bytes(n).len() == 2,
    decreases n,
{
    if n < 10 {
        assert(decimal_bytes(n).drop_last() =~= Seq::<u8>::empty());
        assert(decimal_bytes(n).last() == (n + 48) as u8);
        assert(digits_value(Seq::<u8>::empty()) == 0);
    } else {
        lemma_decimal_bytes(n / 10);
        assert(decimal_bytes(n).drop_last() =~= decimal_bytes(n / 10));
        assert(n == (n / 10) * 10 + n % 10) by (nonlinear_arith);
        assert(decimal_bytes(n).last() == (n % 10 + 48) as u8);
    }
}

/// Parsing the decimal text of a `usize` gives the number back.
pub proof fn lemma_parse_decimal_usize(n: usize)
    ensures
        spec_parse_usize(decimal_bytes(n as nat)) == Some(n),
{
    lemma_decimal_bytes(n as nat);
    let s = decimal_bytes(n as nat);
    assert(is_digit(s[0]));
}

/// Parsing the decimal text of an `i32` gives the number back.
pub proof fn lemma_parse_decimal_i32(x: i32)
    ensures
        spec_parse_i32(decimal_int(x as int)) == Some(x),
{
    if x < 0 {
        let m = (-x) as nat;
        lemma_decimal_bytes(m);
        let s = decimal_int(x as int);
        assert(s.drop_first() =~= decimal_bytes(m));
    } else {
        lemma_decimal_bytes(x as nat);
        let s = decimal_bytes(x as nat);
        assert(is_digit(s[0]));
    }
}

/// Ten to the power `k`.
pub open spec fn pow10(k: nat) -> nat
    decreases k,
{
    if k == 0 {
        1
    } else {
        10 * pow10((k - 1) as nat)
    }
}

/// A number below `10^k` has at most `k` digits.
pub proof fn lemma_decimal_len(n: nat, k: nat)
    requires
        k >= 1,
        n < pow10(k),
    ensures
        decimal_bytes(n).len() <= k,
    decreases k,
{
    lemma_decimal_bytes(n);
    if n >= 10 {
        if k == 1 {
            assert(pow10(1) == 10 * pow10(0));
        }
        let p = pow10((k - 1) as nat);
        assert(n / 10 < p) by (nonlinear_arith)
            requires
                n < 10 * p,
        ;
        lemma_decimal_len(n / 10, (k - 1) as nat);
    }
}

/// The decimal text of an `i32` has at most eleven bytes, each a digit or `-`.
pub proof fn lemma_decimal_int_bytes(x: i32)
    ensures
        decimal_int(x as int).len() <= 11,
        forall|i: int| 0 <= i < decimal_int(x as int).len() ==> is_digit(#[trigger] decimal_int(x as int)[i])
            || decimal_int(x as int)[i] == 45u8,
{
    reveal_with_fuel(pow10, 11);
    let m: nat = if x < 0 { (-x) as nat } else { x as nat };
    assert(m < pow10(10));
    lemma_decimal_len(m, 10);
    lemma_decimal_bytes(m);
    if x < 0 {
        assert forall|i: int| 0 <= i < decimal_int(x as int).len() implies is_digit(#[trigger] decimal_int(x as int)[i])
            || decimal_int(x as int)[i] == 45u8 by {
            if i > 0 {
                assert(decimal_int(x as int)[i] == decimal_bytes(m)[i - 1]);
            }
        }
    }
}

/// The decimal text of `n`, as bytes.
pub fn format_u64(n: u64) -> (r: Vec<u8>)
    ensures
        r@ == decimal_bytes(n as nat),
    decreases n,
{
    if n < 10 {
        let b: u8 = (n + 48) as u8;
        let mut v: Vec<u8> = Vec::new();
        v.push(b);
        assert(v@ =~= seq![b]);
        v
    } else {
        let mut v = format_u64(n / 10);
        let b: u8 = (n % 10 + 48) as u8;
        v.push(b);
        v
    }
}

/// The decimal text of `n`, as bytes.
pub fn format_usize(n: usize) -> (r: Vec<u8>)
    ensures
        r@ == decimal_bytes(n as nat),
{
    format_u64(n as u64)
}

/// The decimal text of `x`, with a leading `-` when it is negative.
pub fn format_i32(x: i32) -> (r: Vec<u8>)
    ensures
        r@ == decimal_int(x as int),
{
    if x < 0 {
        let m: u64 = (0i64 - (x as i64)) as u64;
        let digits = format_u64(m);
        let mut v: Vec<u8> = Vec::new();
        v.push(45u8);
        append_bytes(&mut v, &digits);
        assert(v@ =~= seq![45u8] + decimal_bytes((-x) as nat));
        v
    } else {
        format_u64(x as u64)
    }
}

/// Appends every byte of `src` to `dst`.
pub fn append_bytes(dst: &mut Vec<u8>, src: &[u8])
    ensures
        final(dst)@ == old(dst)@ + src@,
{
    let ghost start = dst@;
    for i in 0..src.len()
        invariant
            dst@ == start + src@.take(i as int),
    {
        dst.push(src[i]);
        assert(src@.take(i + 1) =~= src@.take(i as int).push(src@[i as int]));
    }
    assert(src@.take(src.len() as int) =~= src@);
}

/// Reads the digit string `s[start..]` as a number, provided that it is not
/// empty, holds digits only and its value is at most `limit`.
fn parse_digits_bounded(s: &[u8], start: usize, limit: u64) -> (r: Option<u64>)
    requires
        start <= s.len(),
    ensures
        ({
            let d = s@.subrange(start as int, s@.len() as int);
            r == if d.len() > 0 && all_digits(d) && digits_value(d) <= limit {
                Some(digits_value(d) as u64)
            } else {
                None
            }
        }),
{
    let ghost d = s@.subrange(start as int, s@.len() as int);
    if start == s.len() {
        return None;
    }
    let mut acc: u128 = 0;
    let mut i = start;
    while i < s.len()
        invariant
            start <= i <= s.len(),
            d == s@.subrange(start as int, s@.len() as int),
            all_digits(d.take(i - start)),
            acc == digits_value(d.take(i - start)),
            acc <= limit,
        decreases s.len() - i,
    {
        let b = s[i];
        if b < 48 || b > 57 {
            assert(d[i - start] == b);
            return None;
        }
        proof {
            let t = d.take(i - start + 1);
            assert(t.drop_last() =~= d.take(i - start));
            assert(t.last() == b);
        }
        acc = acc * 10 + (b - 48) as u128;
        i = i + 1;
        if acc > limit as u128 {
            proof {
                if all_digits(d) {
                    lemma_digits_value_prefix(d, i - start);
                }
            }
            return None;
        }
    }
    assert(d.take(i - start) =~= d);
    Some(acc as u64)
}

/// `usize::from_str_radix(s, 10)`, on the bytes of the text.
pub fn parse_usize(s: &[u8]) -> (r: Option<usize>)
    ensures
        r == spec_parse_usize(s@),
{
    let start: usize = if s.len() > 0 && s[0] == 43u8 { 1 } else { 0 };
    assert(s@.subrange(start as int, s@.len() as int) =~= (if s@.len() > 0 && s@[0] == 43u8 {
        s@.drop_first()
    } else {
        s@
    }));
    match parse_digits_bounded(s, start, usize::MAX as u64) {
        Some(v) => Some(v as usize),
        None => None,
    }
}

/// `i32::from_str_radix(s, 10)`, on the bytes of the text.
pub fn parse_i32(s: &[u8]) -> (r: Option<i32>)
    ensures
        r == spec_parse_i32(s@),
{
    if s.len() > 0 && s[0] == 45u8 {
        assert(s@.subrange(1, s@.len() as int) =~= s@.drop_first());
        match parse_digits_bounded(s, 1, 0x8000_0000) {
            Some(v) => Some((0i64 - v as i64) as i32),
            None => None,
        }
    } else {
        let start: usize = if s.len() > 0 && s[0] == 43u8 { 1 } else { 0 };
        assert(s@.subrange(start as int, s@.len() as int) =~= (if s@.len() > 0 && s@[0] == 43u8 {
            s@.drop_first()
        } else {
            s@
        }));
        match parse_digits_bounded(s, start, 0x7fff_ffff) {
            Some(v) => Some(v as i32),
            None => None,
        }
    }
}

} // verus!
