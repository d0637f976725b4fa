use vstd::prelude::*;
use vstd::utf8::{valid_utf8, decode_utf8, encode_utf8, is_ascii_chars, is_ascii_chars_encode_utf8};

verus! {

/// The bytes of an ASCII character sequence, one byte per character.
pub open spec fn ascii_bytes(s: Seq<char>) -> Seq<u8> {
    Seq::new(s.len(), |i: int| s[i] as u8)
}

/// For ASCII text the UTF-8 encoding is exactly one byte per character.
pub proof fn lemma_ascii_encode(s: Seq<char>)
    requires
        is_ascii_chars(s),
    ensures
        encode_utf8(s) =~= ascii_bytes(s),
{
    is_ascii_chars_encode_utf8(s);
}

/// Relies on `String::from_utf8`: it succeeds exactly on valid UTF-8 input
/// and returns the string those bytes encode.
#[verifier::external_body]
pub fn bytes_to_string(v: Vec<u8>) -> (r: Option<String>)
    ensures
        r is Some <==> valid_utf8(v@),
        r is Some ==> r->0@ == decode_utf8(v@),
{
    match String::from_utf8(v) {
        Ok(s) => Some(s),
        Err(_) => None,
    }
}

/// An ASCII decimal digit.
pub open spec fn is_digit(b: u8) -> bool {
    48 <= b <= 57
}

/// The first position at or after `i` that does not hold a digit.
pub open spec fn digits_end(bytes: Seq<u8>, i: int) -> int
    decreases bytes.len() - i,
{
    if i < bytes.len() && is_digit(bytes[i]) {
        digits_end(bytes, i + 1)
    } else {
        i
    }
}

/// The value accumulated by scanning digits left to right from `i`,
/// starting from `acc`.
pub open spec fn digits_value(bytes: Seq<u8>, i: int, acc: int) -> int
    decreases bytes.len() - i,
{
    if i < bytes.len() && is_digit(bytes[i]) {
        digits_value(bytes, i + 1, acc * 10 + (bytes[i] - 48))
    } else {
        acc
    }
}

/// The value of a digit string, most significant digit first.
pub open spec fn val_of(s: Seq<u8>) -> int
    decreases s.len(),
{
    if s.len() == 0 {
        0
    } else {
        val_of(s.drop_last()) * 10 + (s.last() - 48)
    }
}

pub open spec fn pow10(k: nat) -> int
    decreases k,
{
    if k == 0 {
        1
    } else {
        10 * pow10((k - 1) as nat)
    }
}

/// The decimal digits of `n`, most significant first, without leading
/// zeros (except for `n == 0` itself).
pub open spec fn dec_digits(n: nat) -> Seq<u8>
    decreases n,
{
    if n < 10 {
        seq![(48 + n) as u8]
    } else {
        dec_digits((n / 10) as nat).push((48 + n % 10) as u8)
    }
}

/// A decimal number parse outcome: the value and the position after its
/// digits, or nothing when no digit stands at `i` or the value does not
/// fit in a `u64`.
pub open spec fn spec_parse_number(bytes: Seq<u8>, i: int) -> Option<(u64, int)> {
    let e = digits_end(bytes, i);
    if e == i {
        None
    } else if digits_value(bytes, i, 0) < 0x1_0000_0000_0000_0000 {
        Some((digits_value(bytes, i, 0) as u64, e))
    } else {
        None
    }
}

/// How `u32::from_str` reads a decimal string: an optional leading `+`,
/// then one or more digits making up the whole input, and the value must
/// fit in a `u32`.
pub open spec fn spec_parse_u32(bytes: Seq<u8>) -> Option<u32> {
    let start: int = if bytes.len() > 0 && bytes[0] == 43 {
        1
    } else {
        0
    };
    let e = digits_end(bytes, start);
    if e == bytes.len() && e > start && digits_value(bytes, start, 0) < 0x1_0000_0000 {
        Some(digits_value(bytes, start, 0) as u32)
    } else {
        None
    }
}

pub proof fn lemma_digits_end_bounds(bytes: Seq<u8>, i: int)
    requires
        0 <= i <= bytes.len(),
    ensures
        i <= digits_end(bytes, i) <= bytes.len(),
        forall|k: int| i <= k < digits_end(bytes, i) ==> is_digit(#[trigger] bytes[k]),
        digits_end(bytes, i) == bytes.len() || !is_digit(bytes[digits_end(bytes, i)]),
    decreases bytes.len() - i,
{
    if i < bytes.len() && is_digit(bytes[i]) {
        lemma_digits_end_bounds(bytes, i + 1);
    }
}

pub proof fn lemma_digits_end_of_run(bytes: Seq<u8>, i: int, e: int)
    requires
        0 <= i <= e <= bytes.len(),
        forall|k: int| i <= k < e ==> is_digit(#[trigger] bytes[k]),
        e == bytes.len() || !is_digit(bytes[e]),
    ensures
        digits_end(bytes, i) == e,
    decreases e - i,
{
    if i < e {
        lemma_digits_end_of_run(bytes, i + 1, e);
    }
}

pub proof fn lemma_digits_value_monotone(bytes: Seq<u8>, i: int, acc: int)
    requires
        0 <= i <= bytes.len(),
        acc >= 0,
    ensures
        digits_value(bytes, i, acc) >= acc,
    decreases bytes.len() - i,
{
    if i < bytes.len() && is_digit(bytes[i]) {
        let d: int = bytes[i] - 48;
        assert(acc * 10 + d >= acc) by (nonlinear_arith)
            requires
                acc >= 0,
                d >= 0,
        ;
        lemma_digits_value_monotone(bytes, i + 1, acc * 10 + d);
    }
}

pub proof fn lemma_val_of_front(s: Seq<u8>)
    requires
        s.len() > 0,
    ensures
        val_of(s) == (s[0] - 48) * pow10((s.len() - 1) as nat) + val_of(s.drop_first()),
    decreases s.len(),
{
    if s.len() == 1 {
        assert(s.drop_last() =~= Seq::<u8>::empty());
        assert(s.drop_first() =~= Seq::<u8>::empty());
    } else {
        let dl = s.drop_last();
        lemma_val_of_front(dl);
        assert(dl.drop_first() =~= s.drop_first().drop_last());
        assert(s.drop_first().last() == s.last());
        let k: nat = (s.len() - 2) as nat;
        assert(val_of(s.drop_first()) == val_of(s.drop_first().drop_last()) * 10 + (s.last()
            - 48));
        assert((s[0] - 48) * pow10((s.len() - 1) as nat) == ((s[0] - 48) * pow10(k)) * 10)
            by (nonlinear_arith)
            requires
                s.len() >= 2,
                pow10((s.len() - 1) as nat) == 10 * pow10(k),
                k == s.len() - 2,
        ;
        assert(val_of(s) == val_of(dl) * 10 + (s.last() - 48));
        assert(val_of(dl) * 10 == ((s[0] - 48) * pow10(k) + val_of(dl.drop_first())) * 10);
        assert(((s[0] - 48) * pow10(k) + val_of(dl.drop_first())) * 10 == ((s[0] - 48) * pow10(k))
            * 10 + val_of(dl.drop_first()) * 10) by (nonlinear_arith);
    }
}

/// Scanning digits from `i` yields the accumulator shifted past the whole
/// digit run, plus the run's own value.
pub proof fn lemma_digits_scan(bytes: Seq<u8>, i: int, acc: int)
    requires
        0 <= i <= bytes.len(),
    ensures
        digits_value(bytes, i, acc) == acc * pow10((digits_end(bytes, i) - i) as nat) + val_of(
            bytes.subrange(i, digits_end(bytes, i)),
        ),
    decreases bytes.len() - i,
{
    lemma_digits_end_bounds(bytes, i);
    let e = digits_end(bytes, i);
    if i < bytes.len() && is_digit(bytes[i]) {
        let d: int = bytes[i] - 48;
        lemma_digits_scan(bytes, i + 1, acc * 10 + d);
        let s = bytes.subrange(i, e);
        assert(s.drop_first() =~= bytes.subrange(i + 1, e));
        lemma_val_of_front(s);
        let k: nat = (e - i - 1) as nat;
        assert((acc * 10 + d) * pow10(k) == (acc * 10) * pow10(k) + d * pow10(k))
            by (nonlinear_arith);
        assert((acc * 10) * pow10(k) == acc * (10 * pow10(k))) by (nonlinear_arith);
    } else {
        assert(bytes.subrange(i, i) =~= Seq::<u8>::empty());
        assert(acc * 1 == acc) by (nonlinear_arith);
    }
}

pub proof fn lemma_dec_digits_shape(n: nat)
    ensures
        dec_digits(n).len() >= 1,
        forall|k: int| 0 <= k < dec_digits(n).len() ==> is_digit(#[trigger] dec_digits(n)[k]),
    decreases n,
{
    if n >= 10 {
        lemma_dec_digits_shape((n / 10) as nat);
    }
}

pub proof fn lemma_val_of_dec_digits(n: nat)
    ensures
        val_of(dec_digits(n)) == n,
    decreases n,
{
    if n < 10 {
        assert(dec_digits(n).drop_last() =~= Seq::<u8>::empty());
        assert((48 + n) as u8 == 48 + n);
        assert(val_of(dec_digits(n)) == val_of(dec_digits(n).drop_last()) * 10 + (dec_digits(
            n,
        ).last() - 48));
    } else {
        lemma_val_of_dec_digits((n / 10) as nat);
        let s = dec_digits((n / 10) as nat);
        let d: u8 = (48 + n % 10) as u8;
        assert(s.push(d).drop_last() =~= s);
        assert(s.push(d).last() == d);
        assert(d == 48 + n % 10);
        vstd::arithmetic::div_mod::lemma_fundamental_div_mod(n as int, 10);
    }
}

/// Reading back the decimal rendering of `n`, when a non-digit (or the end
/// of input) follows it, yields exactly `n` and stops right after it.
pub proof fn lemma_parse_number_of_dec(bytes: Seq<u8>, i: int, n: nat)
    requires
        0 <= i,
        i + dec_digits(n).len() <= bytes.len(),
        bytes.subrange(i, i + dec_digits(n).len() as int) =~= dec_digits(n),
        i + dec_digits(n).len() == bytes.len() || !is_digit(bytes[i + dec_digits(n).len()]),
        n < 0x1_0000_0000_0000_0000,
    ensures
        spec_parse_number(bytes, i) == Some((n as u64, i + dec_digits(n).len())),
{
    let len = dec_digits(n).len() as int;
    lemma_dec_digits_shape(n);
    assert(forall|k: int| i <= k < i + len ==> is_digit(#[trigger] bytes[k])) by {
        assert(forall|k: int| i <= k < i + len ==> bytes[k] == dec_digits(n)[k - i]);
    }
    lemma_digits_end_of_run(bytes, i, i + len);
    lemma_digits_scan(bytes, i, 0);
    lemma_val_of_dec_digits(n);
    assert(0 * pow10(len as nat) == 0) by (nonlinear_arith);
}

/// Writes `n` in decimal, most significant digit first.
pub fn u64_to_dec(n: u64) -> (r: Vec<u8>)
    ensures
        r@ =~= dec_digits(n as nat),
    decreases n,
{
    if n < 10 {
        let mut v: Vec<u8> = Vec::new();
        v.push(48 + n as u8);
        v
    } else {
        let mut v = u64_to_dec(n / 10);
        v.push(48 + (n % 10) as u8);
        v
    }
}

/// Parses a run of decimal digits starting at `start`, returning the value
/// and the position after the run, or nothing when there is no digit there
/// or the value overflows a `u64`.
pub fn parse_digits_run(bytes: &Vec<u8>, start: usize) -> (r: Option<(u64, usize)>)
    requires
        start <= bytes@.len(),
    ensures
        match r {
            Some(p) => spec_parse_number(bytes@, start as int) == Some((p.0, p.1 as int)),
            None => spec_parse_number(bytes@, start as int) is None,
        },
{
    proof {
        lemma_digits_end_bounds(bytes@, start as int);
    }
    if start >= bytes.len() || bytes[start] < 48 || bytes[start] > 57 {
        return None;
    }
    let ghost e = digits_end(bytes@, start as int);
    let mut i: usize = start;
    let mut acc: u64 = 0;
    while i < bytes.len() && 48 <= bytes[i] && bytes[i] <= 57
        invariant
            start <= i <= bytes@.len(),
            forall|k: int| start <= k < i ==> is_digit(#[trigger] bytes@[k]),
            digits_value(bytes@, start as int, 0) == digits_value(bytes@, i as int, acc as int),
        decreases bytes@.len() - i,
    {
        let d: u64 = (bytes[i] - 48) as u64;
        if acc > (0xffff_ffff_ffff_ffffu64 - d) / 10 {
            proof {
                assert(acc * 10 + d > 0xffff_ffff_ffff_ffff) by (nonlinear_arith)
                    requires
                        acc > (0xffff_ffff_ffff_ffffu64 - d) / 10,
                        0 <= d <= 9,
                        acc >= 0,
                ;
                lemma_digits_value_monotone(bytes@, i + 1, acc as int * 10 + d as int);
            }
            return None;
        }
        acc = acc * 10 + d;
        i = i + 1;
    }
    proof {
        lemma_digits_end_of_run(bytes@, start as int, i as int);
    }
    Some((acc, i))
}

/// Parses a whole byte string the way `u32::from_str` does.
pub fn parse_u32_bytes(bytes: &Vec<u8>) -> (r: Option<u32>)
    ensures
        r == spec_parse_u32(bytes@),
{
    let start: usize = if bytes.len() > 0 && bytes[0] == 43 {
        1
    } else {
        0
    };
    proof {
        lemma_digits_end_bounds(bytes@, start as int);
        lemma_digits_value_monotone(bytes@, start as int, 0);
    }
    match parse_digits_run(bytes, start) {
        None => None,
        Some((v, j)) => {
            if j == bytes.len() && v <= 0xffff_ffffu64 {
                Some(v as u32)
            } else {
                None
            }
        },
    }
}

} // verus!
