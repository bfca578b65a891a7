//! Decimal text of unsigned integers, as it appears in claim payloads and in
//! configuration values.

use vstd::prelude::*;
use vstd::utf8::encode_utf8;

verus! {

/// The ASCII code of the decimal digit `d`.
pub open spec fn digit_byte(d: nat) -> u8
    recommends
        d < 10,
{
    (48 + d) as u8
}

/// Whether `b` is the ASCII code of a decimal digit.
pub open spec fn is_digit(b: u8) -> bool {
    48 <= b <= 57
}

/// The shortest decimal text of `n`: no sign, no leading zero.
pub open spec fn decimal(n: nat) -> Seq<u8>
    decreases n,
{
    if n < 10 {
        seq![digit_byte(n)]
    } else {
        decimal(n / 10).push(digit_byte(n % 10))
    }
}

/// The number that a run of decimal digits denotes; leading zeros count for
/// nothing.
pub open spec fn digits_value(s: Seq<u8>) -> nat
    decreases s.len(),
{
    if s.len() == 0 {
        0
    } else {
        (10 * digits_value(s.drop_last()) + (s.last() - 48)) as nat
    }
}

/// The end of the longest run of digits of `s` that starts at `i`.
pub open spec fn digits_end(s: Seq<u8>, i: int) -> int
    decreases s.len() - i,
{
    if 0 <= i < s.len() && is_digit(s[i]) {
        digits_end(s, i + 1)
    } else {
        i
    }
}

/// The number written at position `i` of `s`, with the position after it:
/// the longest run of digits there, if it is not empty and fits in 64 bits.
pub open spec fn number_at(s: Seq<u8>, i: int) -> Option<(u64, int)> {
    let e = digits_end(s, i);
    if e == i || digits_value(s.subrange(i, e)) > u64::MAX {
        None
    } else {
        Some((digits_value(s.subrange(i, e)) as u64, e))
    }
}

/// The value of a whole text as an unsigned 64-bit number: an optional `+`,
/// then one or more digits and nothing else.
pub open spec fn unsigned_value(s: Seq<u8>) -> Option<u64> {
    let start = if s.len() > 0 && s[0] == 43 {
        1int
    } else {
        0int
    };
    match number_at(s, start) {
        Some((n, e)) => if e == s.len() {
            Some(n)
        } else {
            None
        },
        None => None,
    }
}

/// A decimal text is made of digits and denotes the number it was made from.
pub proof fn lemma_decimal_value(n: nat)
    ensures
        decimal(n).len() >= 1,
        forall|k: int| 0 <= k < decimal(n).len() ==> is_digit(#[trigger] decimal(n)[k]),
        digits_value(decimal(n)) == n,
    decreases n,
{
    if n < 10 {
        assert(decimal(n).drop_last() =~= Seq::<u8>::empty());
        assert(digits_value(decimal(n).drop_last()) == 0);
    } else {
        lemma_decimal_value(n / 10);
        assert(decimal(n).drop_last() =~= decimal(n / 10));
    }
}

/// A run of digits that stops at `e` is the longest one from each of its
/// positions.
pub proof fn lemma_digits_end(s: Seq<u8>, i: int, e: int)
    requires
        0 <= i <= e <= s.len(),
        forall|k: int| i <= k < e ==> is_digit(#[trigger] s[k]),
        e == s.len() || !is_digit(s[e]),
    ensures
        digits_end(s, i) == e,
    decreases e - i,
{
    if i < e {
        lemma_digits_end(s, i + 1, e);
    }
}

/// The decimal text of `n`, written at `i` and followed by no further digit,
/// reads back as `n`.
pub proof fn lemma_number_at_decimal(s: Seq<u8>, i: int, n: u64)
    requires
        0 <= i,
        i + decimal(n as nat).len() <= s.len(),
        s.subrange(i, i + decimal(n as nat).len()) == decimal(n as nat),
        i + decimal(n as nat).len() == s.len() || !is_digit(s[i + decimal(n as nat).len()]),
    ensures
        number_at(s, i) == Some((n, i + decimal(n as nat).len())),
{
    let t = decimal(n as nat);
    let e = i + t.len();
    lemma_decimal_value(n as nat);
    assert forall|k: int| i <= k < e implies is_digit(#[trigger] s[k]) by {
        assert(s[k] == s.subrange(i, e)[k - i]);
        assert(is_digit(t[k - i]));
    }
    lemma_digits_end(s, i, e);
}

/// A longer run of digits denotes no smaller a number.
pub proof fn lemma_digits_value_grows(s: Seq<u8>, i: int, j: int, e: int)
    requires
        0 <= i <= j <= e <= s.len(),
        forall|k: int| i <= k < e ==> is_digit(#[trigger] s[k]),
    ensures
        digits_value(s.subrange(i, j)) <= digits_value(s.subrange(i, e)),
    decreases e - j,
{
    if j < e {
        lemma_digits_value_grows(s, i, j, e - 1);
        assert(s.subrange(i, e).drop_last() =~= s.subrange(i, e - 1));
        assert(is_digit(s[e - 1]));
        assert(s.subrange(i, e).last() == s[e - 1]);
    }
}

/// Appends the decimal text of `n` to `out`.
pub fn push_decimal(out: &mut Vec<u8>, n: u64)
    ensures
        final(out)@ == old(out)@ + decimal(n as nat),
    decreases n,
{
    if n >= 10 {
        push_decimal(out, n / 10);
    }
    let d: u8 = (n % 10) as u8;
    out.push(48 + d);
    assert(out@ =~= old(out)@ + decimal(n as nat));
}

/// Reads the number written at position `start` of `bytes`.
pub fn read_number(bytes: &[u8], start: usize) -> (res: Option<(u64, usize)>)
    ensures
        match res {
            Some((n, next)) => number_at(bytes@, start as int) == Some((n, next as int)) && start
                < next <= bytes@.len(),
            None => number_at(bytes@, start as int) is None,
        },
{
    if start > bytes.len() {
        return None;
    }
    let mut j: usize = start;
    let mut acc: u64 = 0;
    while j < bytes.len() && 48 <= bytes[j] && bytes[j] <= 57
        invariant
            start <= j <= bytes@.len(),
            forall|k: int| start <= k < j ==> is_digit(#[trigger] bytes@[k]),
            acc == digits_value(bytes@.subrange(start as int, j as int)),
        decreases bytes@.len() - j,
    {
        let d: u64 = (bytes[j] - 48) as u64;
        proof {
            assert(bytes@.subrange(start as int, j + 1).drop_last() =~= bytes@.subrange(
                start as int,
                j as int,
            ));
            assert(bytes@.subrange(start as int, j + 1).last() == bytes@[j as int]);
        }
        if acc > (u64::MAX - d) / 10 {
            proof {
                let e = digits_end(bytes@, j + 1);
                lemma_digits_end_bounds(bytes@, j + 1);
                assert forall|k: int| start <= k < e implies is_digit(#[trigger] bytes@[k]) by {
                    if k > j {
                        lemma_digits_end_covers(bytes@, j + 1, k);
                    }
                }
                lemma_digits_end(bytes@, start as int, e);
                lemma_digits_value_grows(bytes@, start as int, j + 1, e);
            }
            return None;
        }
        acc = acc * 10 + d;
        j = j + 1;
    }
    proof {
        lemma_digits_end(bytes@, start as int, j as int);
        if j == start {
            assert(bytes@.subrange(start as int, j as int) =~= Seq::<u8>::empty());
        }
    }
    if j == start {
        None
    } else {
        Some((acc, j))
    }
}

/// The longest run of digits from `i` ends inside the text, at a byte that is
/// no digit.
pub proof fn lemma_digits_end_bounds(s: Seq<u8>, i: int)
    requires
        0 <= i <= s.len(),
    ensures
        i <= digits_end(s, i) <= s.len(),
        digits_end(s, i) == s.len() || !is_digit(s[digits_end(s, i)]),
    decreases s.len() - i,
{
    if i < s.len() && is_digit(s[i]) {
        lemma_digits_end_bounds(s, i + 1);
    }
}

/// Every byte of the longest run of digits from `i` is a digit.
pub proof fn lemma_digits_end_covers(s: Seq<u8>, i: int, k: int)
    requires
        0 <= i <= k < digits_end(s, i),
    ensures
        k < s.len(),
        is_digit(s[k]),
    decreases s.len() - i,
{
    if i < s.len() && is_digit(s[i]) {
        if k > i {
            lemma_digits_end_covers(s, i + 1, k);
        }
    }
}

/// Reads a whole text as an unsigned 64-bit number.
pub fn parse_u64(text: &str) -> (res: Option<u64>)
    ensures
        res == unsigned_value(encode_utf8(text@)),
{
    let bytes = text.as_bytes();
    let start: usize = if bytes.len() > 0 && bytes[0] == 43 {
        1
    } else {
        0
    };
    match read_number(bytes, start) {
        Some((n, next)) => if next == bytes.len() {
            Some(n)
        } else {
            None
        },
        None => None,
    }
}

} // verus!
