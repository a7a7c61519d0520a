//! Decimal numbers: ASCII digits, their value, and the conversion of a token
//! to an unsigned 32-bit integer.
use crate::error::{result_view, ErrorKind, ErrorKindView};
use vstd::prelude::*;
use vstd::slice::slice_to_vec;

verus! {

/// `b` is one of the ASCII digits `0` to `9`.
pub open spec fn is_digit(b: u8) -> bool {
    '0' as u8 <= b <= '9' as u8
}

/// The predicate [`is_digit`] as a value.
pub open spec fn digit() -> spec_fn(u8) -> bool {
    |b: u8| is_digit(b)
}

/// `text` is a decimal number: at least one byte, ASCII digits only. There is
/// no sign and no white space.
pub open spec fn is_decimal(text: Seq<u8>) -> bool {
    text.len() > 0 && forall|i: int| 0 <= i < text.len() ==> is_digit(#[trigger] text[i])
}

/// The number that the digits `digits` write in base 10; leading zeros count
/// for nothing.
pub open spec fn decimal_value(digits: Seq<u8>) -> nat
    decreases digits.len(),
{
    if digits.len() == 0 {
        0
    } else {
        10 * decimal_value(digits.drop_last()) + (digits.last() - '0' as u8) as nat
    }
}

/// What [`parse_decimal`] returns: the value of `text` where `text` is a
/// decimal number that fits 32 bits, the failure that holds `text` otherwise.
pub open spec fn spec_parse_decimal(text: Seq<u8>) -> Result<u32, ErrorKindView> {
    if is_decimal(text) && decimal_value(text) <= u32::MAX {
        Ok(decimal_value(text) as u32)
    } else {
        Err(ErrorKindView::InvalidNumber(text))
    }
}

/// A number is at least the number that its first `k` digits write.
pub proof fn lemma_decimal_value_prefix(digits: Seq<u8>, k: int)
    requires
        0 <= k <= digits.len(),
    ensures
        decimal_value(digits.take(k)) <= decimal_value(digits),
    decreases digits.len() - k,
{
    if k == digits.len() {
        assert(digits.take(k) =~= digits);
    } else {
        assert(digits.drop_last().take(k) =~= digits.take(k));
        lemma_decimal_value_prefix(digits.drop_last(), k);
    }
}

/// Whether `b` is an ASCII digit.
pub fn is_ascii_digit(b: u8) -> (r: bool)
    ensures
        r == is_digit(b),
{
    0x30 <= b && b <= 0x39
}

/// Reads `text` as an unsigned decimal number of 32 bits.
///
/// Every byte must be a digit and there must be at least one; a number above
/// `u32::MAX` is refused like any other token that is no such number.
pub fn parse_decimal(text: &[u8]) -> (res: Result<u32, ErrorKind>)
    ensures
        result_view(res) == spec_parse_decimal(text@),
{
    let n = text.len();
    if n == 0 {
        return Err(ErrorKind::InvalidNumber(slice_to_vec(text)));
    }
    let mut value: u64 = 0;
    let mut i: usize = 0;
    while i < n
        invariant
            n == text@.len(),
            i <= n,
            forall|j: int| 0 <= j < i ==> is_digit(#[trigger] text@[j]),
            value == decimal_value(text@.take(i as int)),
            value <= u32::MAX,
        decreases n - i,
    {
        let b = text[i];
        if !is_ascii_digit(b) {
            return Err(ErrorKind::InvalidNumber(slice_to_vec(text)));
        }
        let next: u64 = value * 10 + (b - 0x30) as u64;
        proof {
            let upto = text@.take(i + 1);
            assert(upto.drop_last() =~= text@.take(i as int));
            lemma_decimal_value_prefix(text@, i + 1);
        }
        if next > 0xffff_ffff {
            return Err(ErrorKind::InvalidNumber(slice_to_vec(text)));
        }
        value = next;
        i += 1;
    }
    assert(text@.take(n as int) =~= text@);
    Ok(value as u32)
}

} // verus!
