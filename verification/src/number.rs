//! Reading signed decimal numbers of 32 bits from text.
use vstd::prelude::*;

verus! {

/// Whether a character is one of the ten ASCII digits.
pub open spec fn is_digit(c: char) -> bool {
    '0' <= c && c <= '9'
}

/// The number that a digit stands for.
pub open spec fn digit_value(c: char) -> int {
    c as u32 as int - '0' as u32 as int
}

/// Whether every character of a text is a digit.
pub open spec fn all_digits(text: Seq<char>) -> bool {
    forall|i: int| 0 <= i < text.len() ==> is_digit(#[trigger] text[i])
}

/// The number written by a run of digits, most significant first.
pub open spec fn decimal_value(digits: Seq<char>) -> int
    decreases digits.len(),
{
    if digits.len() == 0 {
        0
    } else {
        10 * decimal_value(digits.drop_last()) + digit_value(digits.last())
    }
}

/// How many characters the sign takes: one for a leading `-` or `+`, else none.
pub open spec fn sign_len(text: Seq<char>) -> int {
    if text.len() > 0 && (text[0] == '-' || text[0] == '+') {
        1
    } else {
        0
    }
}

/// Whether a text starts with a minus sign.
pub open spec fn is_negative(text: Seq<char>) -> bool {
    text.len() > 0 && text[0] == '-'
}

/// The signed number that a text writes: an optional sign, then one digit or more
/// and nothing else, with a value that fits in 32 bits. `None` for any other text.
pub open spec fn parse_i32_spec(text: Seq<char>) -> Option<int> {
    let digits = text.skip(sign_len(text));
    let magnitude = decimal_value(digits);
    let value = if is_negative(text) {
        -magnitude
    } else {
        magnitude
    };
    if digits.len() > 0 && all_digits(digits) && i32::MIN <= value <= i32::MAX {
        Some(value)
    } else {
        None
    }
}

/// A run of digits never writes a negative number.
pub proof fn lemma_decimal_value_nonnegative(digits: Seq<char>)
    requires
        all_digits(digits),
    ensures
        decimal_value(digits) >= 0,
    decreases digits.len(),
{
    if digits.len() > 0 {
        lemma_decimal_value_nonnegative(digits.drop_last());
    }
}

/// A run of digits writes at least as much as any of its prefixes.
pub proof fn lemma_decimal_value_prefix(digits: Seq<char>, k: int)
    requires
        all_digits(digits),
        0 <= k <= digits.len(),
    ensures
        decimal_value(digits.take(k)) <= decimal_value(digits),
    decreases digits.len(),
{
    if k == digits.len() {
        assert(digits.take(k) =~= digits);
    } else {
        let shorter = digits.drop_last();
        assert(shorter.take(k) =~= digits.take(k));
        lemma_decimal_value_prefix(shorter, k);
        lemma_decimal_value_nonnegative(shorter);
    }
}

/// Reads a signed decimal number of 32 bits.
pub fn parse_i32(text: &str) -> (value: Option<i32>)
    ensures
        match value {
            Some(v) => parse_i32_spec(text@) == Some(v as int),
            None => parse_i32_spec(text@).is_none(),
        },
{
    let ghost start = sign_len(text@);
    let ghost digits = text@.skip(start);
    let mut first = true;
    let mut negative = false;
    let mut any = false;
    let mut magnitude: i64 = 0;
    for c in it: text.chars()
        invariant
            it.seq() == text@,
            start == sign_len(text@),
            digits == text@.skip(start),
            first <==> it.index() == 0,
            first ==> !negative && !any && magnitude == 0,
            !first ==> start <= it.index() && negative == is_negative(text@),
            !first ==> any == (it.index() > start),
            !first ==> all_digits(text@.subrange(start, it.index())),
            !first ==> magnitude == decimal_value(text@.subrange(start, it.index())),
            0 <= magnitude <= 2147483648,
    {
        let ghost k = it.index();
        let sign = first && (c == '-' || c == '+');
        if first {
            negative = c == '-';
            first = false;
            assert(text@.subrange(start, start) =~= Seq::<char>::empty());
        }
        if !sign {
            let ghost before = text@.subrange(start, k);
            let ghost after = text@.subrange(start, k + 1);
            assert(after.drop_last() =~= before);
            assert(after =~= digits.take(k + 1 - start));
            if !('0' <= c && c <= '9') {
                assert(!is_digit(digits[k - start]));
                return None;
            }
            assert(after.last() == c);
            assert(magnitude == decimal_value(before));
            magnitude = magnitude * 10 + (c as u32 - '0' as u32) as i64;
            any = true;
            assert(magnitude == decimal_value(after));
            assert(all_digits(after));
            if magnitude > 2147483648 {
                proof {
                    if all_digits(digits) {
                        lemma_decimal_value_prefix(digits, k + 1 - start);
                    }
                }
                return None;
            }
        }
    }
    assert(text@.subrange(start, text@.len() as int) =~= digits);
    if !any {
        return None;
    }
    let signed = if negative {
        -magnitude
    } else {
        magnitude
    };
    if signed > 2147483647 {
        return None;
    }
    Some(signed as i32)
}

} // verus!
