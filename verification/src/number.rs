//! Decimal integers as they stand in path segments.

use vstd::prelude::*;

verus! {

/// `0`
pub const DIGIT_ZERO: u8 = 0x30;

/// `9`
pub const DIGIT_NINE: u8 = 0x39;

/// `+`
pub const PLUS: u8 = 0x2b;

/// `-`
pub const MINUS: u8 = 0x2d;

/// ASCII decimal digit.
pub open spec fn is_digit(b: u8) -> bool {
    DIGIT_ZERO <= b <= DIGIT_NINE
}

/// Non-empty and made of decimal digits only.
pub open spec fn all_digits(s: Seq<u8>) -> bool {
    s.len() > 0 && forall|i: int| 0 <= i < s.len() ==> is_digit(#[trigger] s[i])
}

/// The number that a run of decimal digits writes.
pub open spec fn digits_value(s: Seq<u8>) -> nat
    decreases s.len(),
{
    if s.len() == 0 {
        0
    } else {
        (digits_value(s.drop_last()) * 10 + (s.last() - DIGIT_ZERO)) as nat
    }
}

/// The unpadded decimal digits of a natural number.
pub open spec fn decimal(n: nat) -> Seq<u8>
    decreases n,
{
    if n < 10 {
        seq![(DIGIT_ZERO + n) as u8]
    } else {
        decimal(n / 10).push((DIGIT_ZERO + n % 10) as u8)
    }
}

/// The unpadded decimal writing of an integer, with `-` before a negative one.
pub open spec fn signed_decimal(n: int) -> Seq<u8> {
    if n < 0 {
        seq![MINUS] + decimal((-n) as nat)
    } else {
        decimal(n as nat)
    }
}

/// The number an unsigned segment writes: an optional `+`, then digits.
pub open spec fn unsigned_value(s: Seq<u8>) -> Option<nat> {
    let digits = if s.len() > 0 && s[0] == PLUS {
        s.drop_first()
    } else {
        s
    };
    if all_digits(digits) {
        Some(digits_value(digits))
    } else {
        None
    }
}

/// The number a signed segment writes: an optional `+` or `-`, then digits.
pub open spec fn signed_value(s: Seq<u8>) -> Option<int> {
    if s.len() > 0 && s[0] == MINUS {
        if all_digits(s.drop_first()) {
            Some(-(digits_value(s.drop_first()) as int))
        } else {
            None
        }
    } else {
        match unsigned_value(s) {
            Some(v) => Some(v as int),
            None => None,
        }
    }
}

/// What a segment parses to as a `u32`: its number, if it writes one that
/// fits.
pub open spec fn parsed_u32(s: Seq<u8>) -> Option<u32> {
    match unsigned_value(s) {
        Some(v) if v <= u32::MAX => Some(v as u32),
        _ => None,
    }
}

/// What a segment parses to as an `i32`: its number, if it writes one that
/// fits.
pub open spec fn parsed_i32(s: Seq<u8>) -> Option<i32> {
    match signed_value(s) {
        Some(v) if i32::MIN <= v <= i32::MAX => Some(v as i32),
        _ => None,
    }
}

/// Digits written behind a run only make the number larger.
pub proof fn lemma_digits_value_grows(s: Seq<u8>, k: int)
    requires
        0 <= k <= s.len(),
        forall|i: int| 0 <= i < s.len() ==> is_digit(#[trigger] s[i]),
    ensures
        digits_value(s.subrange(0, k)) <= digits_value(s),
    decreases s.len() - k,
{
    if k == s.len() {
        assert(s.subrange(0, k) =~= s);
    } else {
        lemma_digits_value_grows(s, k + 1);
        let longer = s.subrange(0, k + 1);
        assert(longer.drop_last() =~= s.subrange(0, k));
        assert(longer.last() == s[k]);
    }
}

/// Reads the digits that make up the text from `from` on, if they write a
/// number no larger than `limit`.
pub fn parse_digits(text: &[u8], from: usize, limit: u64) -> (value: Option<u64>)
    requires
        from <= text@.len(),
        limit <= 0x8000_0000_0000,
    ensures
        match value {
            Some(v) => all_digits(text@.subrange(from as int, text@.len() as int))
                && v == digits_value(text@.subrange(from as int, text@.len() as int))
                && v <= limit,
            None => !all_digits(text@.subrange(from as int, text@.len() as int))
                || digits_value(text@.subrange(from as int, text@.len() as int)) > limit,
        },
{
    let ghost digits = text@.subrange(from as int, text@.len() as int);
    if from == text.len() {
        return None;
    }
    let mut acc: u64 = 0;
    let mut i: usize = from;
    assert(digits.subrange(0, 0) =~= Seq::<u8>::empty());
    while i < text.len()
        invariant
            from <= i <= text.len(),
            limit <= 0x8000_0000_0000,
            digits == text@.subrange(from as int, text@.len() as int),
            forall|k: int| 0 <= k < i - from ==> is_digit(#[trigger] digits[k]),
            acc == digits_value(digits.subrange(0, i - from)),
            acc <= limit,
        decreases text.len() - i,
    {
        let b: u8 = text[i];
        assert(digits[i - from] == b);
        if b < DIGIT_ZERO || b > DIGIT_NINE {
            return None;
        }
        let ghost longer = digits.subrange(0, i - from + 1);
        assert(longer.drop_last() =~= digits.subrange(0, i - from));
        assert(longer.last() == b);
        let next: u64 = acc * 10 + (b - DIGIT_ZERO) as u64;
        if next > limit {
            proof {
                if all_digits(digits) {
                    lemma_digits_value_grows(digits, i - from + 1);
                }
            }
            return None;
        }
        acc = next;
        i += 1;
    }
    assert(digits.subrange(0, digits.len() as int) =~= digits);
    Some(acc)
}

/// Parses a segment as a `u32`: an optional `+`, then digits.
pub fn parse_u32(text: &[u8]) -> (value: Option<u32>)
    ensures
        value == parsed_u32(text@),
{
    let from: usize = if text.len() > 0 && text[0] == PLUS {
        1
    } else {
        0
    };
    assert(text@.subrange(0, text@.len() as int) =~= text@);
    assert(text@.len() > 0 ==> text@.subrange(1, text@.len() as int) =~= text@.drop_first());
    match parse_digits(text, from, 0xffff_ffff) {
        Some(v) => Some(v as u32),
        None => None,
    }
}

/// Parses a segment as an `i32`: an optional `+` or `-`, then digits.
pub fn parse_i32(text: &[u8]) -> (value: Option<i32>)
    ensures
        value == parsed_i32(text@),
{
    assert(text@.subrange(0, text@.len() as int) =~= text@);
    assert(text@.len() > 0 ==> text@.subrange(1, text@.len() as int) =~= text@.drop_first());
    if text.len() > 0 && text[0] == MINUS {
        match parse_digits(text, 1, 0x8000_0000) {
            Some(v) => {
                if v == 0x8000_0000 {
                    Some(i32::MIN)
                } else {
                    Some(-(v as i32))
                }
            },
            None => None,
        }
    } else {
        let from: usize = if text.len() > 0 && text[0] == PLUS {
            1
        } else {
            0
        };
        match parse_digits(text, from, 0x7fff_ffff) {
            Some(v) => Some(v as i32),
            None => None,
        }
    }
}

/// The writing of a number is made of digits and reads back as the number.
pub proof fn lemma_decimal_reads_back(n: nat)
    ensures
        all_digits(decimal(n)),
        digits_value(decimal(n)) == n,
    decreases n,
{
    if n < 10 {
        let s = decimal(n);
        assert(s.drop_last() =~= Seq::<u8>::empty());
        assert(digits_value(s.drop_last()) == 0);
    } else {
        lemma_decimal_reads_back(n / 10);
        let s = decimal(n);
        assert(s.drop_last() =~= decimal(n / 10));
        assert forall|i: int| 0 <= i < s.len() implies is_digit(#[trigger] s[i]) by {
            if i < s.len() - 1 {
                assert(s[i] == decimal(n / 10)[i]);
            }
        }
    }
}

/// Writing then parsing gives the number back, for every `u32`.
pub proof fn lemma_u32_round_trip(n: u32)
    ensures
        parsed_u32(decimal(n as nat)) == Some(n),
{
    lemma_decimal_reads_back(n as nat);
}

/// Writing then parsing gives the number back, for every `i32`.
pub proof fn lemma_i32_round_trip(n: i32)
    ensures
        parsed_i32(signed_decimal(n as int)) == Some(n),
{
    if n < 0 {
        let m = (-(n as int)) as nat;
        lemma_decimal_reads_back(m);
        let s = signed_decimal(n as int);
        assert(s.drop_first() =~= decimal(m));
    } else {
        lemma_decimal_reads_back(n as nat);
    }
}

/// Appends the decimal digits of `n`.
pub fn push_decimal(out: &mut Vec<u8>, n: u32)
    ensures
        final(out)@ == old(out)@ + decimal(n as nat),
    decreases n,
{
    if n >= 10 {
        push_decimal(out, n / 10);
    }
    out.push(DIGIT_ZERO + (n % 10) as u8);
    assert(out@ =~= old(out)@ + decimal(n as nat));
}

/// The decimal writing of a `u32`.
pub fn render_u32(n: u32) -> (out: Vec<u8>)
    ensures
        out@ == decimal(n as nat),
{
    let mut out: Vec<u8> = Vec::new();
    push_decimal(&mut out, n);
    assert(out@ =~= decimal(n as nat));
    out
}

/// The decimal writing of an `i32`.
pub fn render_i32(n: i32) -> (out: Vec<u8>)
    ensures
        out@ == signed_decimal(n as int),
{
    let mut out: Vec<u8> = Vec::new();
    if n < 0 {
        out.push(MINUS);
        let magnitude: u32 = if n == i32::MIN {
            0x8000_0000
        } else {
            (-n) as u32
        };
        push_decimal(&mut out, magnitude);
        assert(out@ =~= signed_decimal(n as int));
    } else {
        push_decimal(&mut out, n as u32);
        assert(out@ =~= signed_decimal(n as int));
    }
    out
}

} // verus!
