//! Decimal text for integers, as the stores hold it.
//!
//! A number is written in its shortest form: the digits `0` to `9`, most
//! significant first, no leading zeros, and a leading `-` for a negative
//! number. Reading is more lenient than writing: a leading `+` and leading
//! zeros are accepted, as Rust's own integer parsing accepts them. Nothing
//! else is: no blanks, no digit separators, no empty text.

use vstd::prelude::*;

verus! {

/// `b` is one of the ASCII digits `0` to `9`.
pub open spec fn is_digit(b: u8) -> bool {
    48 <= b <= 57
}

/// Every byte of `text` is an ASCII digit.
pub open spec fn all_digits(text: Seq<u8>) -> bool {
    forall|i: int| 0 <= i < text.len() ==> is_digit(#[trigger] text[i])
}

/// The digits of `n`, most significant first, without leading zeros.
pub open spec fn digits_of(n: nat) -> Seq<u8>
    decreases n,
{
    if n < 10 {
        seq![(48 + n) as u8]
    } else {
        digits_of(n / 10).push((48 + n % 10) as u8)
    }
}

/// The shortest decimal text of `v`.
pub open spec fn decimal_text(v: int) -> Seq<u8> {
    if v < 0 {
        seq![45u8] + digits_of((-v) as nat)
    } else {
        digits_of(v as nat)
    }
}

/// The number that a run of digits stands for; 0 for the empty run.
pub open spec fn digits_value(digits: Seq<u8>) -> nat
    decreases digits.len(),
{
    if digits.len() == 0 {
        0
    } else {
        digits_value(digits.drop_last()) * 10 + (digits.last() - 48) as nat
    }
}

/// The digits of `text`, once an optional sign is taken off.
pub open spec fn unsigned_part(text: Seq<u8>) -> Seq<u8> {
    if text.len() > 0 && (text[0] == 45 || text[0] == 43) {
        text.skip(1)
    } else {
        text
    }
}

/// The integer that `text` stands for, if it is an optional sign followed by
/// one or more digits.
pub open spec fn parse_decimal(text: Seq<u8>) -> Option<int> {
    let body = unsigned_part(text);
    if body.len() == 0 || !all_digits(body) {
        None
    } else if text[0] == 45 {
        Some(-(digits_value(body) as int))
    } else {
        Some(digits_value(body) as int)
    }
}

/// The 64-bit integer that `text` stands for, if it stands for one.
pub open spec fn parse_i64(text: Seq<u8>) -> Option<i64> {
    match parse_decimal(text) {
        Some(v) => if i64::MIN <= v <= i64::MAX {
            Some(v as i64)
        } else {
            None
        },
        None => None,
    }
}

/// The 32-bit integer that `text` stands for, if it stands for one.
pub open spec fn parse_i32(text: Seq<u8>) -> Option<i32> {
    match parse_decimal(text) {
        Some(v) => if i32::MIN <= v <= i32::MAX {
            Some(v as i32)
        } else {
            None
        },
        None => None,
    }
}

/// The digits of a number are digits, at least one, without a leading zero
/// but for zero itself, and stand for the number.
pub proof fn lemma_digits_of(n: nat)
    ensures
        digits_of(n).len() >= 1,
        all_digits(digits_of(n)),
        digits_value(digits_of(n)) == n,
        digits_of(n)[0] != 45,
        digits_of(n)[0] != 43,
        n > 0 ==> digits_of(n)[0] != 48,
    decreases n,
{
    if n < 10 {
        let d = digits_of(n);
        assert(d.drop_last() =~= Seq::<u8>::empty());
        assert(digits_value(d.drop_last()) == 0);
    } else {
        lemma_digits_of(n / 10);
        let head = digits_of(n / 10);
        let d = digits_of(n);
        assert(d.drop_last() =~= head);
        assert(d[0] == head[0]);
    }
}

/// Reading what was written gives the number back.
pub proof fn lemma_decimal_round_trip(v: int)
    ensures
        parse_decimal(decimal_text(v)) == Some(v),
{
    if v < 0 {
        let n = (-v) as nat;
        lemma_digits_of(n);
        let text = decimal_text(v);
        assert(text[0] == 45);
        assert(unsigned_part(text) =~= digits_of(n));
    } else {
        lemma_digits_of(v as nat);
        assert(unsigned_part(decimal_text(v)) == digits_of(v as nat));
    }
}

/// Reading the text of a 64-bit integer gives the integer back.
pub proof fn lemma_i64_round_trip(v: i64)
    ensures
        parse_i64(decimal_text(v as int)) == Some(v),
{
    lemma_decimal_round_trip(v as int);
}

/// Reading the text of a 32-bit integer gives the integer back.
pub proof fn lemma_i32_round_trip(v: i32)
    ensures
        parse_i32(decimal_text(v as int)) == Some(v),
{
    lemma_decimal_round_trip(v as int);
}

proof fn lemma_digits_value_grows(digits: Seq<u8>, k: int)
    requires
        0 <= k <= digits.len(),
        all_digits(digits),
    ensures
        digits_value(digits.take(k)) <= digits_value(digits),
    decreases digits.len() - k,
{
    if k == digits.len() {
        assert(digits.take(k) =~= digits);
    } else {
        assert(digits.drop_last().take(k) =~= digits.take(k));
        lemma_digits_value_grows(digits.drop_last(), k);
    }
}

/// Appends the digits of `n` to `out`.
fn push_digits(n: u64, out: &mut Vec<u8>)
    ensures
        final(out)@ == old(out)@ + digits_of(n as nat),
    decreases n,
{
    if n >= 10 {
        push_digits(n / 10, out);
    }
    let d: u8 = (n % 10) as u8;
    out.push(48 + d);
    proof {
        if n >= 10 {
            assert(final(out)@ =~= old(out)@ + digits_of((n / 10) as nat).push((48 + n % 10) as u8));
        } else {
            assert(final(out)@ =~= old(out)@ + seq![(48 + n) as u8]);
        }
    }
}

/// The shortest decimal text of `v`.
pub fn encode_i64(v: i64) -> (text: Vec<u8>)
    ensures
        text@ == decimal_text(v as int),
{
    let mut text: Vec<u8> = Vec::new();
    if v < 0 {
        text.push(45u8);
        let magnitude: u64 = if v == i64::MIN {
            0x8000_0000_0000_0000u64
        } else {
            (-v) as u64
        };
        push_digits(magnitude, &mut text);
    } else {
        push_digits(v as u64, &mut text);
        proof {
            assert(text@ =~= digits_of(v as nat));
        }
    }
    text
}

/// The value and the success of reading `text[from..]` as digits: `None` if
/// there is no digit, a byte is no digit, or the value is above `limit`.
fn parse_digits(text: &[u8], from: usize, limit: u64) -> (out: Option<u64>)
    requires
        from <= text@.len(),
        9 <= limit <= 0x8000_0000_0000_0000u64,
    ensures
        out is Some <==> {
            let digits = text@.skip(from as int);
            digits.len() > 0 && all_digits(digits) && digits_value(digits) <= limit
        },
        out matches Some(v) ==> v == digits_value(text@.skip(from as int)),
{
    let ghost digits = text@.skip(from as int);
    let n = text.len();
    if from == n {
        return None;
    }
    let mut acc: u64 = 0;
    let mut i: usize = from;
    proof {
        assert(digits.take(0) =~= Seq::<u8>::empty());
    }
    while i < n
        invariant
            n == text@.len(),
            from <= i <= n,
            from < n,
            digits == text@.skip(from as int),
            forall|j: int| 0 <= j < i - from ==> is_digit(#[trigger] digits[j]),
            acc == digits_value(digits.take(i - from)),
            acc <= limit,
            9 <= limit <= 0x8000_0000_0000_0000u64,
        decreases n - i,
    {
        let b = text[i];
        proof {
            assert(digits[i - from] == b);
        }
        if b < 48 || b > 57 {
            return None;
        }
        let d: u64 = (b - 48) as u64;
        proof {
            let next = digits.take(i - from + 1);
            assert(next.drop_last() =~= digits.take(i - from));
            assert(next.last() == b);
            assert(digits_value(next) == acc * 10 + d);
        }
        if acc > (limit - d) / 10 {
            proof {
                assert(acc * 10 + d > limit);
                if all_digits(digits) {
                    lemma_digits_value_grows(digits, i - from + 1);
                }
            }
            return None;
        }
        acc = acc * 10 + d;
        i = i + 1;
    }
    proof {
        assert(digits.take(n - from) =~= digits);
    }
    Some(acc)
}

/// Whether `text` begins with a sign, and whether that sign is `-`.
fn read_sign(text: &[u8]) -> (out: (usize, bool))
    ensures
        out.0 <= text@.len(),
        text@.skip(out.0 as int) == unsigned_part(text@),
        out.1 == (text@.len() > 0 && text@[0] == 45),
{
    if text.len() > 0 && (text[0] == 45u8 || text[0] == 43u8) {
        (1, text[0] == 45u8)
    } else {
        proof {
            assert(text@.skip(0) =~= text@);
        }
        (0, false)
    }
}

/// Reads `text` as a 64-bit integer.
pub fn decode_i64(text: &[u8]) -> (out: Option<i64>)
    ensures
        out == parse_i64(text@),
{
    let (from, negative) = read_sign(text);
    if negative {
        match parse_digits(text, from, 0x8000_0000_0000_0000u64) {
            Some(v) => if v == 0x8000_0000_0000_0000u64 {
                Some(i64::MIN)
            } else {
                Some(-(v as i64))
            },
            None => None,
        }
    } else {
        match parse_digits(text, from, 0x7fff_ffff_ffff_ffffu64) {
            Some(v) => Some(v as i64),
            None => None,
        }
    }
}

/// Reads `text` as a 32-bit integer.
pub fn decode_i32(text: &[u8]) -> (out: Option<i32>)
    ensures
        out == parse_i32(text@),
{
    let (from, negative) = read_sign(text);
    if negative {
        match parse_digits(text, from, 0x8000_0000u64) {
            Some(v) => if v == 0x8000_0000u64 {
                Some(i32::MIN)
            } else {
                Some(-(v as i32))
            },
            None => None,
        }
    } else {
        match parse_digits(text, from, 0x7fff_ffffu64) {
            Some(v) => Some(v as i32),
            None => None,
        }
    }
}

} // verus!
