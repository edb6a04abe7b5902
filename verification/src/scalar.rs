//! Arbitrary-precision numbers.
//!
//! [`BigInt`] and [`BigDecimal`] hold the numbers of the `num-bigint` and
//! `bigdecimal` crates. What those crates compute is taken on trust; the
//! contracts of the functions marked as calls into them say what is taken.
//! A big integer is modelled by the integer it holds, a big decimal by its
//! unscaled digits and its scale: it stands for `unscaled / 10^scale`.

use vstd::prelude::*;
use vstd::slice::slice_subrange;
use vstd::string::*;
use vstd::utf8::*;
use crate::decimal::{
    all_digits, decimal_text, decode_i64, digits_of, digits_value, is_digit, lemma_digits_of,
    parse_i64, unsigned_part,
};
use crate::text::str_from_utf8;

verus! {

/// The integer that a big integer holds.
pub uninterp spec fn bigint_value(n: BigInt) -> int;

/// The unscaled digits of a big decimal.
pub uninterp spec fn decimal_unscaled(d: BigDecimal) -> int;

/// The scale of a big decimal: how many of its digits stand behind the point.
pub uninterp spec fn decimal_scale(d: BigDecimal) -> int;

/// Every byte of `text` is a digit or a `_`.
pub open spec fn all_spaced_digits(text: Seq<u8>) -> bool {
    forall|i: int| 0 <= i < text.len() ==> is_digit(#[trigger] text[i]) || text[i] == 95
}

/// The number that digits stand for when each `_` among them is passed
/// over; 0 if there is no digit.
pub open spec fn spaced_value(digits: Seq<u8>) -> nat
    decreases digits.len(),
{
    if digits.len() == 0 {
        0
    } else if digits.last() == 95 {
        spaced_value(digits.drop_last())
    } else {
        spaced_value(digits.drop_last()) * 10 + (digits.last() - 48) as nat
    }
}

/// The integer that the text with the bytes `text` stands for: an optional
/// sign, `-` or `+`, and then digits. A `_` may stand among the digits,
/// though not in front of them, and counts for nothing. `None` for every
/// other text.
pub open spec fn bigint_from_text(text: Seq<u8>) -> Option<int> {
    let body = unsigned_part(text);
    if body.len() == 0 || body[0] == 95 || !all_spaced_digits(body) {
        None
    } else if text[0] == 45 {
        Some(-(spaced_value(body) as int))
    } else {
        Some(spaced_value(body) as int)
    }
}

/// Where the decimal point of a text stands: the place of its first `.`, or
/// the length of the text if it has none.
pub open spec fn point_mark(text: Seq<u8>) -> nat
    decreases text.len(),
{
    if text.len() == 0 || text[0] == 46 {
        0
    } else {
        1 + point_mark(text.skip(1))
    }
}

/// The digits of a decimal text without exponent: the text without its
/// first `.`.
pub open spec fn unpointed(base: Seq<u8>) -> Seq<u8> {
    let point = point_mark(base) as int;
    if point < base.len() {
        base.take(point) + base.skip(point + 1)
    } else {
        base
    }
}

/// How many bytes of a decimal text without exponent stand behind its first
/// `.`.
pub open spec fn behind_point(base: Seq<u8>) -> int {
    let point = point_mark(base) as int;
    if point < base.len() {
        base.len() - point - 1
    } else {
        0
    }
}

/// The exponent that a decimal text names: zero if it has no exponent mark,
/// else the 64-bit integer behind the mark, if there is one.
pub open spec fn exponent_of(text: Seq<u8>) -> Option<i64> {
    if exponent_mark(text) < text.len() {
        parse_i64(exponent_part(text))
    } else {
        Some(0i64)
    }
}

/// The unscaled digits and the scale that the text with the bytes `text`
/// stands for. The text is an integer as [`bigint_from_text`] reads it, in
/// which one `.` may stand anywhere, and behind it there may be an `e` or
/// `E` and an exponent. The scale is the number of bytes behind the `.`,
/// less the exponent. `None` for every other text.
pub open spec fn bigdecimal_from_text(text: Seq<u8>) -> Option<(int, int)> {
    let base = text.take(exponent_mark(text) as int);
    match (bigint_from_text(unpointed(base)), exponent_of(text)) {
        (Some(v), Some(e)) => Some((v, behind_point(base) - e)),
        _ => None,
    }
}

/// `n` zeros, as text.
pub open spec fn zeros(n: nat) -> Seq<u8> {
    Seq::new(n, |i: int| 48u8)
}

/// The text of the number with these unscaled digits and this scale: a `-`
/// if it is negative, its digits, and a `.` before the last `scale` of them;
/// zeros fill in where the scale asks for more digits than there are, behind
/// a leading `0.`, and where the scale is negative, at the end.
pub open spec fn bigdecimal_text(unscaled: int, scale: int) -> Seq<u8> {
    let digits = digits_of(
        (if unscaled < 0 {
            -unscaled
        } else {
            unscaled
        }) as nat,
    );
    let n = digits.len() as int;
    let sign = if unscaled < 0 {
        seq![45u8]
    } else {
        Seq::<u8>::empty()
    };
    if scale >= n {
        sign + seq![48u8, 46u8] + zeros((scale - n) as nat) + digits
    } else if scale < 0 {
        sign + digits + zeros((-scale) as nat)
    } else if scale == 0 {
        sign + digits
    } else {
        sign + digits.take(n - scale) + seq![46u8] + digits.skip(n - scale)
    }
}

/// Ten to the power `n`.
pub open spec fn pow10(n: nat) -> nat
    decreases n,
{
    if n == 0 {
        1
    } else {
        10 * pow10((n - 1) as nat)
    }
}

/// The unscaled digits of the number `a` when it is written with the scale
/// `scale`, which is not below its own.
pub open spec fn rescaled(a: (int, int), scale: int) -> int {
    a.0 * pow10((scale - a.1) as nat)
}

/// The larger of two scales.
pub open spec fn wider(a: (int, int), b: (int, int)) -> int {
    if a.1 >= b.1 {
        a.1
    } else {
        b.1
    }
}

/// The sum of two numbers, each given by its unscaled digits and its scale:
/// it has the larger of the two scales.
pub open spec fn bigdecimal_sum(a: (int, int), b: (int, int)) -> (int, int) {
    (rescaled(a, wider(a, b)) + rescaled(b, wider(a, b)), wider(a, b))
}

/// Whether the first number is below the second, each given by its unscaled
/// digits and its scale.
pub open spec fn bigdecimal_below(a: (int, int), b: (int, int)) -> bool {
    rescaled(a, wider(a, b)) < rescaled(b, wider(a, b))
}

/// The smallest exponent of ten of a decimal number of 34 digits. Big
/// decimals are not held to it.
pub const MIN_EXP: i32 = -6143;

/// The largest exponent of ten of a decimal number of 34 digits. Big
/// decimals are not held to it.
pub const MAX_EXP: i32 = 6144;

/// The scale `scale` is one that arithmetic and writing are offered for.
/// The `bigdecimal` crate takes one scale from another, and a scale from a
/// number of digits, in 64-bit arithmetic; within this bound neither
/// overflows. Every decimal that a machine can write out is within it.
pub open spec fn scale_in_range(scale: int) -> bool {
    -0x2000_0000_0000_0000 <= scale <= 0x2000_0000_0000_0000
}

/// Where the exponent mark of a decimal text stands: the place of its first
/// `e` or `E`, or the length of the text if it has none.
pub open spec fn exponent_mark(text: Seq<u8>) -> nat
    decreases text.len(),
{
    if text.len() == 0 || text[0] == 101 || text[0] == 69 {
        0
    } else {
        1 + exponent_mark(text.skip(1))
    }
}

/// The exponent that a decimal text names, without a leading `+`.
pub open spec fn exponent_part(text: Seq<u8>) -> Seq<u8> {
    let rest = text.skip(exponent_mark(text) as int + 1);
    if rest.len() > 0 && rest[0] == 43 {
        rest.skip(1)
    } else {
        rest
    }
}

/// The text names no exponent so far below zero that the scale it asks for
/// is beyond every number of digits. Such a text is read as no number.
pub open spec fn exponent_ok(text: Seq<u8>) -> bool {
    exponent_mark(text) >= text.len() || match parse_i64(exponent_part(text)) {
        Some(e) => e >= -0x4000_0000_0000_0000,
        None => true,
    }
}

proof fn lemma_exponent_mark_is(text: Seq<u8>, p: int)
    requires
        0 <= p <= text.len(),
        forall|j: int| 0 <= j < p ==> text[j] != 101 && text[j] != 69,
        p == text.len() || text[p] == 101 || text[p] == 69,
    ensures
        exponent_mark(text) == p,
    decreases p,
{
    if p > 0 {
        let rest = text.skip(1);
        assert(text[0] != 101 && text[0] != 69);
        assert forall|j: int| 0 <= j < p - 1 implies rest[j] != 101 && rest[j] != 69 by {
            assert(rest[j] == text[j + 1]);
        }
        if p < text.len() {
            assert(rest[p - 1] == text[p]);
        }
        lemma_exponent_mark_is(rest, p - 1);
    }
}

/// Whether `text` names no exponent too far below zero.
fn exponent_is_ok(text: &[u8]) -> (ok: bool)
    ensures
        ok == exponent_ok(text@),
{
    let n = text.len();
    let mut i: usize = 0;
    while i < n && text[i] != 101 && text[i] != 69
        invariant
            n == text@.len(),
            i <= n,
            forall|j: int| 0 <= j < i ==> text@[j] != 101 && text@[j] != 69,
        decreases n - i,
    {
        i = i + 1;
    }
    proof {
        lemma_exponent_mark_is(text@, i as int);
    }
    if i >= n {
        return true;
    }
    let mut from = i + 1;
    if from < n && text[from] == 43 {
        proof {
            assert(text@.skip(i + 1).skip(1) =~= text@.skip(from + 1));
        }
        from = from + 1;
    }
    let rest = slice_subrange(text, from, n);
    proof {
        assert(rest@ =~= exponent_part(text@));
    }
    match decode_i64(rest) {
        Some(e) => e >= -0x4000_0000_0000_0000,
        None => true,
    }
}

proof fn lemma_spaced_is_plain(digits: Seq<u8>)
    requires
        all_digits(digits),
    ensures
        all_spaced_digits(digits),
        spaced_value(digits) == digits_value(digits),
    decreases digits.len(),
{
    if digits.len() > 0 {
        let front = digits.drop_last();
        assert forall|i: int| 0 <= i < front.len() implies is_digit(#[trigger] front[i]) by {
            assert(front[i] == digits[i]);
        }
        lemma_spaced_is_plain(front);
        assert(is_digit(digits.last()));
    }
}

/// Bytes below 128 are text.
proof fn lemma_ascii_is_text(bytes: Seq<u8>)
    requires
        forall|i: int| 0 <= i < bytes.len() ==> bytes[i] < 128,
    ensures
        valid_utf8(bytes),
{
    assert(bytes.subrange(0, 0) =~= Seq::<u8>::empty());
    partial_valid_utf8_extend_ascii_block(bytes, 0, bytes.len() as int);
    assert(bytes.subrange(0, bytes.len() as int) =~= bytes);
}

/// Reading the text of an integer gives the integer back, from a text and
/// from stored bytes.
pub proof fn lemma_bigint_round_trip(v: int)
    ensures
        bigint_from_text(decimal_text(v)) == Some(v),
        BigInt::of_store_bytes(decimal_text(v)) == Some(v),
{
    let text = decimal_text(v);
    let n = (if v < 0 {
        -v
    } else {
        v
    }) as nat;
    lemma_digits_of(n);
    lemma_spaced_is_plain(digits_of(n));
    if v < 0 {
        assert(text[0] == 45);
        assert(unsigned_part(text) =~= digits_of(n));
    } else {
        assert(unsigned_part(text) == digits_of(n));
    }
    assert forall|i: int| 0 <= i < text.len() implies text[i] < 128 by {
        if v < 0 && i > 0 {
            assert(text[i] == digits_of(n)[i - 1]);
        }
    }
    lemma_ascii_is_text(text);
}

proof fn lemma_point_mark_is(text: Seq<u8>, p: int)
    requires
        0 <= p <= text.len(),
        forall|j: int| 0 <= j < p ==> text[j] != 46,
        p == text.len() || text[p] == 46,
    ensures
        point_mark(text) == p,
    decreases p,
{
    if p > 0 {
        let rest = text.skip(1);
        assert(text[0] != 46);
        assert forall|j: int| 0 <= j < p - 1 implies rest[j] != 46 by {
            assert(rest[j] == text[j + 1]);
        }
        if p < text.len() {
            assert(rest[p - 1] == text[p]);
        }
        lemma_point_mark_is(rest, p - 1);
    }
}

proof fn lemma_zeros_value(z: Seq<u8>)
    requires
        forall|i: int| 0 <= i < z.len() ==> z[i] == 48,
    ensures
        spaced_value(z) == 0,
    decreases z.len(),
{
    if z.len() > 0 {
        let front = z.drop_last();
        assert forall|i: int| 0 <= i < front.len() implies front[i] == 48 by {
            assert(front[i] == z[i]);
        }
        lemma_zeros_value(front);
    }
}

/// Zeros in front of digits change nothing of their value.
proof fn lemma_value_behind_zeros(z: Seq<u8>, d: Seq<u8>)
    requires
        forall|i: int| 0 <= i < z.len() ==> z[i] == 48,
        all_digits(d),
    ensures
        all_spaced_digits(z + d),
        spaced_value(z + d) == digits_value(d),
    decreases d.len(),
{
    if d.len() == 0 {
        assert(z + d =~= z);
        lemma_zeros_value(z);
    } else {
        let front = d.drop_last();
        assert forall|i: int| 0 <= i < front.len() implies is_digit(#[trigger] front[i]) by {
            assert(front[i] == d[i]);
        }
        lemma_value_behind_zeros(z, front);
        assert((z + d).drop_last() =~= z + front);
        assert((z + d).last() == d.last());
        assert(is_digit(d.last()));
    }
    assert forall|i: int| 0 <= i < (z + d).len() implies is_digit(#[trigger] (z + d)[i]) by {
        if i >= z.len() {
            assert((z + d)[i] == d[i - z.len()]);
        }
    }
}

/// Each zero behind digits makes their value ten times as large.
proof fn lemma_value_before_zeros(d: Seq<u8>, k: nat)
    requires
        all_digits(d),
    ensures
        all_spaced_digits(d + zeros(k)),
        spaced_value(d + zeros(k)) == digits_value(d) * pow10(k),
    decreases k,
{
    let whole = d + zeros(k);
    if k == 0 {
        assert(whole =~= d);
        lemma_spaced_is_plain(d);
        assert(pow10(0) == 1);
        assert(digits_value(d) * 1 == digits_value(d));
    } else {
        let fewer = (k - 1) as nat;
        lemma_value_before_zeros(d, fewer);
        assert(whole.drop_last() =~= d + zeros(fewer));
        assert(whole.last() == 48);
        assert(spaced_value(whole) == spaced_value(d + zeros(fewer)) * 10);
        assert(digits_value(d) * pow10(k) == digits_value(d) * pow10(fewer) * 10)
            by (nonlinear_arith)
            requires
                pow10(k) == 10 * pow10(fewer),
        ;
    }
    assert forall|i: int| 0 <= i < whole.len() implies is_digit(#[trigger] whole[i]) by {
        if i < d.len() {
            assert(whole[i] == d[i]);
        }
    }
}

/// A text of digits, signs and points names no exponent and is text.
proof fn lemma_plain_text(text: Seq<u8>)
    requires
        forall|i: int|
            0 <= i < text.len() ==> is_digit(#[trigger] text[i]) || text[i] == 45 || text[i] == 46,
    ensures
        exponent_mark(text) == text.len(),
        exponent_ok(text),
        exponent_of(text) == Some(0i64),
        text.take(text.len() as int) == text,
        valid_utf8(text),
{
    lemma_exponent_mark_is(text, text.len() as int);
    lemma_ascii_is_text(text);
    assert(text.take(text.len() as int) =~= text);
}

/// The number that the text of a decimal is read as: the decimal itself,
/// or, where its scale is below zero, the same number with the scale zero,
/// since its text has the zeros written out.
pub open spec fn written_out(unscaled: int, scale: int) -> (int, int) {
    if scale >= 0 {
        (unscaled, scale)
    } else {
        (unscaled * pow10((-scale) as nat), 0int)
    }
}

/// The digits of the number without its sign.
pub open spec fn magnitude_digits(unscaled: int) -> Seq<u8> {
    digits_of(
        (if unscaled < 0 {
            -unscaled
        } else {
            unscaled
        }) as nat,
    )
}

/// The sign that the text of a number begins with.
pub open spec fn sign_text(unscaled: int) -> Seq<u8> {
    if unscaled < 0 {
        seq![45u8]
    } else {
        Seq::<u8>::empty()
    }
}

proof fn lemma_round_trip_small(unscaled: int, scale: int)
    requires
        scale >= magnitude_digits(unscaled).len(),
    ensures
        bigdecimal_from_text(bigdecimal_text(unscaled, scale)) == Some((unscaled, scale)),
        BigDecimal::of_store_bytes(bigdecimal_text(unscaled, scale)) == Some((unscaled, scale)),
{
    let text = bigdecimal_text(unscaled, scale);
    let digits = magnitude_digits(unscaled);
    let n = digits.len() as int;
    let sign = sign_text(unscaled);
    let lead = sign.len() as int;
    lemma_digits_of(
        (if unscaled < 0 {
            -unscaled
        } else {
            unscaled
        }) as nat,
    );
    let filling = zeros((scale - n) as nat);
    let z = seq![48u8] + filling;
    let body = z + digits;
    assert(text == sign + seq![48u8, 46u8] + filling + digits);
    assert(text.len() == lead + 2 + (scale - n) + n);
    assert forall|i: int| 0 <= i < text.len() implies is_digit(#[trigger] text[i]) || text[i]
        == 45 || text[i] == 46 by {
        if i >= lead + 2 + filling.len() {
            assert(text[i] == digits[i - lead - 2 - filling.len()]);
        }
    }
    lemma_plain_text(text);
    assert(text[lead + 1] == 46);
    lemma_point_mark_is(text, lead + 1);
    assert(unpointed(text) =~= sign + body);
    assert(unsigned_part(sign + body) =~= body);
    lemma_value_behind_zeros(z, digits);
    assert(body[0] == 48);
}

proof fn lemma_round_trip_whole(unscaled: int, scale: int)
    requires
        scale <= 0,
    ensures
        bigdecimal_from_text(bigdecimal_text(unscaled, scale)) == Some(
            written_out(unscaled, scale),
        ),
        BigDecimal::of_store_bytes(bigdecimal_text(unscaled, scale)) == Some(
            written_out(unscaled, scale),
        ),
{
    let text = bigdecimal_text(unscaled, scale);
    let magnitude = (if unscaled < 0 {
        -unscaled
    } else {
        unscaled
    }) as nat;
    let digits = magnitude_digits(unscaled);
    let n = digits.len() as int;
    let sign = sign_text(unscaled);
    let lead = sign.len() as int;
    lemma_digits_of(magnitude);
    let k = (-scale) as nat;
    let body = digits + zeros(k);
    assert(text =~= sign + body);
    assert forall|i: int| 0 <= i < text.len() implies is_digit(#[trigger] text[i]) || text[i]
        == 45 by {
        if lead <= i < lead + n {
            assert(text[i] == digits[i - lead]);
        }
    }
    lemma_plain_text(text);
    lemma_point_mark_is(text, text.len() as int);
    assert(unsigned_part(text) =~= body);
    lemma_value_before_zeros(digits, k);
    assert(body[0] == digits[0]);
    assert(pow10(0) == 1);
    assert((-(magnitude as int)) * pow10(k) == -(magnitude * pow10(k))) by (nonlinear_arith);
    assert(magnitude * 1 == magnitude);
}

proof fn lemma_round_trip_split(unscaled: int, scale: int)
    requires
        0 < scale < magnitude_digits(unscaled).len(),
    ensures
        bigdecimal_from_text(bigdecimal_text(unscaled, scale)) == Some((unscaled, scale)),
        BigDecimal::of_store_bytes(bigdecimal_text(unscaled, scale)) == Some((unscaled, scale)),
{
    let text = bigdecimal_text(unscaled, scale);
    let digits = magnitude_digits(unscaled);
    let n = digits.len() as int;
    let sign = sign_text(unscaled);
    let lead = sign.len() as int;
    lemma_digits_of(
        (if unscaled < 0 {
            -unscaled
        } else {
            unscaled
        }) as nat,
    );
    lemma_bigint_round_trip(unscaled);
    assert(decimal_text(unscaled) =~= sign + digits);
    let whole = digits.take(n - scale);
    let part = digits.skip(n - scale);
    assert(text == sign + whole + seq![46u8] + part);
    assert(text.len() == lead + n + 1);
    assert forall|i: int| 0 <= i < text.len() implies is_digit(#[trigger] text[i]) || text[i]
        == 45 || text[i] == 46 by {
        if lead <= i < lead + n - scale {
            assert(text[i] == digits[i - lead]);
        } else if i > lead + n - scale {
            assert(text[i] == digits[i - lead - 1]);
        }
    }
    lemma_plain_text(text);
    assert forall|j: int| 0 <= j < lead + n - scale implies text[j] != 46 by {
        if lead <= j {
            assert(text[j] == digits[j - lead]);
        }
    }
    assert(text[lead + n - scale] == 46);
    lemma_point_mark_is(text, lead + n - scale);
    assert(unpointed(text) =~= sign + digits);
}

/// Reading the text of a decimal gives the decimal back, from a text and
/// from stored bytes: with its digits and its scale, or, where the scale is
/// below zero, with the zeros written out.
pub proof fn lemma_bigdecimal_round_trip(unscaled: int, scale: int)
    ensures
        bigdecimal_from_text(bigdecimal_text(unscaled, scale)) == Some(
            written_out(unscaled, scale),
        ),
        BigDecimal::of_store_bytes(bigdecimal_text(unscaled, scale)) == Some(
            written_out(unscaled, scale),
        ),
{
    if scale <= 0 {
        lemma_round_trip_whole(unscaled, scale);
    } else if scale >= magnitude_digits(unscaled).len() {
        lemma_round_trip_small(unscaled, scale);
    } else {
        lemma_round_trip_split(unscaled, scale);
    }
}

/// `base` to the power `exp`.
pub open spec fn power(base: int, exp: nat) -> int
    decreases exp,
{
    if exp == 0 {
        1
    } else {
        base * power(base, (exp - 1) as nat)
    }
}

/// The number that big-endian bytes stand for.
pub open spec fn be_value(bytes: Seq<u8>) -> nat
    decreases bytes.len(),
{
    if bytes.len() == 0 {
        0
    } else {
        be_value(bytes.drop_last()) * 256 + bytes.last() as nat
    }
}

/// The sign of `v`.
pub open spec fn sign_of(v: int) -> Sign {
    if v < 0 {
        Sign::Minus
    } else if v == 0 {
        Sign::NoSign
    } else {
        Sign::Plus
    }
}

/// `v` without its sign.
pub open spec fn magnitude(v: int) -> nat {
    if v < 0 {
        (-v) as nat
    } else {
        v as nat
    }
}

/// The difference of two numbers, each given by its unscaled digits and its
/// scale: it has the larger of the two scales.
pub open spec fn bigdecimal_difference(a: (int, int), b: (int, int)) -> (int, int) {
    (rescaled(a, wider(a, b)) - rescaled(b, wider(a, b)), wider(a, b))
}

/// The number, given by its unscaled digits and its scale, is one.
pub open spec fn is_unit(a: (int, int)) -> bool {
    a.1 >= 0 && a.0 == pow10(a.1 as nat)
}

/// The product of two numbers, each given by its unscaled digits and its
/// scale: the product of the digits at the sum of the scales, but the other
/// number as it stands where one of the two is one.
pub open spec fn bigdecimal_product(a: (int, int), b: (int, int)) -> (int, int) {
    if is_unit(a) {
        b
    } else if is_unit(b) {
        a
    } else {
        (a.0 * b.0, a.1 + b.1)
    }
}

/// The whole part of the number with these unscaled digits and this scale:
/// the number without what stands behind the point.
pub open spec fn whole_part(unscaled: int, scale: int) -> int {
    if scale <= 0 {
        unscaled * pow10((-scale) as nat)
    } else {
        truncated_quotient(unscaled, pow10(scale as nat) as int)
    }
}

/// The unscaled digits and the scale of the quotient that `bigdecimal` gives
/// for two numbers, each given by its unscaled digits and its scale. The
/// crate works the quotient out to at most a hundred digits and rounds.
pub uninterp spec fn bigdecimal_quotient(
    unscaled: int,
    scale: int,
    by_unscaled: int,
    by_scale: int,
) -> (int, int);

proof fn lemma_reversed_value(b: Seq<u8>, r: Seq<u8>)
    requires
        r.len() == b.len(),
        forall|k: int| 0 <= k < r.len() ==> r[k] == b[b.len() - 1 - k],
    ensures
        le_value(r) == be_value(b),
    decreases b.len(),
{
    if b.len() > 0 {
        let front = b.drop_last();
        let rest = r.skip(1);
        assert forall|k: int| 0 <= k < rest.len() implies rest[k] == front[front.len() - 1 - k] by {
            assert(rest[k] == r[k + 1]);
        }
        lemma_reversed_value(front, rest);
        assert(r[0] == b.last());
    }
}

/// The bytes of `bytes`, last to first.
fn backwards(bytes: &[u8]) -> (out: Vec<u8>)
    ensures
        out@.len() == bytes@.len(),
        forall|k: int| 0 <= k < out@.len() ==> out@[k] == bytes@[bytes@.len() - 1 - k],
{
    let n = bytes.len();
    let mut out: Vec<u8> = Vec::new();
    let mut i: usize = n;
    while i > 0
        invariant
            n == bytes@.len(),
            i <= n,
            out@.len() == n - i,
            forall|k: int| 0 <= k < out@.len() ==> out@[k] == bytes@[n - 1 - k],
        decreases i,
    {
        i = i - 1;
        out.push(bytes[i]);
    }
    out
}

/// The quotient of `a` by `b`, rounded toward zero.
pub open spec fn truncated_quotient(a: int, b: int) -> int {
    let ua = if a < 0 {
        -a
    } else {
        a
    };
    let ub = if b < 0 {
        -b
    } else {
        b
    };
    if b == 0 {
        0
    } else if (a < 0) == (b < 0) {
        ua / ub
    } else {
        -(ua / ub)
    }
}

/// The number that little-endian bytes stand for.
pub open spec fn le_value(bytes: Seq<u8>) -> nat
    decreases bytes.len(),
{
    if bytes.len() == 0 {
        0
    } else {
        bytes[0] as nat + 256 * le_value(bytes.skip(1))
    }
}

/// 256 to the power `k`.
pub open spec fn pow256(k: nat) -> nat
    decreases k,
{
    if k == 0 {
        1
    } else {
        256 * pow256((k - 1) as nat)
    }
}

proof fn lemma_pow256_small()
    ensures
        pow256(0) == 1,
        pow256(1) == 0x100,
        pow256(2) == 0x1_0000,
        pow256(3) == 0x100_0000,
        pow256(4) == 0x1_0000_0000,
        pow256(5) == 0x100_0000_0000,
        pow256(6) == 0x1_0000_0000_0000,
        pow256(7) == 0x100_0000_0000_0000,
        pow256(8) == 0x1_0000_0000_0000_0000,
{
    assert(pow256(1) == 256 * pow256(0));
    assert(pow256(2) == 256 * pow256(1));
    assert(pow256(3) == 256 * pow256(2));
    assert(pow256(4) == 256 * pow256(3));
    assert(pow256(5) == 256 * pow256(4));
    assert(pow256(6) == 256 * pow256(5));
    assert(pow256(7) == 256 * pow256(6));
    assert(pow256(8) == 256 * pow256(7));
}

proof fn lemma_pow256_grows(a: nat, b: nat)
    requires
        a <= b,
    ensures
        pow256(a) <= pow256(b),
        pow256(a) >= 1,
    decreases b,
{
    if a == 0 {
        if b > 0 {
            lemma_pow256_grows(0, (b - 1) as nat);
        }
    } else {
        lemma_pow256_grows((a - 1) as nat, (b - 1) as nat);
    }
}

proof fn lemma_le_value_bounds(bytes: Seq<u8>)
    ensures
        le_value(bytes) < pow256(bytes.len()),
        bytes.len() >= 1 && bytes.last() != 0 ==> le_value(bytes) >= pow256(
            (bytes.len() - 1) as nat,
        ),
    decreases bytes.len(),
{
    if bytes.len() > 0 {
        let rest = bytes.skip(1);
        lemma_le_value_bounds(rest);
        if bytes.len() >= 2 {
            assert(rest.last() == bytes.last());
        }
    }
}

/// Why a big integer does not fit a machine integer.
#[derive(Debug, Clone, Copy, PartialEq, Eq, Structural)]
pub enum BigIntOutOfRangeError {
    /// The number is below zero.
    Negative,
    /// The number is above the largest value of the type.
    Overflow,
}

/// The sign of a big integer.
#[derive(Debug, Clone, Copy, PartialEq, Eq, Structural)]
pub enum Sign {
    /// Below zero.
    Minus,
    /// Zero.
    NoSign,
    /// Above zero.
    Plus,
}

/// An integer of any size. The number itself is a `num_bigint::BigInt`,
/// which the verifier does not look into: [`bigint_value`] names what it
/// holds.
#[verifier::external_body]
pub struct BigInt {
    inner: num_bigint::BigInt,
}

impl View for BigInt {
    type V = int;

    open spec fn view(&self) -> int {
        bigint_value(*self)
    }
}

impl BigInt {
    /// `num_bigint::BigInt::from(i64)`: the big integer with the value of
    /// `v`.
    #[verifier::external_body]
    pub(crate) fn of_i64(v: i64) -> (n: BigInt)
        ensures
            bigint_value(n) == v,
    {
        BigInt { inner: num_bigint::BigInt::from(v) }
    }

    /// `num_bigint::BigInt::from(u64)`: the big integer with the value of
    /// `v`.
    #[verifier::external_body]
    pub(crate) fn of_u64(v: u64) -> (n: BigInt)
        ensures
            bigint_value(n) == v,
    {
        BigInt { inner: num_bigint::BigInt::from(v) }
    }

    /// `num_bigint::BigInt::from_str`: the integer that the crate reads from
    /// `text`, or `None` where it rejects the text. The crate takes off one
    /// sign, rejects what is then empty or begins with `_`, passes over every
    /// other `_`, and rejects any byte that is no digit.
    #[verifier::external_body]
    pub(crate) fn parse_text(text: &str) -> (n: Option<BigInt>)
        ensures
            match n {
                Some(n) => bigint_from_text(text.spec_bytes()) == Some(bigint_value(n)),
                None => bigint_from_text(text.spec_bytes()) is None,
            },
    {
        match <num_bigint::BigInt as core::str::FromStr>::from_str(text) {
            Ok(inner) => Some(BigInt { inner }),
            Err(_) => None,
        }
    }

    /// `num_bigint::BigInt::to_string`, as bytes: the shortest decimal text
    /// of the number, with a leading `-` if it is negative.
    #[verifier::external_body]
    pub(crate) fn text_bytes(&self) -> (text: Vec<u8>)
        ensures
            text@ == decimal_text(bigint_value(*self)),
    {
        self.inner.to_string().into_bytes()
    }

    /// `num_bigint::BigInt::to_bytes_le`: whether the number is negative,
    /// and its magnitude as little-endian bytes, as few as hold it (one zero
    /// byte for zero).
    #[verifier::external_body]
    pub(crate) fn magnitude_le(&self) -> (out: (bool, Vec<u8>))
        ensures
            out.0 == (bigint_value(*self) < 0),
            le_value(out.1@) == if bigint_value(*self) < 0 {
                -bigint_value(*self)
            } else {
                bigint_value(*self)
            },
            out.1@.len() >= 1,
            out.1@.len() > 1 ==> out.1@.last() != 0,
    {
        let (sign, bytes) = self.inner.to_bytes_le();
        (sign == num_bigint::Sign::Minus, bytes)
    }

    /// `num_bigint::BigInt::from_bytes_le`: the number with the sign `sign`
    /// and the magnitude that the little-endian bytes stand for; zero where
    /// the sign is `NoSign` or there are no bytes.
    #[verifier::external_body]
    pub(crate) fn of_bytes_le(sign: Sign, bytes: &[u8]) -> (n: BigInt)
        ensures
            bigint_value(n) == match sign {
                Sign::Minus => -(le_value(bytes@) as int),
                Sign::NoSign => 0,
                Sign::Plus => le_value(bytes@) as int,
            },
    {
        let sign = match sign {
            Sign::Minus => num_bigint::Sign::Minus,
            Sign::NoSign => num_bigint::Sign::NoSign,
            Sign::Plus => num_bigint::Sign::Plus,
        };
        BigInt { inner: num_bigint::BigInt::from_bytes_le(sign, bytes) }
    }

    /// `num_traits::Pow::pow` of a `num_bigint::BigInt` and a `u32`: the
    /// number to that power; the power zero gives one.
    #[verifier::external_body]
    pub(crate) fn raised(&self, exponent: u32) -> (n: BigInt)
        ensures
            bigint_value(n) == power(bigint_value(*self), exponent as nat),
    {
        BigInt { inner: num_traits::Pow::pow(&self.inner, exponent) }
    }

    /// `num_bigint::BigInt` addition: the sum.
    #[verifier::external_body]
    pub(crate) fn plus(&self, other: &BigInt) -> (n: BigInt)
        ensures
            bigint_value(n) == bigint_value(*self) + bigint_value(*other),
    {
        BigInt { inner: &self.inner + &other.inner }
    }

    /// `num_bigint::BigInt` subtraction: the difference.
    #[verifier::external_body]
    pub(crate) fn minus(&self, other: &BigInt) -> (n: BigInt)
        ensures
            bigint_value(n) == bigint_value(*self) - bigint_value(*other),
    {
        BigInt { inner: &self.inner - &other.inner }
    }

    /// `num_bigint::BigInt` multiplication: the product.
    #[verifier::external_body]
    pub(crate) fn times(&self, other: &BigInt) -> (n: BigInt)
        ensures
            bigint_value(n) == bigint_value(*self) * bigint_value(*other),
    {
        BigInt { inner: &self.inner * &other.inner }
    }

    /// `num_bigint::BigInt` division: the quotient, rounded toward zero. The
    /// crate panics on a zero divisor, which is left out.
    #[verifier::external_body]
    pub(crate) fn over(&self, other: &BigInt) -> (n: BigInt)
        requires
            bigint_value(*other) != 0,
        ensures
            bigint_value(n) == truncated_quotient(bigint_value(*self), bigint_value(*other)),
    {
        BigInt { inner: &self.inner / &other.inner }
    }

    /// `num_bigint::BigInt`'s `<`: whether this number is the smaller one.
    #[verifier::external_body]
    pub(crate) fn below(&self, other: &BigInt) -> (less: bool)
        ensures
            less == (bigint_value(*self) < bigint_value(*other)),
    {
        self.inner < other.inner
    }

    /// `num_bigint::BigInt::clone`: the same number again.
    #[verifier::external_body]
    pub(crate) fn copy(&self) -> (n: BigInt)
        ensures
            bigint_value(n) == bigint_value(*self),
    {
        BigInt { inner: self.inner.clone() }
    }

    /// The big integer with the value of `v`.
    pub fn from_i64(v: i64) -> (n: BigInt)
        ensures
            n@ == v,
    {
        BigInt::of_i64(v)
    }

    /// The big integer with the value of `v`.
    pub fn from_u64(v: u64) -> (n: BigInt)
        ensures
            n@ == v,
    {
        BigInt::of_u64(v)
    }

    /// The integer zero.
    pub fn zero() -> (n: BigInt)
        ensures
            n@ == 0,
    {
        BigInt::of_i64(0)
    }

    /// The integer one.
    pub fn one() -> (n: BigInt)
        ensures
            n@ == 1,
    {
        BigInt::of_i64(1)
    }

    /// Whether the number is zero.
    pub fn is_zero(&self) -> (zero: bool)
        ensures
            zero == (self@ == 0),
    {
        self.equals(&BigInt::of_i64(0))
    }

    /// Whether the number is one.
    pub fn is_one(&self) -> (one: bool)
        ensures
            one == (self@ == 1),
    {
        self.equals(&BigInt::of_i64(1))
    }

    /// The number with its sign turned.
    pub fn neg(&self) -> (n: BigInt)
        ensures
            n@ == -self@,
    {
        BigInt::of_i64(0).minus(self)
    }

    /// The number without its sign.
    pub fn absolute(&self) -> (n: BigInt)
        ensures
            n@ == if self@ < 0 {
                -self@
            } else {
                self@
            },
    {
        if self.below(&BigInt::of_i64(0)) {
            self.neg()
        } else {
            self.copy()
        }
    }

    /// The sum of two numbers.
    pub fn add(&self, other: &BigInt) -> (n: BigInt)
        ensures
            n@ == self@ + other@,
    {
        self.plus(other)
    }

    /// The difference of two numbers.
    pub fn sub(&self, other: &BigInt) -> (n: BigInt)
        ensures
            n@ == self@ - other@,
    {
        self.minus(other)
    }

    /// The product of two numbers.
    pub fn mul(&self, other: &BigInt) -> (n: BigInt)
        ensures
            n@ == self@ * other@,
    {
        self.times(other)
    }

    /// The quotient of this number by `other`, rounded toward zero. The
    /// divisor must not be zero.
    pub fn div(&self, other: &BigInt) -> (n: BigInt)
        requires
            other@ != 0,
        ensures
            n@ == truncated_quotient(self@, other@),
    {
        self.over(other)
    }

    /// Whether both numbers are the same.
    pub fn equals(&self, other: &BigInt) -> (same: bool)
        ensures
            same == (self@ == other@),
    {
        !self.below(other) && !other.below(self)
    }

    /// Whether this number is smaller than `other`.
    pub fn lt(&self, other: &BigInt) -> (less: bool)
        ensures
            less == (self@ < other@),
    {
        self.below(other)
    }

    /// The number as a `u64`, or why it is none: it is negative, or it is
    /// too large.
    pub fn try_to_u64(&self) -> (out: Result<u64, BigIntOutOfRangeError>)
        ensures
            match out {
                Ok(v) => self@ == v,
                Err(BigIntOutOfRangeError::Negative) => self@ < 0,
                Err(BigIntOutOfRangeError::Overflow) => self@ > u64::MAX,
            },
    {
        let (negative, bytes) = self.magnitude_le();
        if negative {
            return Err(BigIntOutOfRangeError::Negative);
        }
        let len = bytes.len();
        proof {
            lemma_pow256_small();
        }
        if len > 8 {
            proof {
                lemma_le_value_bounds(bytes@);
                lemma_pow256_grows(8, (len - 1) as nat);
            }
            return Err(BigIntOutOfRangeError::Overflow);
        }
        let mut n: u64 = 0;
        let mut i: usize = len;
        proof {
            assert(bytes@.skip(len as int) =~= Seq::<u8>::empty());
        }
        while i > 0
            invariant
                len == bytes@.len(),
                len <= 8,
                i <= len,
                n == le_value(bytes@.skip(i as int)),
            decreases i,
        {
            proof {
                lemma_pow256_small();
                lemma_le_value_bounds(bytes@.skip(i as int));
                lemma_pow256_grows((len - i) as nat, 7);
                let next = bytes@.skip(i - 1);
                assert(next.skip(1) =~= bytes@.skip(i as int));
                assert(next[0] == bytes@[i - 1]);
            }
            i = i - 1;
            n = n * 256 + bytes[i] as u64;
        }
        proof {
            assert(bytes@.skip(0) =~= bytes@);
        }
        Ok(n)
    }

    /// The number as a `u64`. It must be one.
    pub fn to_u64(&self) -> (v: u64)
        requires
            0 <= self@ <= u64::MAX,
        ensures
            v == self@,
    {
        match self.try_to_u64() {
            Ok(v) => v,
            Err(_) => vstd::pervasive::unreached(),
        }
    }

    /// The number to the power `exponent`.
    pub fn pow(self, exponent: u32) -> (n: BigInt)
        ensures
            n@ == power(self@, exponent as nat),
    {
        self.raised(exponent)
    }

    /// The number that little-endian bytes stand for.
    pub fn from_unsigned_bytes_le(bytes: &[u8]) -> (n: BigInt)
        ensures
            n@ == le_value(bytes@),
    {
        BigInt::of_bytes_le(Sign::Plus, bytes)
    }

    /// The number that big-endian bytes stand for.
    pub fn from_unsigned_bytes_be(bytes: &[u8]) -> (n: BigInt)
        ensures
            n@ == be_value(bytes@),
    {
        let turned = backwards(bytes);
        proof {
            lemma_reversed_value(bytes@, turned@);
        }
        BigInt::of_bytes_le(Sign::Plus, turned.as_slice())
    }

    /// The number with the sign `sign` and the magnitude that little-endian
    /// bytes stand for; zero where the sign is `NoSign`.
    pub fn from_bytes_le(sign: Sign, bytes: &[u8]) -> (n: BigInt)
        ensures
            n@ == match sign {
                Sign::Minus => -(le_value(bytes@) as int),
                Sign::NoSign => 0,
                Sign::Plus => le_value(bytes@) as int,
            },
    {
        BigInt::of_bytes_le(sign, bytes)
    }

    /// The sign of the number, and its magnitude as little-endian bytes, as
    /// few as hold it: one zero byte for zero.
    pub fn to_bytes_le(&self) -> (out: (Sign, Vec<u8>))
        ensures
            out.0 == sign_of(self@),
            le_value(out.1@) == magnitude(self@),
            out.1@.len() >= 1,
            out.1@.len() > 1 ==> out.1@.last() != 0,
    {
        let (negative, bytes) = self.magnitude_le();
        let sign = if negative {
            Sign::Minus
        } else if self.is_zero() {
            Sign::NoSign
        } else {
            Sign::Plus
        };
        (sign, bytes)
    }

    /// The sign of the number, and its magnitude as big-endian bytes, as few
    /// as hold it: one zero byte for zero.
    pub fn to_bytes_be(&self) -> (out: (Sign, Vec<u8>))
        ensures
            out.0 == sign_of(self@),
            be_value(out.1@) == magnitude(self@),
            out.1@.len() >= 1,
            out.1@.len() > 1 ==> out.1@[0] != 0,
    {
        let (sign, bytes) = self.to_bytes_le();
        let turned = backwards(bytes.as_slice());
        proof {
            lemma_reversed_value(turned@, bytes@);
        }
        (sign, turned)
    }

    /// The number as a decimal, divided by ten to the power `decimals`,
    /// which, taken as a scale, is in range.
    pub fn to_decimal(&self, decimals: u64) -> (d: BigDecimal)
        requires
            decimals <= 0x2000_0000_0000_0000,
        ensures
            d@ == bigdecimal_quotient(self@, 0, 1, -(decimals as int)),
    {
        BigDecimal::divide_by_decimals(BigDecimal::with_scale(self.copy(), 0), decimals)
    }

    /// The decimal text of the number, as the stores hold it.
    pub fn to_store_bytes(&self) -> (text: Vec<u8>)
        ensures
            text@ == decimal_text(self@),
    {
        self.text_bytes()
    }

    /// The number that `text` stands for; `None` if it stands for none.
    pub fn parse(text: &str) -> (n: Option<BigInt>)
        ensures
            match n {
                Some(n) => bigint_from_text(text.spec_bytes()) == Some(n@),
                None => bigint_from_text(text.spec_bytes()) is None,
            },
    {
        BigInt::parse_text(text)
    }

    /// The integer that stored bytes stand for: zero for no bytes at all,
    /// else what the bytes say as UTF-8 decimal text.
    pub open spec fn of_store_bytes(bytes: Seq<u8>) -> Option<int> {
        if bytes.len() == 0 {
            Some(0int)
        } else if valid_utf8(bytes) {
            bigint_from_text(bytes)
        } else {
            None
        }
    }

    /// Reads stored bytes as a number; `None` if they hold none.
    pub fn try_from_store_bytes(bytes: &[u8]) -> (n: Option<BigInt>)
        ensures
            match n {
                Some(n) => BigInt::of_store_bytes(bytes@) == Some(n@),
                None => BigInt::of_store_bytes(bytes@) is None,
            },
    {
        if bytes.len() == 0 {
            return Some(BigInt::zero());
        }
        match str_from_utf8(bytes) {
            Some(text) => {
                proof {
                    decode_utf8_encode_utf8(bytes@);
                }
                BigInt::parse_text(text)
            },
            None => None,
        }
    }

    /// Reads stored bytes as a number. The bytes must hold one.
    pub fn from_store_bytes(bytes: &[u8]) -> (n: BigInt)
        requires
            BigInt::of_store_bytes(bytes@) is Some,
        ensures
            BigInt::of_store_bytes(bytes@) == Some(n@),
    {
        BigInt::try_from_store_bytes(bytes).unwrap()
    }
}

/// A decimal number of any size and precision. The number itself is a
/// `bigdecimal::BigDecimal`, which the verifier does not look into:
/// [`decimal_unscaled`] and [`decimal_scale`] name what it holds.
#[verifier::external_body]
pub struct BigDecimal {
    inner: bigdecimal::BigDecimal,
}

impl View for BigDecimal {
    type V = (int, int);

    open spec fn view(&self) -> (int, int) {
        (decimal_unscaled(*self), decimal_scale(*self))
    }
}

impl BigDecimal {
    /// `bigdecimal::BigDecimal::new`: the decimal with these unscaled digits
    /// and this scale.
    #[verifier::external_body]
    pub(crate) fn with_scale(digits: BigInt, scale: i64) -> (d: BigDecimal)
        ensures
            decimal_unscaled(d) == bigint_value(digits),
            decimal_scale(d) == scale,
    {
        BigDecimal { inner: bigdecimal::BigDecimal::new(digits.inner, scale) }
    }

    /// `bigdecimal::BigDecimal::from_str`: the number that the crate reads
    /// from `text`, or `None` where it rejects the text. The crate cuts the
    /// text at its first `e` or `E` and reads what is behind it, less one
    /// `+`, as a 64-bit exponent; it takes the first `.` out of what is in
    /// front, reads the rest as a big integer, and counts the bytes that
    /// stood behind the `.`. The crate takes the exponent from that count,
    /// which overflows for an exponent near the smallest 64-bit number: such
    /// texts are left out.
    #[verifier::external_body]
    pub(crate) fn parse_text(text: &str) -> (d: Option<BigDecimal>)
        requires
            exponent_ok(text.spec_bytes()),
        ensures
            match d {
                Some(d) => bigdecimal_from_text(text.spec_bytes()) == Some(
                    (decimal_unscaled(d), decimal_scale(d)),
                ),
                None => bigdecimal_from_text(text.spec_bytes()) is None,
            },
    {
        match <bigdecimal::BigDecimal as core::str::FromStr>::from_str(text) {
            Ok(inner) => Some(BigDecimal { inner }),
            Err(_) => None,
        }
    }

    /// `bigdecimal::BigDecimal::to_string`, as bytes: the digits of the
    /// number with its sign and its decimal point, never an exponent, and
    /// every zero that the scale asks for. The crate takes the scale from
    /// the number of digits in 64-bit arithmetic, so the scale is kept in
    /// range.
    #[verifier::external_body]
    pub(crate) fn text_bytes(&self) -> (text: Vec<u8>)
        requires
            scale_in_range(decimal_scale(*self)),
        ensures
            text@ == bigdecimal_text(decimal_unscaled(*self), decimal_scale(*self)),
    {
        self.inner.to_string().into_bytes()
    }

    /// `bigdecimal::BigDecimal::as_bigint_and_exponent`: the unscaled digits
    /// and the scale.
    #[verifier::external_body]
    pub(crate) fn parts(&self) -> (out: (BigInt, i64))
        ensures
            bigint_value(out.0) == decimal_unscaled(*self),
            out.1 == decimal_scale(*self),
    {
        let (inner, scale) = self.inner.as_bigint_and_exponent();
        (BigInt { inner }, scale)
    }

    /// `bigdecimal`'s `+` on two references: the sum, which the crate forms
    /// by bringing the number with the smaller scale to the larger one and
    /// adding the unscaled digits. The crate takes one scale from the other
    /// in 64-bit arithmetic, so both are kept in range.
    #[verifier::external_body]
    pub(crate) fn plus(&self, other: &BigDecimal) -> (d: BigDecimal)
        requires
            scale_in_range(decimal_scale(*self)),
            scale_in_range(decimal_scale(*other)),
        ensures
            (decimal_unscaled(d), decimal_scale(d)) == bigdecimal_sum(
                (decimal_unscaled(*self), decimal_scale(*self)),
                (decimal_unscaled(*other), decimal_scale(*other)),
            ),
    {
        BigDecimal { inner: &self.inner + &other.inner }
    }

    /// `bigdecimal`'s `-` on two references: the difference, which the crate
    /// forms by bringing the number with the smaller scale to the larger one
    /// and taking one's unscaled digits from the other's. The crate takes
    /// one scale from the other in 64-bit arithmetic, so both are kept in
    /// range.
    #[verifier::external_body]
    pub(crate) fn minus(&self, other: &BigDecimal) -> (d: BigDecimal)
        requires
            scale_in_range(decimal_scale(*self)),
            scale_in_range(decimal_scale(*other)),
        ensures
            (decimal_unscaled(d), decimal_scale(d)) == bigdecimal_difference(
                (decimal_unscaled(*self), decimal_scale(*self)),
                (decimal_unscaled(*other), decimal_scale(*other)),
            ),
    {
        BigDecimal { inner: &self.inner - &other.inner }
    }

    /// `bigdecimal`'s `*` on two values: where one of the two is one, the
    /// other as it stands; else the product of the unscaled digits at the
    /// sum of the scales. The crate adds the scales, and compares each
    /// number with one at the larger scale, in 64-bit arithmetic, so both
    /// scales are kept in range.
    #[verifier::external_body]
    pub(crate) fn times(&self, other: &BigDecimal) -> (d: BigDecimal)
        requires
            scale_in_range(decimal_scale(*self)),
            scale_in_range(decimal_scale(*other)),
        ensures
            (decimal_unscaled(d), decimal_scale(d)) == bigdecimal_product(
                (decimal_unscaled(*self), decimal_scale(*self)),
                (decimal_unscaled(*other), decimal_scale(*other)),
            ),
    {
        BigDecimal { inner: self.inner.clone() * other.inner.clone() }
    }

    /// `bigdecimal`'s `/` on two references: the quotient as the crate works
    /// it out, to at most a hundred digits. The crate panics on a zero
    /// divisor, which is left out, and takes one scale from the other in
    /// 64-bit arithmetic, so both are kept in range.
    #[verifier::external_body]
    pub(crate) fn over(&self, other: &BigDecimal) -> (d: BigDecimal)
        requires
            decimal_unscaled(*other) != 0,
            scale_in_range(decimal_scale(*self)),
            scale_in_range(decimal_scale(*other)),
        ensures
            (decimal_unscaled(d), decimal_scale(d)) == bigdecimal_quotient(
                decimal_unscaled(*self),
                decimal_scale(*self),
                decimal_unscaled(*other),
                decimal_scale(*other),
            ),
    {
        BigDecimal { inner: &self.inner / &other.inner }
    }

    /// `bigdecimal`'s `to_bigint`: the number brought to the scale zero,
    /// which drops what stands behind the point; the crate always gives a
    /// number. It takes the scale from zero in 64-bit arithmetic, so the
    /// scale is kept in range.
    #[verifier::external_body]
    pub(crate) fn whole(&self) -> (n: Option<BigInt>)
        requires
            scale_in_range(decimal_scale(*self)),
        ensures
            match n {
                Some(v) => bigint_value(v) == whole_part(
                    decimal_unscaled(*self),
                    decimal_scale(*self),
                ),
                None => false,
            },
    {
        match num_bigint::ToBigInt::to_bigint(&self.inner) {
            Some(inner) => Some(BigInt { inner }),
            None => None,
        }
    }

    /// `bigdecimal`'s `<`: whether this number comes before `other`, which
    /// the crate decides by the signs and, where they agree, by the sign of
    /// the difference at the larger scale. The crate takes one scale from
    /// the other in 64-bit arithmetic, so both are kept in range.
    #[verifier::external_body]
    pub(crate) fn below(&self, other: &BigDecimal) -> (less: bool)
        requires
            scale_in_range(decimal_scale(*self)),
            scale_in_range(decimal_scale(*other)),
        ensures
            less == bigdecimal_below(
                (decimal_unscaled(*self), decimal_scale(*self)),
                (decimal_unscaled(*other), decimal_scale(*other)),
            ),
    {
        self.inner < other.inner
    }

    /// Whether the scale of the number is one that arithmetic is offered
    /// for.
    pub fn in_range(&self) -> (ok: bool)
        ensures
            ok == scale_in_range(self@.1),
    {
        let (_, scale) = self.parts();
        -0x2000_0000_0000_0000i64 <= scale && scale <= 0x2000_0000_0000_0000i64
    }

    /// The sum of two numbers whose scales are in range.
    pub fn add(&self, other: &BigDecimal) -> (d: BigDecimal)
        requires
            scale_in_range(self@.1),
            scale_in_range(other@.1),
        ensures
            d@ == bigdecimal_sum(self@, other@),
    {
        self.plus(other)
    }

    /// The difference of two numbers whose scales are in range.
    pub fn sub(&self, other: &BigDecimal) -> (d: BigDecimal)
        requires
            scale_in_range(self@.1),
            scale_in_range(other@.1),
        ensures
            d@ == bigdecimal_difference(self@, other@),
    {
        self.minus(other)
    }

    /// The product of two numbers whose scales are in range.
    pub fn mul(&self, other: &BigDecimal) -> (d: BigDecimal)
        requires
            scale_in_range(self@.1),
            scale_in_range(other@.1),
        ensures
            d@ == bigdecimal_product(self@, other@),
    {
        self.times(other)
    }

    /// The quotient of this number by `other`, which must not be zero; both
    /// scales are in range.
    pub fn div(&self, other: &BigDecimal) -> (d: BigDecimal)
        requires
            other@.0 != 0,
            scale_in_range(self@.1),
            scale_in_range(other@.1),
        ensures
            d@ == bigdecimal_quotient(self@.0, self@.1, other@.0, other@.1),
    {
        self.over(other)
    }

    /// `amount` divided by ten to the power `decimals`. The scale of
    /// `amount` is in range, and so is `decimals`, taken as a scale.
    pub fn divide_by_decimals(amount: BigDecimal, decimals: u64) -> (d: BigDecimal)
        requires
            scale_in_range(amount@.1),
            decimals <= 0x2000_0000_0000_0000,
        ensures
            d@ == bigdecimal_quotient(amount@.0, amount@.1, 1, -(decimals as int)),
    {
        let by = BigDecimal::new(BigInt::one(), decimals as i64);
        amount.over(&by)
    }

    /// The whole part of the number, whose scale is in range: the number
    /// without what stands behind the point.
    pub fn to_bigint(&self) -> (n: BigInt)
        requires
            scale_in_range(self@.1),
        ensures
            n@ == whole_part(self@.0, self@.1),
    {
        self.whole().unwrap()
    }

    /// Whether this number comes before `other`; both scales are in range.
    pub fn lt(&self, other: &BigDecimal) -> (less: bool)
        requires
            scale_in_range(self@.1),
            scale_in_range(other@.1),
        ensures
            less == bigdecimal_below(self@, other@),
    {
        self.below(other)
    }

    /// The decimal `digits * 10^exp`.
    pub fn new(digits: BigInt, exp: i64) -> (d: BigDecimal)
        requires
            exp != i64::MIN,
        ensures
            d@ == (digits@, -exp),
    {
        BigDecimal::with_scale(digits, -exp)
    }

    /// The decimal zero.
    pub fn zero() -> (d: BigDecimal)
        ensures
            d@ == (0int, 0int),
    {
        BigDecimal::with_scale(BigInt::zero(), 0)
    }

    /// The decimal one.
    pub fn one() -> (d: BigDecimal)
        ensures
            d@ == (1int, 0int),
    {
        BigDecimal::with_scale(BigInt::one(), 0)
    }

    /// The unscaled digits and the scale of the number.
    pub fn as_bigint_and_exponent(&self) -> (out: (BigInt, i64))
        ensures
            out.0@ == self@.0,
            out.1 == self@.1,
    {
        self.parts()
    }

    /// Whether the number is zero.
    pub fn is_zero(&self) -> (zero: bool)
        ensures
            zero == (self@.0 == 0),
    {
        let (digits, _) = self.parts();
        digits.is_zero()
    }

    /// The number with its sign turned.
    pub fn neg(&self) -> (d: BigDecimal)
        ensures
            d@ == (-self@.0, self@.1),
    {
        let (digits, scale) = self.parts();
        BigDecimal::with_scale(digits.neg(), scale)
    }

    /// The number without its sign.
    pub fn absolute(&self) -> (d: BigDecimal)
        ensures
            d@.1 == self@.1,
            d@.0 == if self@.0 < 0 {
                -self@.0
            } else {
                self@.0
            },
    {
        let (digits, scale) = self.parts();
        BigDecimal::with_scale(digits.absolute(), scale)
    }

    /// The text of the number, as the stores hold it. The scale must be in
    /// range.
    pub fn to_store_bytes(&self) -> (text: Vec<u8>)
        requires
            scale_in_range(self@.1),
        ensures
            text@ == bigdecimal_text(self@.0, self@.1),
    {
        self.text_bytes()
    }

    /// The text of the number, as the stores hold it, or `None` if the scale
    /// is out of range.
    pub fn try_to_store_bytes(&self) -> (text: Option<Vec<u8>>)
        ensures
            text is Some <==> scale_in_range(self@.1),
            text matches Some(t) ==> t@ == bigdecimal_text(self@.0, self@.1),
    {
        if self.in_range() {
            Some(self.text_bytes())
        } else {
            None
        }
    }

    /// The number that the text with the bytes `bytes` stands for, unless
    /// the bytes are no text or name an exponent too far below zero.
    pub open spec fn of_text(bytes: Seq<u8>) -> Option<(int, int)> {
        if valid_utf8(bytes) && exponent_ok(bytes) {
            bigdecimal_from_text(bytes)
        } else {
            None
        }
    }

    /// The number that `text` stands for; `None` if it stands for none.
    pub fn parse(text: &str) -> (d: Option<BigDecimal>)
        ensures
            match d {
                Some(d) => BigDecimal::of_text(text.spec_bytes()) == Some(d@),
                None => BigDecimal::of_text(text.spec_bytes()) is None,
            },
    {
        proof {
            encode_utf8_valid_utf8(text@);
        }
        if exponent_is_ok(text.as_bytes()) {
            BigDecimal::parse_text(text)
        } else {
            None
        }
    }

    /// The number that stored bytes stand for: zero for no bytes at all,
    /// else what the bytes say as UTF-8 text.
    pub open spec fn of_store_bytes(bytes: Seq<u8>) -> Option<(int, int)> {
        if bytes.len() == 0 {
            Some((0int, 0int))
        } else {
            BigDecimal::of_text(bytes)
        }
    }

    /// Reads stored bytes as a number; `None` if they hold none.
    pub fn try_from_store_bytes(bytes: &[u8]) -> (d: Option<BigDecimal>)
        ensures
            match d {
                Some(d) => BigDecimal::of_store_bytes(bytes@) == Some(d@),
                None => BigDecimal::of_store_bytes(bytes@) is None,
            },
    {
        if bytes.len() == 0 {
            return Some(BigDecimal::zero());
        }
        match str_from_utf8(bytes) {
            Some(text) => {
                proof {
                    decode_utf8_encode_utf8(bytes@);
                }
                BigDecimal::parse(text)
            },
            None => None,
        }
    }

    /// Reads stored bytes as a number. The bytes must hold one.
    pub fn from_store_bytes(bytes: &[u8]) -> (d: BigDecimal)
        requires
            BigDecimal::of_store_bytes(bytes@) is Some,
        ensures
            BigDecimal::of_store_bytes(bytes@) == Some(d@),
    {
        BigDecimal::try_from_store_bytes(bytes).unwrap()
    }
}

} // verus!
