//! How stored bytes are read as values.
//!
//! Numbers are decimal text, and no bytes at all stand for zero. Text is
//! UTF-8. A flag is true unless one of its bytes is zero. An array is a run
//! of items, each followed by the terminator `;`.

use vstd::prelude::*;
use vstd::slice::{slice_subrange, slice_to_vec};
use vstd::utf8::*;
use crate::decimal::{
    decimal_text, decode_i32, decode_i64, lemma_i32_round_trip, lemma_i64_round_trip, parse_i32,
    parse_i64,
};
use crate::text::string_from_utf8;

verus! {

/// The byte that ends each item of an array.
pub open spec fn terminator() -> u8 {
    59
}

/// The 64-bit integer that stored bytes stand for.
pub open spec fn int64_of(bytes: Seq<u8>) -> Option<i64> {
    if bytes.len() == 0 {
        Some(0i64)
    } else {
        parse_i64(bytes)
    }
}

/// The 32-bit integer that stored bytes stand for.
pub open spec fn int32_of(bytes: Seq<u8>) -> Option<i32> {
    if bytes.len() == 0 {
        Some(0i32)
    } else {
        parse_i32(bytes)
    }
}

/// The flag that stored bytes stand for.
pub open spec fn flag_of(bytes: Seq<u8>) -> bool {
    forall|i: int| 0 <= i < bytes.len() ==> bytes[i] != 0
}

/// How many bytes of `bytes` come before its first terminator, or the length
/// of `bytes` if it holds none.
pub open spec fn item_len(bytes: Seq<u8>) -> nat
    decreases bytes.len(),
{
    if bytes.len() == 0 || bytes[0] == terminator() {
        0
    } else {
        1 + item_len(bytes.skip(1))
    }
}

/// The runs of bytes between the terminators of `bytes` that are not empty,
/// in their order.
pub open spec fn items(bytes: Seq<u8>) -> Seq<Seq<u8>>
    decreases bytes.len(),
{
    let n = item_len(bytes) as int;
    if bytes.len() == 0 {
        Seq::empty()
    } else if n >= bytes.len() {
        seq![bytes]
    } else if n == 0 {
        items(bytes.skip(1))
    } else {
        seq![bytes.take(n)] + items(bytes.skip(n + 1))
    }
}

/// The array that stored bytes stand for: their items, if the bytes end in a
/// terminator and hold an item at all. Bytes that hold no item stand for no
/// value, never for an empty array.
pub open spec fn array_of(bytes: Seq<u8>) -> Option<Seq<Seq<u8>>> {
    if bytes.len() == 0 || bytes.last() != terminator() || items(bytes).len() == 0 {
        None
    } else {
        Some(items(bytes))
    }
}

/// Every item of `bytes` is UTF-8 text.
pub open spec fn items_are_text(bytes: Seq<u8>) -> bool {
    forall|i: int| 0 <= i < items(bytes).len() ==> valid_utf8(#[trigger] items(bytes)[i])
}

/// `texts` are the items `parts`, read as UTF-8.
pub open spec fn reads_as(texts: Seq<String>, parts: Seq<Seq<u8>>) -> bool {
    &&& texts.len() == parts.len()
    &&& forall|i: int| 0 <= i < texts.len() ==> (#[trigger] texts[i])@ == decode_utf8(parts[i])
}

proof fn lemma_item_len_is(bytes: Seq<u8>, p: int)
    requires
        0 <= p <= bytes.len(),
        forall|j: int| 0 <= j < p ==> bytes[j] != terminator(),
        p == bytes.len() || bytes[p] == terminator(),
    ensures
        item_len(bytes) == p,
    decreases p,
{
    if p > 0 {
        let rest = bytes.skip(1);
        assert(bytes[0] != terminator());
        assert forall|j: int| 0 <= j < p - 1 implies rest[j] != terminator() by {
            assert(rest[j] == bytes[j + 1]);
        }
        if p < bytes.len() {
            assert(rest[p - 1] == bytes[p]);
        }
        lemma_item_len_is(rest, p - 1);
    }
}

/// Reads stored bytes as a 64-bit integer; `None` if they hold none.
pub fn try_decode_bytes_to_i64(bytes: &Vec<u8>) -> (out: Option<i64>)
    ensures
        out == int64_of(bytes@),
{
    if bytes.len() == 0 {
        Some(0)
    } else {
        decode_i64(bytes.as_slice())
    }
}

/// Reads stored bytes as a 64-bit integer. The bytes must hold one.
pub fn decode_bytes_to_i64(bytes: &Vec<u8>) -> (out: i64)
    requires
        int64_of(bytes@) is Some,
    ensures
        int64_of(bytes@) == Some(out),
{
    try_decode_bytes_to_i64(bytes).unwrap()
}

/// Reads stored bytes as a 32-bit integer; `None` if they hold none.
pub fn try_decode_bytes_to_i32(bytes: &Vec<u8>) -> (out: Option<i32>)
    ensures
        out == int32_of(bytes@),
{
    if bytes.len() == 0 {
        Some(0)
    } else {
        decode_i32(bytes.as_slice())
    }
}

/// Reads stored bytes as a 32-bit integer. The bytes must hold one.
pub fn decode_bytes_to_i32(bytes: &Vec<u8>) -> (out: i32)
    requires
        int32_of(bytes@) is Some,
    ensures
        int32_of(bytes@) == Some(out),
{
    try_decode_bytes_to_i32(bytes).unwrap()
}

/// Reads stored bytes as a flag.
pub fn decode_bytes_to_bool(bytes: &Vec<u8>) -> (out: bool)
    ensures
        out == flag_of(bytes@),
{
    let n = bytes.len();
    let mut i: usize = 0;
    while i < n
        invariant
            n == bytes@.len(),
            i <= n,
            forall|j: int| 0 <= j < i ==> bytes@[j] != 0,
        decreases n - i,
    {
        if bytes[i] == 0 {
            return false;
        }
        i = i + 1;
    }
    true
}

/// Reads stored bytes as text; `None` if they are not UTF-8.
pub fn try_decode_bytes_to_string(bytes: Vec<u8>) -> (out: Option<String>)
    ensures
        out is Some <==> valid_utf8(bytes@),
        out matches Some(s) ==> s@ == decode_utf8(bytes@),
{
    string_from_utf8(bytes)
}

/// Reads stored bytes as text. The bytes must be UTF-8.
pub fn decode_bytes_to_string(bytes: Vec<u8>) -> (out: String)
    requires
        valid_utf8(bytes@),
    ensures
        out@ == decode_utf8(bytes@),
{
    string_from_utf8(bytes).unwrap()
}

/// Stored bytes, `len` of them, are no value of the encoding they are read in.
#[derive(Debug, Clone, Copy, PartialEq, Eq, Structural)]
pub struct Unreadable {
    pub len: usize,
}

/// An item of an array is not UTF-8 text.
#[derive(Debug, Clone, Copy, PartialEq, Eq, Structural)]
pub struct NotText;

/// Reads stored bytes as an array of texts: the array, or `None` where the
/// bytes hold no array, or the failure that an item is not UTF-8.
pub fn try_split_array(bytes: &Vec<u8>) -> (out: Result<Option<Vec<String>>, NotText>)
    ensures
        out is Err <==> array_of(bytes@) is Some && !items_are_text(bytes@),
        out matches Ok(found) ==> (found is Some <==> array_of(bytes@) is Some),
        out matches Ok(Some(texts)) ==> reads_as(texts@, items(bytes@)),
{
    let n = bytes.len();
    if n == 0 || bytes[n - 1] != 59u8 {
        return Ok(None);
    }
    let mut out: Vec<String> = Vec::new();
    let mut start: usize = 0;
    let mut i: usize = 0;
    let ghost mut done: Seq<Seq<u8>> = Seq::empty();
    proof {
        assert(bytes@.skip(0) =~= bytes@);
    }
    while i < n
        invariant
            n == bytes@.len(),
            n > 0,
            bytes@.last() == terminator(),
            start <= i <= n,
            items(bytes@) == done + items(bytes@.skip(start as int)),
            forall|j: int| start <= j < i ==> bytes@[j] != terminator(),
            reads_as(out@, done),
            forall|k: int| 0 <= k < done.len() ==> valid_utf8(#[trigger] done[k]),
        decreases n - i,
    {
        if bytes[i] == 59u8 {
            let ghost rest = bytes@.skip(start as int);
            let ghost p = (i - start) as int;
            proof {
                assert forall|j: int| 0 <= j < p implies rest[j] != terminator() by {
                    assert(rest[j] == bytes@[start + j]);
                }
                assert(rest[p] == bytes@[i as int]);
                lemma_item_len_is(rest, p);
                assert(rest.take(p) =~= bytes@.subrange(start as int, i as int));
                assert(rest.skip(p + 1) =~= bytes@.skip(i + 1));
            }
            if i > start {
                let ghost piece = bytes@.subrange(start as int, i as int);
                proof {
                    assert(items(bytes@) =~= (done + seq![piece]) + items(bytes@.skip(i + 1)));
                }
                match string_from_utf8(slice_to_vec(slice_subrange(bytes.as_slice(), start, i))) {
                    Some(text) => {
                        out.push(text);
                    },
                    None => {
                        proof {
                            assert(items(bytes@)[done.len() as int] == piece);
                        }
                        return Err(NotText);
                    },
                }
                proof {
                    done = done + seq![piece];
                }
            } else {
                proof {
                    assert(rest.skip(1) =~= bytes@.skip(i + 1));
                }
            }
            start = i + 1;
        }
        i = i + 1;
    }
    proof {
        assert(start == n);
        assert(items(bytes@.skip(n as int)) =~= Seq::<Seq<u8>>::empty());
        assert(items(bytes@) =~= done);
    }
    if out.len() == 0 {
        Ok(None)
    } else {
        Ok(Some(out))
    }
}

/// Reads stored bytes as an array of texts, or as no value where the bytes
/// hold no array. Every item must be UTF-8.
pub fn split_array(bytes: Vec<u8>) -> (out: Option<Vec<String>>)
    requires
        array_of(bytes@) is Some ==> items_are_text(bytes@),
    ensures
        out is Some <==> array_of(bytes@) is Some,
        out matches Some(texts) ==> reads_as(texts@, items(bytes@)),
{
    match try_split_array(&bytes) {
        Ok(found) => found,
        Err(_) => vstd::pervasive::unreached(),
    }
}

/// A 64-bit integer that is written as decimal text is read back as itself.
pub proof fn lemma_int64_round_trip(v: i64)
    ensures
        int64_of(decimal_text(v as int)) == Some(v),
{
    lemma_i64_round_trip(v);
    assert(decimal_text(v as int).len() >= 1) by {
        reveal_with_fuel(crate::decimal::digits_of, 2);
    }
}

/// A 32-bit integer that is written as decimal text is read back as itself.
pub proof fn lemma_int32_round_trip(v: i32)
    ensures
        int32_of(decimal_text(v as int)) == Some(v),
{
    lemma_i32_round_trip(v);
    assert(decimal_text(v as int).len() >= 1) by {
        reveal_with_fuel(crate::decimal::digits_of, 2);
    }
}

/// Neither no bytes nor the terminator alone stand for an array, not even
/// for the empty one.
pub proof fn lemma_no_array()
    ensures
        array_of(Seq::<u8>::empty()) is None,
        array_of(seq![terminator()]) is None,
{
    let alone = seq![terminator()];
    assert(item_len(alone) == 0);
    assert(alone.skip(1) =~= Seq::<u8>::empty());
    assert(items(alone.skip(1)) =~= Seq::<Seq<u8>>::empty());
    assert(items(alone) =~= Seq::<Seq<u8>>::empty());
}

/// `part` can be an item of an array: it is not empty and holds no
/// terminator.
pub open spec fn is_item(part: Seq<u8>) -> bool {
    part.len() > 0 && forall|i: int| 0 <= i < part.len() ==> part[i] != terminator()
}

/// The bytes of an array with the items `parts`: each item and behind it
/// the terminator.
pub open spec fn array_text(parts: Seq<Seq<u8>>) -> Seq<u8>
    decreases parts.len(),
{
    if parts.len() == 0 {
        Seq::empty()
    } else {
        parts[0].push(terminator()) + array_text(parts.skip(1))
    }
}

proof fn lemma_items_of_array_text(parts: Seq<Seq<u8>>)
    requires
        forall|i: int| 0 <= i < parts.len() ==> is_item(#[trigger] parts[i]),
    ensures
        items(array_text(parts)) == parts,
        parts.len() >= 1 ==> array_text(parts).len() > 0 && array_text(parts).last()
            == terminator(),
    decreases parts.len(),
{
    if parts.len() == 0 {
        assert(items(array_text(parts)) =~= parts);
    } else {
        let first = parts[0];
        let tail = parts.skip(1);
        assert forall|i: int| 0 <= i < tail.len() implies is_item(#[trigger] tail[i]) by {
            assert(tail[i] == parts[i + 1]);
        }
        lemma_items_of_array_text(tail);
        let bytes = array_text(parts);
        let n = first.len() as int;
        assert(is_item(first));
        assert forall|j: int| 0 <= j < n implies bytes[j] != terminator() by {
            assert(bytes[j] == first[j]);
        }
        assert(bytes[n] == terminator());
        lemma_item_len_is(bytes, n);
        assert(bytes.take(n) =~= first);
        assert(bytes.skip(n + 1) =~= array_text(tail));
        assert(items(bytes) =~= seq![first] + tail);
        assert(parts =~= seq![first] + tail);
        if tail.len() == 0 {
            assert(array_text(tail) =~= Seq::<u8>::empty());
            assert(bytes =~= first.push(terminator()));
        } else {
            assert(bytes.last() == array_text(tail).last());
        }
    }
}

/// An array that is written item by item, each with its terminator, is read
/// back as the same items.
pub proof fn lemma_array_round_trip(parts: Seq<Seq<u8>>)
    requires
        parts.len() >= 1,
        forall|i: int| 0 <= i < parts.len() ==> is_item(#[trigger] parts[i]),
    ensures
        array_of(array_text(parts)) == Some(parts),
{
    lemma_items_of_array_text(parts);
}

/// Appending an item and its terminator to the bytes of an array gives the
/// bytes of the array with that item behind the others.
pub proof fn lemma_array_text_grows(parts: Seq<Seq<u8>>, part: Seq<u8>)
    ensures
        array_text(parts.push(part)) == array_text(parts) + part.push(terminator()),
    decreases parts.len(),
{
    let more = parts.push(part);
    if parts.len() == 0 {
        assert(more.skip(1) =~= Seq::<Seq<u8>>::empty());
        assert(array_text(more.skip(1)) =~= Seq::<u8>::empty());
        assert(array_text(more) =~= part.push(terminator()));
        assert(array_text(parts) + part.push(terminator()) =~= part.push(terminator()));
    } else {
        lemma_array_text_grows(parts.skip(1), part);
        assert(more.skip(1) =~= parts.skip(1).push(part));
        assert(more[0] == parts[0]);
        assert(array_text(more) =~= array_text(parts) + part.push(terminator()));
    }
}

} // verus!
