//! Typed deltas.
//!
//! The host reports each change to a store as a [`StoreDelta`]: an operation
//! code, a sequence number, a key, and the bytes held before and after. A
//! typed delta is the same record with the operation named and both values
//! read in one encoding. A record whose operation code is unknown or whose
//! bytes are no value of the encoding does not decode; [`failure`] says
//! which field is at fault, the operation first, then the old value, then
//! the new one.

use vstd::prelude::*;
use vstd::utf8::*;
use crate::codec::{
    array_of, decode_bytes_to_bool, flag_of, int32_of, int64_of, items, items_are_text, reads_as,
    try_decode_bytes_to_i32, try_decode_bytes_to_i64, try_decode_bytes_to_string, try_split_array,
};
use crate::key::{texts_of, SegmentAtEq, SegmentAtIn};
use crate::operation::OperationIs;
use crate::pb::{Operation, StoreDelta};
use crate::scalar::{BigDecimal, BigInt};

verus! {

/// Why a raw delta does not decode.
#[derive(Debug, Clone, Copy, PartialEq, Eq, Structural)]
pub enum DecodeError {
    /// The operation code is none of the known ones.
    UnknownOperation { code: i32 },
    /// The old value's bytes, `len` of them, are no value of the encoding.
    OldValue { len: usize },
    /// The new value's bytes, `len` of them, are no value of the encoding.
    NewValue { len: usize },
}

/// Why `raw` does not decode, given whether its old and its new value can be
/// read; `None` if it decodes.
pub open spec fn failure(raw: StoreDelta, old_ok: bool, new_ok: bool) -> Option<DecodeError> {
    if Operation::of_code(raw.operation) is None {
        Some(DecodeError::UnknownOperation { code: raw.operation })
    } else if !old_ok {
        Some(DecodeError::OldValue { len: raw.old_value@.len() as usize })
    } else if !new_ok {
        Some(DecodeError::NewValue { len: raw.new_value@.len() as usize })
    } else {
        None
    }
}

/// The operation with wire code `operation`, which must be a known one.
pub fn convert_i32_to_operation(operation: i32) -> (op: Operation)
    requires
        Operation::of_code(operation) is Some,
    ensures
        Operation::of_code(operation) == Some(op),
{
    Operation::from_i32(operation).unwrap()
}

/// A change to one key of a store, with typed values.
pub trait Delta: Sized {
    /// The key that changed.
    spec fn key_text(&self) -> Seq<char>;

    /// What happened to the key.
    spec fn operation_kind(&self) -> Operation;

    /// `bytes` are a value of this delta's encoding.
    spec fn readable(bytes: Seq<u8>) -> bool;

    /// This delta is `raw`, decoded.
    spec fn decodes(&self, raw: StoreDelta) -> bool;

    /// The key that changed.
    fn get_key(&self) -> (key: &String)
        ensures
            key@ == self.key_text(),
    ;

    /// What happened to the key.
    fn get_operation(&self) -> (op: Operation)
        ensures
            op == self.operation_kind(),
    ;

    /// Decodes `raw`, or says which field does not decode.
    fn try_from_store_delta(raw: StoreDelta) -> (out: Result<Self, DecodeError>)
        ensures
            match out {
                Ok(d) => failure(
                    raw,
                    Self::readable(raw.old_value@),
                    Self::readable(raw.new_value@),
                ) is None && d.decodes(raw) && d.key_text() == raw.key@ && Operation::of_code(
                    raw.operation,
                ) == Some(d.operation_kind()),
                Err(e) => failure(
                    raw,
                    Self::readable(raw.old_value@),
                    Self::readable(raw.new_value@),
                ) == Some(e),
            },
    ;
}

/// `raw` decodes as a `T`.
pub open spec fn decodable<T: Delta>(raw: StoreDelta) -> bool {
    failure(raw, T::readable(raw.old_value@), T::readable(raw.new_value@)) is None
}

/// Decodes `raw`, which must decode.
pub fn from_store_delta<T: Delta>(raw: StoreDelta) -> (d: T)
    requires
        decodable::<T>(raw),
    ensures
        d.decodes(raw),
        d.key_text() == raw.key@,
        Operation::of_code(raw.operation) == Some(d.operation_kind()),
{
    match T::try_from_store_delta(raw) {
        Ok(d) => d,
        Err(_) => vstd::pervasive::unreached(),
    }
}

/// The bytes of an array without value stand for the empty array.
fn array_or_empty(bytes: Vec<u8>) -> (out: Option<Vec<String>>)
    ensures
        out is Some <==> (array_of(bytes@) is Some ==> items_are_text(bytes@)),
        out matches Some(texts) ==> if array_of(bytes@) is Some {
            reads_as(texts@, items(bytes@))
        } else {
            texts@.len() == 0
        },
{
    match try_split_array(&bytes) {
        Ok(Some(texts)) => Some(texts),
        Ok(None) => Some(Vec::new()),
        Err(_) => None,
    }
}

/// A change to a key of a store of decimal numbers of any size.
pub struct DeltaBigDecimal {
    pub operation: Operation,
    pub ordinal: u64,
    pub key: String,
    pub old_value: BigDecimal,
    pub new_value: BigDecimal,
}

impl DeltaBigDecimal {
    /// `value` is what `bytes` stand for.
    pub open spec fn shows(bytes: Seq<u8>, value: BigDecimal) -> bool {
        BigDecimal::of_store_bytes(bytes) == Some(value@)
    }
}

impl Delta for DeltaBigDecimal {
    open spec fn key_text(&self) -> Seq<char> {
        self.key@
    }

    open spec fn operation_kind(&self) -> Operation {
        self.operation
    }

    open spec fn readable(bytes: Seq<u8>) -> bool {
        BigDecimal::of_store_bytes(bytes) is Some
    }

    open spec fn decodes(&self, raw: StoreDelta) -> bool {
        &&& Operation::of_code(raw.operation) == Some(self.operation)
        &&& self.ordinal == raw.ordinal
        &&& self.key@ == raw.key@
        &&& Self::shows(raw.old_value@, self.old_value)
        &&& Self::shows(raw.new_value@, self.new_value)
    }

    fn get_key(&self) -> (key: &String) {
        &self.key
    }

    fn get_operation(&self) -> (op: Operation) {
        self.operation
    }

    fn try_from_store_delta(raw: StoreDelta) -> (out: Result<Self, DecodeError>) {
        let operation = match Operation::from_i32(raw.operation) {
            Some(op) => op,
            None => {
                return Err(DecodeError::UnknownOperation { code: raw.operation });
            },
        };
        let old_len = raw.old_value.len();
        let new_len = raw.new_value.len();
        let ordinal = raw.ordinal;
        let key = raw.key;
        let bytes = raw.old_value;
        let old_value = match BigDecimal::try_from_store_bytes(bytes.as_slice()) {
            Some(v) => v,
            None => {
                return Err(DecodeError::OldValue { len: old_len });
            },
        };
        let bytes = raw.new_value;
        let new_value = match BigDecimal::try_from_store_bytes(bytes.as_slice()) {
            Some(v) => v,
            None => {
                return Err(DecodeError::NewValue { len: new_len });
            },
        };
        Ok(DeltaBigDecimal { operation, ordinal, key, old_value, new_value })
    }
}

/// A change to a key of a store of integers of any size.
pub struct DeltaBigInt {
    pub operation: Operation,
    pub ordinal: u64,
    pub key: String,
    pub old_value: BigInt,
    pub new_value: BigInt,
}

impl DeltaBigInt {
    /// `value` is what `bytes` stand for.
    pub open spec fn shows(bytes: Seq<u8>, value: BigInt) -> bool {
        BigInt::of_store_bytes(bytes) == Some(value@)
    }
}

impl Delta for DeltaBigInt {
    open spec fn key_text(&self) -> Seq<char> {
        self.key@
    }

    open spec fn operation_kind(&self) -> Operation {
        self.operation
    }

    open spec fn readable(bytes: Seq<u8>) -> bool {
        BigInt::of_store_bytes(bytes) is Some
    }

    open spec fn decodes(&self, raw: StoreDelta) -> bool {
        &&& Operation::of_code(raw.operation) == Some(self.operation)
        &&& self.ordinal == raw.ordinal
        &&& self.key@ == raw.key@
        &&& Self::shows(raw.old_value@, self.old_value)
        &&& Self::shows(raw.new_value@, self.new_value)
    }

    fn get_key(&self) -> (key: &String) {
        &self.key
    }

    fn get_operation(&self) -> (op: Operation) {
        self.operation
    }

    fn try_from_store_delta(raw: StoreDelta) -> (out: Result<Self, DecodeError>) {
        let operation = match Operation::from_i32(raw.operation) {
            Some(op) => op,
            None => {
                return Err(DecodeError::UnknownOperation { code: raw.operation });
            },
        };
        let old_len = raw.old_value.len();
        let new_len = raw.new_value.len();
        let ordinal = raw.ordinal;
        let key = raw.key;
        let bytes = raw.old_value;
        let old_value = match BigInt::try_from_store_bytes(bytes.as_slice()) {
            Some(v) => v,
            None => {
                return Err(DecodeError::OldValue { len: old_len });
            },
        };
        let bytes = raw.new_value;
        let new_value = match BigInt::try_from_store_bytes(bytes.as_slice()) {
            Some(v) => v,
            None => {
                return Err(DecodeError::NewValue { len: new_len });
            },
        };
        Ok(DeltaBigInt { operation, ordinal, key, old_value, new_value })
    }
}

/// A change to a key of a store of 32-bit integers.
#[derive(Debug, Clone, PartialEq)]
pub struct DeltaInt32 {
    pub operation: Operation,
    pub ordinal: u64,
    pub key: String,
    pub old_value: i32,
    pub new_value: i32,
}

impl DeltaInt32 {
    /// `value` is what `bytes` stand for.
    pub open spec fn shows(bytes: Seq<u8>, value: i32) -> bool {
        int32_of(bytes) == Some(value)
    }
}

impl Delta for DeltaInt32 {
    open spec fn key_text(&self) -> Seq<char> {
        self.key@
    }

    open spec fn operation_kind(&self) -> Operation {
        self.operation
    }

    open spec fn readable(bytes: Seq<u8>) -> bool {
        int32_of(bytes) is Some
    }

    open spec fn decodes(&self, raw: StoreDelta) -> bool {
        &&& Operation::of_code(raw.operation) == Some(self.operation)
        &&& self.ordinal == raw.ordinal
        &&& self.key@ == raw.key@
        &&& Self::shows(raw.old_value@, self.old_value)
        &&& Self::shows(raw.new_value@, self.new_value)
    }

    fn get_key(&self) -> (key: &String) {
        &self.key
    }

    fn get_operation(&self) -> (op: Operation) {
        self.operation
    }

    fn try_from_store_delta(raw: StoreDelta) -> (out: Result<Self, DecodeError>) {
        let operation = match Operation::from_i32(raw.operation) {
            Some(op) => op,
            None => {
                return Err(DecodeError::UnknownOperation { code: raw.operation });
            },
        };
        let old_len = raw.old_value.len();
        let new_len = raw.new_value.len();
        let ordinal = raw.ordinal;
        let key = raw.key;
        let bytes = raw.old_value;
        let old_value = match try_decode_bytes_to_i32(&bytes) {
            Some(v) => v,
            None => {
                return Err(DecodeError::OldValue { len: old_len });
            },
        };
        let bytes = raw.new_value;
        let new_value = match try_decode_bytes_to_i32(&bytes) {
            Some(v) => v,
            None => {
                return Err(DecodeError::NewValue { len: new_len });
            },
        };
        Ok(DeltaInt32 { operation, ordinal, key, old_value, new_value })
    }
}

/// A change to a key of a store of 64-bit integers.
#[derive(Debug, Clone, PartialEq)]
pub struct DeltaInt64 {
    pub operation: Operation,
    pub ordinal: u64,
    pub key: String,
    pub old_value: i64,
    pub new_value: i64,
}

impl DeltaInt64 {
    /// `value` is what `bytes` stand for.
    pub open spec fn shows(bytes: Seq<u8>, value: i64) -> bool {
        int64_of(bytes) == Some(value)
    }
}

impl Delta for DeltaInt64 {
    open spec fn key_text(&self) -> Seq<char> {
        self.key@
    }

    open spec fn operation_kind(&self) -> Operation {
        self.operation
    }

    open spec fn readable(bytes: Seq<u8>) -> bool {
        int64_of(bytes) is Some
    }

    open spec fn decodes(&self, raw: StoreDelta) -> bool {
        &&& Operation::of_code(raw.operation) == Some(self.operation)
        &&& self.ordinal == raw.ordinal
        &&& self.key@ == raw.key@
        &&& Self::shows(raw.old_value@, self.old_value)
        &&& Self::shows(raw.new_value@, self.new_value)
    }

    fn get_key(&self) -> (key: &String) {
        &self.key
    }

    fn get_operation(&self) -> (op: Operation) {
        self.operation
    }

    fn try_from_store_delta(raw: StoreDelta) -> (out: Result<Self, DecodeError>) {
        let operation = match Operation::from_i32(raw.operation) {
            Some(op) => op,
            None => {
                return Err(DecodeError::UnknownOperation { code: raw.operation });
            },
        };
        let old_len = raw.old_value.len();
        let new_len = raw.new_value.len();
        let ordinal = raw.ordinal;
        let key = raw.key;
        let bytes = raw.old_value;
        let old_value = match try_decode_bytes_to_i64(&bytes) {
            Some(v) => v,
            None => {
                return Err(DecodeError::OldValue { len: old_len });
            },
        };
        let bytes = raw.new_value;
        let new_value = match try_decode_bytes_to_i64(&bytes) {
            Some(v) => v,
            None => {
                return Err(DecodeError::NewValue { len: new_len });
            },
        };
        Ok(DeltaInt64 { operation, ordinal, key, old_value, new_value })
    }
}

/// A change to a key of a store of flags.
#[derive(Debug, Clone, PartialEq)]
pub struct DeltaBool {
    pub operation: Operation,
    pub ordinal: u64,
    pub key: String,
    pub old_value: bool,
    pub new_value: bool,
}

impl DeltaBool {
    /// `value` is what `bytes` stand for.
    pub open spec fn shows(bytes: Seq<u8>, value: bool) -> bool {
        value == flag_of(bytes)
    }
}

impl Delta for DeltaBool {
    open spec fn key_text(&self) -> Seq<char> {
        self.key@
    }

    open spec fn operation_kind(&self) -> Operation {
        self.operation
    }

    open spec fn readable(bytes: Seq<u8>) -> bool {
        true
    }

    open spec fn decodes(&self, raw: StoreDelta) -> bool {
        &&& Operation::of_code(raw.operation) == Some(self.operation)
        &&& self.ordinal == raw.ordinal
        &&& self.key@ == raw.key@
        &&& Self::shows(raw.old_value@, self.old_value)
        &&& Self::shows(raw.new_value@, self.new_value)
    }

    fn get_key(&self) -> (key: &String) {
        &self.key
    }

    fn get_operation(&self) -> (op: Operation) {
        self.operation
    }

    fn try_from_store_delta(raw: StoreDelta) -> (out: Result<Self, DecodeError>) {
        let operation = match Operation::from_i32(raw.operation) {
            Some(op) => op,
            None => {
                return Err(DecodeError::UnknownOperation { code: raw.operation });
            },
        };
        let ordinal = raw.ordinal;
        let key = raw.key;
        let old_value = decode_bytes_to_bool(&raw.old_value);
        let new_value = decode_bytes_to_bool(&raw.new_value);
        Ok(DeltaBool { operation, ordinal, key, old_value, new_value })
    }
}

/// A change to a key of a store of bytes.
#[derive(Debug, Clone, PartialEq)]
pub struct DeltaBytes {
    pub operation: Operation,
    pub ordinal: u64,
    pub key: String,
    pub old_value: Vec<u8>,
    pub new_value: Vec<u8>,
}

impl DeltaBytes {
    /// `value` is what `bytes` stand for.
    pub open spec fn shows(bytes: Seq<u8>, value: Vec<u8>) -> bool {
        value@ == bytes
    }
}

impl Delta for DeltaBytes {
    open spec fn key_text(&self) -> Seq<char> {
        self.key@
    }

    open spec fn operation_kind(&self) -> Operation {
        self.operation
    }

    open spec fn readable(bytes: Seq<u8>) -> bool {
        true
    }

    open spec fn decodes(&self, raw: StoreDelta) -> bool {
        &&& Operation::of_code(raw.operation) == Some(self.operation)
        &&& self.ordinal == raw.ordinal
        &&& self.key@ == raw.key@
        &&& Self::shows(raw.old_value@, self.old_value)
        &&& Self::shows(raw.new_value@, self.new_value)
    }

    fn get_key(&self) -> (key: &String) {
        &self.key
    }

    fn get_operation(&self) -> (op: Operation) {
        self.operation
    }

    fn try_from_store_delta(raw: StoreDelta) -> (out: Result<Self, DecodeError>) {
        let operation = match Operation::from_i32(raw.operation) {
            Some(op) => op,
            None => {
                return Err(DecodeError::UnknownOperation { code: raw.operation });
            },
        };
        let ordinal = raw.ordinal;
        let key = raw.key;
        let old_value = raw.old_value;
        let new_value = raw.new_value;
        Ok(DeltaBytes { operation, ordinal, key, old_value, new_value })
    }
}

/// A change to a key of a store of texts.
#[derive(Debug, Clone, PartialEq)]
pub struct DeltaString {
    pub operation: Operation,
    pub ordinal: u64,
    pub key: String,
    pub old_value: String,
    pub new_value: String,
}

impl DeltaString {
    /// `value` is what `bytes` stand for.
    pub open spec fn shows(bytes: Seq<u8>, value: String) -> bool {
        value@ == decode_utf8(bytes)
    }
}

impl Delta for DeltaString {
    open spec fn key_text(&self) -> Seq<char> {
        self.key@
    }

    open spec fn operation_kind(&self) -> Operation {
        self.operation
    }

    open spec fn readable(bytes: Seq<u8>) -> bool {
        valid_utf8(bytes)
    }

    open spec fn decodes(&self, raw: StoreDelta) -> bool {
        &&& Operation::of_code(raw.operation) == Some(self.operation)
        &&& self.ordinal == raw.ordinal
        &&& self.key@ == raw.key@
        &&& Self::shows(raw.old_value@, self.old_value)
        &&& Self::shows(raw.new_value@, self.new_value)
    }

    fn get_key(&self) -> (key: &String) {
        &self.key
    }

    fn get_operation(&self) -> (op: Operation) {
        self.operation
    }

    fn try_from_store_delta(raw: StoreDelta) -> (out: Result<Self, DecodeError>) {
        let operation = match Operation::from_i32(raw.operation) {
            Some(op) => op,
            None => {
                return Err(DecodeError::UnknownOperation { code: raw.operation });
            },
        };
        let old_len = raw.old_value.len();
        let new_len = raw.new_value.len();
        let ordinal = raw.ordinal;
        let key = raw.key;
        let bytes = raw.old_value;
        let old_value = match try_decode_bytes_to_string(bytes) {
            Some(v) => v,
            None => {
                return Err(DecodeError::OldValue { len: old_len });
            },
        };
        let bytes = raw.new_value;
        let new_value = match try_decode_bytes_to_string(bytes) {
            Some(v) => v,
            None => {
                return Err(DecodeError::NewValue { len: new_len });
            },
        };
        Ok(DeltaString { operation, ordinal, key, old_value, new_value })
    }
}

/// A change to a key of a store of arrays of texts.
#[derive(Debug, Clone, PartialEq)]
pub struct DeltaArray<T> {
    pub operation: Operation,
    pub ordinal: u64,
    pub key: String,
    pub old_value: Vec<T>,
    pub new_value: Vec<T>,
}

impl DeltaArray<String> {
    /// `value` is what `bytes` stand for.
    pub open spec fn shows(bytes: Seq<u8>, value: Vec<String>) -> bool {
        if array_of(bytes) is Some {
            reads_as(value@, items(bytes))
        } else {
            value@.len() == 0
        }
    }
}

impl Delta for DeltaArray<String> {
    open spec fn key_text(&self) -> Seq<char> {
        self.key@
    }

    open spec fn operation_kind(&self) -> Operation {
        self.operation
    }

    open spec fn readable(bytes: Seq<u8>) -> bool {
        array_of(bytes) is Some ==> items_are_text(bytes)
    }

    open spec fn decodes(&self, raw: StoreDelta) -> bool {
        &&& Operation::of_code(raw.operation) == Some(self.operation)
        &&& self.ordinal == raw.ordinal
        &&& self.key@ == raw.key@
        &&& Self::shows(raw.old_value@, self.old_value)
        &&& Self::shows(raw.new_value@, self.new_value)
    }

    fn get_key(&self) -> (key: &String) {
        &self.key
    }

    fn get_operation(&self) -> (op: Operation) {
        self.operation
    }

    fn try_from_store_delta(raw: StoreDelta) -> (out: Result<Self, DecodeError>) {
        let operation = match Operation::from_i32(raw.operation) {
            Some(op) => op,
            None => {
                return Err(DecodeError::UnknownOperation { code: raw.operation });
            },
        };
        let old_len = raw.old_value.len();
        let new_len = raw.new_value.len();
        let ordinal = raw.ordinal;
        let key = raw.key;
        let bytes = raw.old_value;
        let old_value = match array_or_empty(bytes) {
            Some(v) => v,
            None => {
                return Err(DecodeError::OldValue { len: old_len });
            },
        };
        let bytes = raw.new_value;
        let new_value = match array_or_empty(bytes) {
            Some(v) => v,
            None => {
                return Err(DecodeError::NewValue { len: new_len });
            },
        };
        Ok(DeltaArray::<String> { operation, ordinal, key, old_value, new_value })
    }
}

/// A walk over deltas that hands each out once, in order, and can be
/// narrowed by filters. Nothing is read ahead and the deltas themselves are
/// left as they are.
pub trait DeltaExt<'a, T: Delta + 'a>: Sized {
    /// The deltas that the walk will still hand out, in order.
    spec fn pending(&self) -> Seq<T>;

    /// Every key that a filter of this walk will look into has the segment
    /// that the filter asks for.
    spec fn sound(&self) -> bool;

    /// The next delta, if one is left.
    fn next(&mut self) -> (out: Option<&'a T>)
        requires
            old(self).sound(),
        ensures
            final(self).sound(),
            old(self).pending().len() == 0 ==> out is None,
            old(self).pending().len() == 0 ==> final(self).pending() == old(self).pending(),
            old(self).pending().len() > 0 ==> (out matches Some(d) && *d == old(self).pending()[0]),
            old(self).pending().len() > 0 ==> final(self).pending() == old(self).pending().skip(1),
    ;

    /// Only the deltas whose key has the segment `value` at `index`. The
    /// keys must have a segment `index`.
    fn key_segment_at_eq(self, index: usize, value: String) -> (out: SegmentAtEq<Self>)
        ensures
            out.source() == self,
            out.place() == Some(index),
            out.wanted() == value@,
    {
        SegmentAtEq::new(value, Some(index), self)
    }

    /// Only the deltas whose key begins with the segment `value`.
    fn key_first_segment_eq(self, value: String) -> (out: SegmentAtEq<Self>)
        ensures
            out.source() == self,
            out.place() == Some(0usize),
            out.wanted() == value@,
    {
        SegmentAtEq::new(value, Some(0), self)
    }

    /// Only the deltas whose key ends with the segment `value`.
    fn key_last_segment_eq(self, value: String) -> (out: SegmentAtEq<Self>)
        ensures
            out.source() == self,
            out.place() == None::<usize>,
            out.wanted() == value@,
    {
        SegmentAtEq::new(value, None, self)
    }

    /// Only the deltas whose key has one of `values` at `index`. The keys
    /// must have a segment `index`, unless `values` is empty: then no key is
    /// looked into and nothing is handed out.
    fn key_segment_at_in(self, index: usize, values: Vec<String>) -> (out: SegmentAtIn<Self>)
        ensures
            out.source() == self,
            out.place() == Some(index),
            out.wanted() == texts_of(values@),
    {
        SegmentAtIn::new(values, Some(index), self)
    }

    /// Only the deltas whose key begins with one of `values`.
    fn key_first_segment_in(self, values: Vec<String>) -> (out: SegmentAtIn<Self>)
        ensures
            out.source() == self,
            out.place() == Some(0usize),
            out.wanted() == texts_of(values@),
    {
        SegmentAtIn::new(values, Some(0), self)
    }

    /// Only the deltas whose key ends with one of `values`.
    fn key_last_segment_in(self, values: Vec<String>) -> (out: SegmentAtIn<Self>)
        ensures
            out.source() == self,
            out.place() == None::<usize>,
            out.wanted() == texts_of(values@),
    {
        SegmentAtIn::new(values, None, self)
    }

    /// Only the deltas whose operation is `operation`.
    fn operation_eq(self, operation: Operation) -> (out: OperationIs<Self>)
        ensures
            out.source() == self,
            out.wanted() == operation,
            !out.negated(),
    {
        OperationIs::new(operation, false, self)
    }

    /// Only the deltas whose operation is not `operation`.
    fn operation_not_eq(self, operation: Operation) -> (out: OperationIs<Self>)
        ensures
            out.source() == self,
            out.wanted() == operation,
            out.negated(),
    {
        OperationIs::new(operation, true, self)
    }
}

/// Everything that `walk` still hands out, in order.
pub fn collect<'a, T: Delta + 'a, I: DeltaExt<'a, T>>(walk: I) -> (out: Vec<&'a T>)
    requires
        walk.sound(),
    ensures
        out@.len() == walk.pending().len(),
        forall|i: int| 0 <= i < out@.len() ==> *(#[trigger] out@[i]) == walk.pending()[i],
{
    let ghost all = walk.pending();
    let mut left = walk;
    let mut out: Vec<&'a T> = Vec::new();
    proof {
        assert(all.skip(0) =~= all);
    }
    loop
        invariant
            all == walk.pending(),
            left.sound(),
            out@.len() + left.pending().len() == all.len(),
            forall|i: int| 0 <= i < out@.len() ==> *(#[trigger] out@[i]) == all[i],
            left.pending() == all.skip(out@.len() as int),
        decreases left.pending().len(),
    {
        let ghost rest = left.pending();
        match left.next() {
            Some(d) => {
                proof {
                    assert(rest[0] == all[out@.len() as int]);
                    assert(rest.skip(1) =~= all.skip(out@.len() as int + 1));
                }
                out.push(d);
            },
            None => {
                return out;
            },
        }
    }
}

/// The items of `v`, last to first.
fn reversed<T>(v: Vec<T>) -> (out: Vec<T>)
    ensures
        out@.len() == v@.len(),
        forall|k: int| 0 <= k < out@.len() ==> out@[k] == v@[v@.len() - 1 - k],
{
    let mut v = v;
    let ghost whole = v@;
    let mut out: Vec<T> = Vec::new();
    while v.len() > 0
        invariant
            v@.len() + out@.len() == whole.len(),
            forall|k: int| 0 <= k < v@.len() ==> v@[k] == whole[k],
            forall|k: int| 0 <= k < out@.len() ==> out@[k] == whole[whole.len() - 1 - k],
        decreases v@.len(),
    {
        let item = v.pop().unwrap();
        out.push(item);
    }
    out
}

/// The deltas of one store, in the order the host reported them.
#[derive(Debug, Clone, PartialEq)]
pub struct Deltas<T: Delta> {
    pub deltas: Vec<T>,
}

/// `deltas` are `raws`, decoded one by one.
pub open spec fn all_decode<T: Delta>(deltas: Seq<T>, raws: Seq<StoreDelta>) -> bool {
    &&& deltas.len() == raws.len()
    &&& forall|i: int| 0 <= i < deltas.len() ==> (#[trigger] deltas[i]).decodes(raws[i])
}

impl<T: Delta> Deltas<T> {
    /// Decodes `store_deltas`, or gives the failure of the first that does
    /// not decode.
    pub fn try_new(store_deltas: Vec<StoreDelta>) -> (out: Result<Self, DecodeError>)
        ensures
            match out {
                Ok(d) => all_decode(d.deltas@, store_deltas@) && forall|i: int|
                    0 <= i < store_deltas@.len() ==> decodable::<T>(#[trigger] store_deltas@[i]),
                Err(e) => exists|i: int|
                    0 <= i < store_deltas@.len() && failure(
                        #[trigger] store_deltas@[i],
                        T::readable(store_deltas@[i].old_value@),
                        T::readable(store_deltas@[i].new_value@),
                    ) == Some(e) && forall|j: int|
                        0 <= j < i ==> decodable::<T>(#[trigger] store_deltas@[j]),
            },
    {
        let ghost raws = store_deltas@;
        let mut rest = reversed(store_deltas);
        let mut deltas: Vec<T> = Vec::new();
        let n = rest.len();
        let mut i: usize = 0;
        while i < n
            invariant
                raws == store_deltas@,
                n == raws.len(),
                i <= n,
                rest@.len() == n - i,
                forall|k: int| 0 <= k < n - i ==> rest@[k] == raws[n - 1 - k],
                deltas@.len() == i,
                forall|k: int| 0 <= k < i ==> (#[trigger] deltas@[k]).decodes(raws[k]),
                forall|k: int| 0 <= k < i ==> decodable::<T>(#[trigger] raws[k]),
            decreases n - i,
        {
            let raw = rest.pop().unwrap();
            assert(raw == raws[i as int]);
            match T::try_from_store_delta(raw) {
                Ok(d) => {
                    deltas.push(d);
                },
                Err(e) => {
                    proof {
                        let at = i as int;
                        assert(failure(
                            raws[at],
                            T::readable(raws[at].old_value@),
                            T::readable(raws[at].new_value@),
                        ) == Some(e));
                    }
                    return Err(e);
                },
            }
            i = i + 1;
        }
        Ok(Deltas { deltas })
    }

    /// Decodes `store_deltas`, each of which must decode.
    pub fn new(store_deltas: Vec<StoreDelta>) -> (out: Self)
        requires
            forall|i: int|
                0 <= i < store_deltas@.len() ==> decodable::<T>(#[trigger] store_deltas@[i]),
        ensures
            all_decode(out.deltas@, store_deltas@),
    {
        match Deltas::try_new(store_deltas) {
            Ok(d) => d,
            Err(_) => vstd::pervasive::unreached(),
        }
    }

    /// The deltas, to be walked once from the first to the last.
    pub fn iter(&self) -> (out: DeltaIter<'_, T>)
        ensures
            out.pending() == self.deltas@,
    {
        let out = DeltaIter { deltas: &self.deltas, at: 0 };
        proof {
            assert(out.pending() =~= self.deltas@);
        }
        out
    }

    /// The deltas themselves, in their order.
    pub fn into_iter(self) -> (out: Vec<T>)
        ensures
            out@ == self.deltas@,
    {
        self.deltas
    }
}

/// A walk over borrowed deltas that hands each out once.
pub struct DeltaIter<'a, T> {
    deltas: &'a Vec<T>,
    at: usize,
}

impl<'a, T: Delta> DeltaExt<'a, T> for DeltaIter<'a, T> {
    closed spec fn pending(&self) -> Seq<T> {
        if self.at <= self.deltas@.len() {
            self.deltas@.skip(self.at as int)
        } else {
            Seq::empty()
        }
    }

    open spec fn sound(&self) -> bool {
        true
    }

    fn next(&mut self) -> (out: Option<&'a T>) {
        if self.at < self.deltas.len() {
            let d = &self.deltas[self.at];
            proof {
                assert(self.deltas@.skip(self.at + 1) =~= self.deltas@.skip(self.at as int).skip(1));
            }
            self.at = self.at + 1;
            Some(d)
        } else {
            None
        }
    }
}

} // verus!
