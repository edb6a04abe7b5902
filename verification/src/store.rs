//! Typed stores.
//!
//! A store handle has no state of its own but, for a reading handle, the
//! index of the store it reads. Its type fixes how values are written down
//! and how the host merges them: there is one type for each pair of a merge
//! policy and a value encoding. Every function takes the [`Host`] that is
//! asked; a write says in its contract which [`Request`] the host receives.

use vstd::prelude::*;
use vstd::string::*;
use vstd::utf8::*;
pub use crate::codec::{
    array_of, decode_bytes_to_i32, decode_bytes_to_i64, decode_bytes_to_string, int64_of, items,
    items_are_text, reads_as, split_array, terminator, try_decode_bytes_to_i32,
    try_decode_bytes_to_i64, try_decode_bytes_to_string, try_split_array, Unreadable,
};
use crate::decimal::{decimal_text, encode_i64};
pub use crate::delta::{
    convert_i32_to_operation, Delta, DeltaArray, DeltaBigDecimal, DeltaBigInt, DeltaBool,
    DeltaBytes, DeltaExt, DeltaInt32, DeltaInt64, DeltaString, Deltas,
};
use crate::scalar::{bigdecimal_text, scale_in_range, BigDecimal, BigInt};
use crate::state::{Host, Payload, Policy, Request};

verus! {

/// The sequence number that the host is given for `ord`: the same number,
/// read as a signed one.
pub open spec fn ordinal(ord: u64) -> i64 {
    if ord <= i64::MAX as u64 {
        ord as i64
    } else {
        (ord - 0x1_0000_0000_0000_0000) as i64
    }
}

/// The request to write `payload` under `key` with policy `policy`.
pub open spec fn request(policy: Policy, ord: u64, key: Seq<char>, payload: Payload) -> Request {
    Request { policy, ord: ordinal(ord), key, payload }
}

/// One request for each of `keys`, in their order.
pub open spec fn requests_for(policy: Policy, ord: u64, keys: Seq<String>, payload: Payload) -> Seq<
    Request,
> {
    Seq::new(keys.len(), |i: int| request(policy, ord, keys[i]@, payload))
}

/// `ord` as the host takes it.
pub fn as_ordinal(ord: u64) -> (out: i64)
    ensures
        out == ordinal(ord),
{
    if ord <= 0x7fff_ffff_ffff_ffff {
        ord as i64
    } else {
        let below: u64 = ord - 0x8000_0000_0000_0000;
        if below == 0 {
            i64::MIN
        } else {
            (below as i64) + i64::MIN
        }
    }
}

/// A value on its way to the host.
pub enum Operand<'a> {
    /// Bytes as they are.
    Bytes(&'a [u8]),
    /// A 64-bit integer.
    Int64(i64),
    /// Text for a 64-bit integer.
    Int64Text(&'a [u8]),
    /// Text for an integer of any size.
    BigInt(&'a [u8]),
    /// Text for a decimal number of any size.
    BigDecimal(&'a [u8]),
}

impl<'a> View for Operand<'a> {
    type V = Payload;

    open spec fn view(&self) -> Payload {
        match self {
            Operand::Bytes(b) => Payload::Bytes(b@),
            Operand::Int64(v) => Payload::Int64(*v),
            Operand::Int64Text(b) => Payload::Int64Text(b@),
            Operand::BigInt(b) => Payload::BigInt(b@),
            Operand::BigDecimal(b) => Payload::BigDecimal(b@),
        }
    }
}

/// The host takes `payload` with `policy`: bytes are set or appended,
/// numbers are added or compared, and tagged numbers come as text.
pub open spec fn fits(policy: Policy, payload: Payload) -> bool {
    match policy {
        Policy::Overwrite | Policy::SetIfNotExists | Policy::Append => payload is Bytes,
        Policy::Add | Policy::Min | Policy::Max => payload is Int64 || payload is BigInt
            || payload is BigDecimal,
        Policy::SetSum => payload is Int64Text || payload is BigInt || payload is BigDecimal,
        Policy::DeletePrefix => false,
    }
}

/// Hands one write to the host.
pub fn ask<H: Host>(host: &mut H, policy: Policy, ord: u64, key: &str, value: &Operand<'_>)
    requires
        fits(policy, value@),
    ensures
        forall|idx: u32, k: Seq<char>| #[trigger]
            final(host).value_last(idx, k) == old(host).value_last(idx, k),
        final(host).requests() == old(host).requests().push(request(policy, ord, key@, value@)),
{
    let at = as_ordinal(ord);
    match (policy, value) {
        (Policy::Overwrite, Operand::Bytes(b)) => host.set(at, key, b),
        (Policy::SetIfNotExists, Operand::Bytes(b)) => host.set_if_not_exists(at, key, b),
        (Policy::Append, Operand::Bytes(b)) => host.append(at, key, b),
        (Policy::Add, Operand::Int64(v)) => host.add_int64(at, key, *v),
        (Policy::Add, Operand::BigInt(b)) => host.add_bigint(at, key, b),
        (Policy::Add, Operand::BigDecimal(b)) => host.add_bigdecimal(at, key, b),
        (Policy::Min, Operand::Int64(v)) => host.set_min_int64(at, key, *v),
        (Policy::Min, Operand::BigInt(b)) => host.set_min_bigint(at, key, b),
        (Policy::Min, Operand::BigDecimal(b)) => host.set_min_bigdecimal(at, key, b),
        (Policy::Max, Operand::Int64(v)) => host.set_max_int64(at, key, *v),
        (Policy::Max, Operand::BigInt(b)) => host.set_max_bigint(at, key, b),
        (Policy::Max, Operand::BigDecimal(b)) => host.set_max_bigdecimal(at, key, b),
        (Policy::SetSum, Operand::Int64Text(b)) => host.set_sum_int64(at, key, b),
        (Policy::SetSum, Operand::BigInt(b)) => host.set_sum_bigint(at, key, b),
        (Policy::SetSum, Operand::BigDecimal(b)) => host.set_sum_bigdecimal(at, key, b),
        _ => vstd::pervasive::unreached(),
    }
}

/// Hands the same write to the host for each of `keys`, in their order.
pub fn ask_many<H: Host>(
    host: &mut H,
    policy: Policy,
    ord: u64,
    keys: &Vec<String>,
    value: &Operand<'_>,
)
    requires
        fits(policy, value@),
    ensures
        forall|idx: u32, k: Seq<char>| #[trigger]
            final(host).value_last(idx, k) == old(host).value_last(idx, k),
        final(host).requests() == old(host).requests() + requests_for(policy, ord, keys@, value@),
{
    let n = keys.len();
    let mut i: usize = 0;
    proof {
        assert(old(host).requests() + requests_for(policy, ord, keys@.take(0), value@) =~= old(
            host,
        ).requests());
    }
    while i < n
        invariant
            n == keys@.len(),
            i <= n,
            fits(policy, value@),
            forall|idx: u32, k: Seq<char>| #[trigger]
                host.value_last(idx, k) == old(host).value_last(idx, k),
            host.requests() == old(host).requests() + requests_for(
                policy,
                ord,
                keys@.take(i as int),
                value@,
            ),
        decreases n - i,
    {
        ask(host, policy, ord, keys[i].as_str(), value);
        proof {
            assert(requests_for(policy, ord, keys@.take(i + 1), value@) =~= requests_for(
                policy,
                ord,
                keys@.take(i as int),
                value@,
            ).push(request(policy, ord, keys@[i as int]@, value@)));
        }
        i = i + 1;
    }
    proof {
        assert(keys@.take(n as int) =~= keys@);
    }
}

/// A store handle that can be made from nothing.
pub trait StoreNew: Sized {
    /// A handle to the module's store.
    fn new() -> Self;
}

/// A store whose keys can be deleted by prefix.
pub trait StoreDelete {
    /// Asks the host to delete every key that begins with `prefix`.
    fn delete_prefix<H: Host>(&self, host: &mut H, ord: i64, prefix: &String)
        ensures
            forall|idx: u32, k: Seq<char>| #[trigger]
                final(host).value_last(idx, k) == old(host).value_last(idx, k),
            final(host).requests() == old(host).requests().push(
                (Request {
                    policy: Policy::DeletePrefix,
                    ord,
                    key: prefix@,
                    payload: Payload::Nothing,
                }),
            ),
    ;
}

/// A store whose values replace what was there.
pub trait StoreSet<V>: StoreNew + StoreDelete {
    /// What the host is handed for `value`.
    spec fn payload(value: &V) -> Payload;

    /// `value` can be written down.
    spec fn writable(value: &V) -> bool;

    /// Sets `key` to `value`, whatever it held.
    fn set<H: Host>(&self, host: &mut H, ord: u64, key: &str, value: &V)
        requires
            Self::writable(value),
        ensures
            forall|idx: u32, k: Seq<char>| #[trigger]
                final(host).value_last(idx, k) == old(host).value_last(idx, k),
            final(host).requests() == old(host).requests().push(
                request(Policy::Overwrite, ord, key@, Self::payload(value)),
            ),
    ;

    /// Sets each of `keys` to `value`, in their order.
    fn set_many<H: Host>(&self, host: &mut H, ord: u64, keys: &Vec<String>, value: &V)
        requires
            Self::writable(value),
        ensures
            forall|idx: u32, k: Seq<char>| #[trigger]
                final(host).value_last(idx, k) == old(host).value_last(idx, k),
            final(host).requests() == old(host).requests() + requests_for(
                Policy::Overwrite,
                ord,
                keys@,
                Self::payload(value),
            ),
    ;
}

/// A store whose values are kept only under keys that held nothing.
pub trait StoreSetIfNotExists<V>: StoreDelete + StoreNew {
    /// What the host is handed for `value`.
    spec fn payload(value: &V) -> Payload;

    /// `value` can be written down.
    spec fn writable(value: &V) -> bool;

    /// Sets `key` to `value` unless the key holds a value already.
    fn set_if_not_exists<H: Host>(&self, host: &mut H, ord: u64, key: &str, value: &V)
        requires
            Self::writable(value),
        ensures
            forall|idx: u32, k: Seq<char>| #[trigger]
                final(host).value_last(idx, k) == old(host).value_last(idx, k),
            final(host).requests() == old(host).requests().push(
                request(Policy::SetIfNotExists, ord, key@, Self::payload(value)),
            ),
    ;

    /// Sets each of `keys` to `value` unless it holds a value already.
    fn set_if_not_exists_many<H: Host>(
        &self,
        host: &mut H,
        ord: u64,
        keys: &Vec<String>,
        value: &V,
    )
        requires
            Self::writable(value),
        ensures
            forall|idx: u32, k: Seq<char>| #[trigger]
                final(host).value_last(idx, k) == old(host).value_last(idx, k),
            final(host).requests() == old(host).requests() + requests_for(
                Policy::SetIfNotExists,
                ord,
                keys@,
                Self::payload(value),
            ),
    ;
}

/// A store whose values are added up by the host.
pub trait StoreAdd<V>: StoreDelete + StoreNew {
    /// What the host is handed for `value`.
    spec fn payload(value: &V) -> Payload;

    /// `value` can be written down.
    spec fn writable(value: &V) -> bool;

    /// Adds `value` to what `key` holds; a key that holds nothing counts as
    /// zero.
    fn add<H: Host>(&self, host: &mut H, ord: u64, key: &str, value: V)
        requires
            Self::writable(&value),
        ensures
            forall|idx: u32, k: Seq<char>| #[trigger]
                final(host).value_last(idx, k) == old(host).value_last(idx, k),
            final(host).requests() == old(host).requests().push(
                request(Policy::Add, ord, key@, Self::payload(&value)),
            ),
    ;

    /// Adds `value` to what each of `keys` holds.
    fn add_many<H: Host>(&self, host: &mut H, ord: u64, keys: &Vec<String>, value: V)
        requires
            Self::writable(&value),
        ensures
            forall|idx: u32, k: Seq<char>| #[trigger]
                final(host).value_last(idx, k) == old(host).value_last(idx, k),
            final(host).requests() == old(host).requests() + requests_for(
                Policy::Add,
                ord,
                keys@,
                Self::payload(&value),
            ),
    ;
}

/// A store that keeps the largest value written to a key.
pub trait StoreMax<V>: StoreNew + StoreDelete {
    /// What the host is handed for `value`.
    spec fn payload(value: &V) -> Payload;

    /// `value` can be written down.
    spec fn writable(value: &V) -> bool;

    /// Sets `key` to `value` if `value` is above what the key holds; a key
    /// that holds nothing counts as zero.
    fn max<H: Host>(&self, host: &mut H, ord: u64, key: &str, value: V)
        requires
            Self::writable(&value),
        ensures
            forall|idx: u32, k: Seq<char>| #[trigger]
                final(host).value_last(idx, k) == old(host).value_last(idx, k),
            final(host).requests() == old(host).requests().push(
                request(Policy::Max, ord, key@, Self::payload(&value)),
            ),
    ;
}

/// A store that keeps the smallest value written to a key.
pub trait StoreMin<V>: StoreNew + StoreDelete {
    /// What the host is handed for `value`.
    spec fn payload(value: &V) -> Payload;

    /// `value` can be written down.
    spec fn writable(value: &V) -> bool;

    /// Sets `key` to `value` if `value` is below what the key holds; a key
    /// that holds nothing counts as zero.
    fn min<H: Host>(&self, host: &mut H, ord: u64, key: &str, value: V)
        requires
            Self::writable(&value),
        ensures
            forall|idx: u32, k: Seq<char>| #[trigger]
                final(host).value_last(idx, k) == old(host).value_last(idx, k),
            final(host).requests() == old(host).requests().push(
                request(Policy::Min, ord, key@, Self::payload(&value)),
            ),
    ;
}

/// The requests that append items with the bytes `parts` to `key`, in their
/// order.
pub open spec fn appends(ord: u64, key: Seq<char>, parts: Seq<Seq<u8>>) -> Seq<Request> {
    Seq::new(
        parts.len(),
        |i: int| request(Policy::Append, ord, key, Payload::Bytes(parts[i].push(terminator()))),
    )
}

/// A store whose values grow by appending. Each item is followed by the
/// terminator `;`, so that what a key holds reads as an array; an item that
/// holds the terminator itself reads as several.
pub trait Appender<T>: Sized {
    /// The bytes of `item`, without the terminator.
    spec fn item_bytes(item: &T) -> Seq<u8>;

    /// A handle to the module's store.
    fn new() -> Self;

    /// Puts `item` and the terminator behind what `key` holds.
    fn append<H: Host>(&self, host: &mut H, ord: u64, key: &str, item: T)
        ensures
            forall|idx: u32, k: Seq<char>| #[trigger]
                final(host).value_last(idx, k) == old(host).value_last(idx, k),
            final(host).requests() == old(host).requests().push(
                request(
                    Policy::Append,
                    ord,
                    key@,
                    Payload::Bytes(Self::item_bytes(&item).push(terminator())),
                ),
            ),
    ;

    /// Appends each of `items`, in their order.
    fn append_all<H: Host>(&self, host: &mut H, ord: u64, key: &str, items: Vec<T>)
        ensures
            forall|idx: u32, k: Seq<char>| #[trigger]
                final(host).value_last(idx, k) == old(host).value_last(idx, k),
            final(host).requests() == old(host).requests() + appends(
                ord,
                key@,
                items@.map_values(|item: T| Self::item_bytes(&item)),
            ),
    ;
}

/// A store of items that grows by appending.
pub struct StoreAppend<T> {
    casper: core::marker::PhantomData<T>,
}

impl Appender<String> for StoreAppend<String> {
    open spec fn item_bytes(item: &String) -> Seq<u8> {
        encode_utf8(item@)
    }

    fn new() -> Self {
        StoreAppend { casper: core::marker::PhantomData }
    }

    fn append<H: Host>(&self, host: &mut H, ord: u64, key: &str, item: String) {
        let mut bytes = item.as_str().as_bytes_vec();
        bytes.push(59u8);
        ask(host, Policy::Append, ord, key, &Operand::Bytes(bytes.as_slice()));
    }

    fn append_all<H: Host>(&self, host: &mut H, ord: u64, key: &str, items: Vec<String>) {
        let n = items.len();
        let mut i: usize = 0;
        let ghost parts = items@.map_values(|item: String| Self::item_bytes(&item));
        proof {
            assert(old(host).requests() + appends(ord, key@, parts.take(0)) =~= old(
                host,
            ).requests());
        }
        while i < n
            invariant
                n == items@.len(),
                i <= n,
                parts == items@.map_values(|item: String| Self::item_bytes(&item)),
                forall|idx: u32, k: Seq<char>| #[trigger]
                    host.value_last(idx, k) == old(host).value_last(idx, k),
                host.requests() == old(host).requests() + appends(ord, key@, parts.take(i as int)),
            decreases n - i,
        {
            let mut bytes = items[i].as_str().as_bytes_vec();
            bytes.push(59u8);
            ask(host, Policy::Append, ord, key, &Operand::Bytes(bytes.as_slice()));
            proof {
                assert(parts[i as int] == encode_utf8(items@[i as int]@));
                assert(appends(ord, key@, parts.take(i + 1)) =~= appends(
                    ord,
                    key@,
                    parts.take(i as int),
                ).push(
                    request(
                        Policy::Append,
                        ord,
                        key@,
                        Payload::Bytes(parts[i as int].push(terminator())),
                    ),
                ));
            }
            i = i + 1;
        }
        proof {
            assert(parts.take(n as int) =~= parts);
        }
    }
}

/// A store of bytes
/// whose values replace what was there.
pub struct StoreSetRaw {}

impl StoreNew for StoreSetRaw {
    fn new() -> Self {
        StoreSetRaw {  }
    }
}

impl StoreDelete for StoreSetRaw {
    fn delete_prefix<H: Host>(&self, host: &mut H, ord: i64, prefix: &String) {
        host.delete_prefix(ord, prefix.as_str());
    }
}

impl StoreSet<Vec<u8>> for StoreSetRaw {
    open spec fn payload(value: &Vec<u8>) -> Payload {
        Payload::Bytes(value@)
    }

    open spec fn writable(value: &Vec<u8>) -> bool {
        true
    }

    fn set<H: Host>(&self, host: &mut H, ord: u64, key: &str, value: &Vec<u8>) {
        let bytes = value.as_slice();
        ask(host, Policy::Overwrite, ord, key, &Operand::Bytes(bytes));
    }

    fn set_many<H: Host>(&self, host: &mut H, ord: u64, keys: &Vec<String>, value: &Vec<u8>) {
        let bytes = value.as_slice();
        ask_many(host, Policy::Overwrite, ord, keys, &Operand::Bytes(bytes));
    }
}

/// A store of texts
/// whose values replace what was there.
pub struct StoreSetString {}

impl StoreNew for StoreSetString {
    fn new() -> Self {
        StoreSetString {  }
    }
}

impl StoreDelete for StoreSetString {
    fn delete_prefix<H: Host>(&self, host: &mut H, ord: i64, prefix: &String) {
        host.delete_prefix(ord, prefix.as_str());
    }
}

impl StoreSet<String> for StoreSetString {
    open spec fn payload(value: &String) -> Payload {
        Payload::Bytes(encode_utf8(value@))
    }

    open spec fn writable(value: &String) -> bool {
        true
    }

    fn set<H: Host>(&self, host: &mut H, ord: u64, key: &str, value: &String) {
        let bytes = value.as_str().as_bytes();
        ask(host, Policy::Overwrite, ord, key, &Operand::Bytes(bytes));
    }

    fn set_many<H: Host>(&self, host: &mut H, ord: u64, keys: &Vec<String>, value: &String) {
        let bytes = value.as_str().as_bytes();
        ask_many(host, Policy::Overwrite, ord, keys, &Operand::Bytes(bytes));
    }
}

/// A store of 64-bit integers, written as decimal text,
/// whose values replace what was there.
pub struct StoreSetInt64 {}

impl StoreNew for StoreSetInt64 {
    fn new() -> Self {
        StoreSetInt64 {  }
    }
}

impl StoreDelete for StoreSetInt64 {
    fn delete_prefix<H: Host>(&self, host: &mut H, ord: i64, prefix: &String) {
        host.delete_prefix(ord, prefix.as_str());
    }
}

impl StoreSet<i64> for StoreSetInt64 {
    open spec fn payload(value: &i64) -> Payload {
        Payload::Bytes(decimal_text(*value as int))
    }

    open spec fn writable(value: &i64) -> bool {
        true
    }

    fn set<H: Host>(&self, host: &mut H, ord: u64, key: &str, value: &i64) {
        let text = encode_i64(*value);
        let bytes = text.as_slice();
        ask(host, Policy::Overwrite, ord, key, &Operand::Bytes(bytes));
    }

    fn set_many<H: Host>(&self, host: &mut H, ord: u64, keys: &Vec<String>, value: &i64) {
        let text = encode_i64(*value);
        let bytes = text.as_slice();
        ask_many(host, Policy::Overwrite, ord, keys, &Operand::Bytes(bytes));
    }
}

/// A store of decimal numbers of any size, written as text,
/// whose values replace what was there.
pub struct StoreSetBigDecimal {}

impl StoreNew for StoreSetBigDecimal {
    fn new() -> Self {
        StoreSetBigDecimal {  }
    }
}

impl StoreDelete for StoreSetBigDecimal {
    fn delete_prefix<H: Host>(&self, host: &mut H, ord: i64, prefix: &String) {
        host.delete_prefix(ord, prefix.as_str());
    }
}

impl StoreSet<BigDecimal> for StoreSetBigDecimal {
    open spec fn payload(value: &BigDecimal) -> Payload {
        Payload::Bytes(bigdecimal_text(value@.0, value@.1))
    }

    open spec fn writable(value: &BigDecimal) -> bool {
        scale_in_range(value@.1)
    }

    fn set<H: Host>(&self, host: &mut H, ord: u64, key: &str, value: &BigDecimal) {
        let text = value.to_store_bytes();
        let bytes = text.as_slice();
        ask(host, Policy::Overwrite, ord, key, &Operand::Bytes(bytes));
    }

    fn set_many<H: Host>(&self, host: &mut H, ord: u64, keys: &Vec<String>, value: &BigDecimal) {
        let text = value.to_store_bytes();
        let bytes = text.as_slice();
        ask_many(host, Policy::Overwrite, ord, keys, &Operand::Bytes(bytes));
    }
}

/// A store of integers of any size, written as decimal text,
/// whose values replace what was there.
pub struct StoreSetBigInt {}

impl StoreNew for StoreSetBigInt {
    fn new() -> Self {
        StoreSetBigInt {  }
    }
}

impl StoreDelete for StoreSetBigInt {
    fn delete_prefix<H: Host>(&self, host: &mut H, ord: i64, prefix: &String) {
        host.delete_prefix(ord, prefix.as_str());
    }
}

impl StoreSet<BigInt> for StoreSetBigInt {
    open spec fn payload(value: &BigInt) -> Payload {
        Payload::Bytes(decimal_text(value@))
    }

    open spec fn writable(value: &BigInt) -> bool {
        true
    }

    fn set<H: Host>(&self, host: &mut H, ord: u64, key: &str, value: &BigInt) {
        let text = value.to_store_bytes();
        let bytes = text.as_slice();
        ask(host, Policy::Overwrite, ord, key, &Operand::Bytes(bytes));
    }

    fn set_many<H: Host>(&self, host: &mut H, ord: u64, keys: &Vec<String>, value: &BigInt) {
        let text = value.to_store_bytes();
        let bytes = text.as_slice();
        ask_many(host, Policy::Overwrite, ord, keys, &Operand::Bytes(bytes));
    }
}

/// A store of bytes
/// whose values are kept only under keys that held nothing.
pub struct StoreSetIfNotExistsRaw {}

impl StoreNew for StoreSetIfNotExistsRaw {
    fn new() -> Self {
        StoreSetIfNotExistsRaw {  }
    }
}

impl StoreDelete for StoreSetIfNotExistsRaw {
    fn delete_prefix<H: Host>(&self, host: &mut H, ord: i64, prefix: &String) {
        host.delete_prefix(ord, prefix.as_str());
    }
}

impl StoreSetIfNotExists<Vec<u8>> for StoreSetIfNotExistsRaw {
    open spec fn payload(value: &Vec<u8>) -> Payload {
        Payload::Bytes(value@)
    }

    open spec fn writable(value: &Vec<u8>) -> bool {
        true
    }

    fn set_if_not_exists<H: Host>(&self, host: &mut H, ord: u64, key: &str, value: &Vec<u8>) {
        let bytes = value.as_slice();
        ask(host, Policy::SetIfNotExists, ord, key, &Operand::Bytes(bytes));
    }

    fn set_if_not_exists_many<H: Host>(&self, host: &mut H, ord: u64, keys: &Vec<String>, value: &Vec<u8>) {
        let bytes = value.as_slice();
        ask_many(host, Policy::SetIfNotExists, ord, keys, &Operand::Bytes(bytes));
    }
}

/// A store of texts
/// whose values are kept only under keys that held nothing.
pub struct StoreSetIfNotExistsString {}

impl StoreNew for StoreSetIfNotExistsString {
    fn new() -> Self {
        StoreSetIfNotExistsString {  }
    }
}

impl StoreDelete for StoreSetIfNotExistsString {
    fn delete_prefix<H: Host>(&self, host: &mut H, ord: i64, prefix: &String) {
        host.delete_prefix(ord, prefix.as_str());
    }
}

impl StoreSetIfNotExists<String> for StoreSetIfNotExistsString {
    open spec fn payload(value: &String) -> Payload {
        Payload::Bytes(encode_utf8(value@))
    }

    open spec fn writable(value: &String) -> bool {
        true
    }

    fn set_if_not_exists<H: Host>(&self, host: &mut H, ord: u64, key: &str, value: &String) {
        let bytes = value.as_str().as_bytes();
        ask(host, Policy::SetIfNotExists, ord, key, &Operand::Bytes(bytes));
    }

    fn set_if_not_exists_many<H: Host>(&self, host: &mut H, ord: u64, keys: &Vec<String>, value: &String) {
        let bytes = value.as_str().as_bytes();
        ask_many(host, Policy::SetIfNotExists, ord, keys, &Operand::Bytes(bytes));
    }
}

/// A store of 64-bit integers, written as decimal text,
/// whose values are kept only under keys that held nothing.
pub struct StoreSetIfNotExistsInt64 {}

impl StoreNew for StoreSetIfNotExistsInt64 {
    fn new() -> Self {
        StoreSetIfNotExistsInt64 {  }
    }
}

impl StoreDelete for StoreSetIfNotExistsInt64 {
    fn delete_prefix<H: Host>(&self, host: &mut H, ord: i64, prefix: &String) {
        host.delete_prefix(ord, prefix.as_str());
    }
}

impl StoreSetIfNotExists<i64> for StoreSetIfNotExistsInt64 {
    open spec fn payload(value: &i64) -> Payload {
        Payload::Bytes(decimal_text(*value as int))
    }

    open spec fn writable(value: &i64) -> bool {
        true
    }

    fn set_if_not_exists<H: Host>(&self, host: &mut H, ord: u64, key: &str, value: &i64) {
        let text = encode_i64(*value);
        let bytes = text.as_slice();
        ask(host, Policy::SetIfNotExists, ord, key, &Operand::Bytes(bytes));
    }

    fn set_if_not_exists_many<H: Host>(&self, host: &mut H, ord: u64, keys: &Vec<String>, value: &i64) {
        let text = encode_i64(*value);
        let bytes = text.as_slice();
        ask_many(host, Policy::SetIfNotExists, ord, keys, &Operand::Bytes(bytes));
    }
}

/// A store of decimal numbers of any size, written as text,
/// whose values are kept only under keys that held nothing.
pub struct StoreSetIfNotExistsBigDecimal {}

impl StoreNew for StoreSetIfNotExistsBigDecimal {
    fn new() -> Self {
        StoreSetIfNotExistsBigDecimal {  }
    }
}

impl StoreDelete for StoreSetIfNotExistsBigDecimal {
    fn delete_prefix<H: Host>(&self, host: &mut H, ord: i64, prefix: &String) {
        host.delete_prefix(ord, prefix.as_str());
    }
}

impl StoreSetIfNotExists<BigDecimal> for StoreSetIfNotExistsBigDecimal {
    open spec fn payload(value: &BigDecimal) -> Payload {
        Payload::Bytes(bigdecimal_text(value@.0, value@.1))
    }

    open spec fn writable(value: &BigDecimal) -> bool {
        scale_in_range(value@.1)
    }

    fn set_if_not_exists<H: Host>(&self, host: &mut H, ord: u64, key: &str, value: &BigDecimal) {
        let text = value.to_store_bytes();
        let bytes = text.as_slice();
        ask(host, Policy::SetIfNotExists, ord, key, &Operand::Bytes(bytes));
    }

    fn set_if_not_exists_many<H: Host>(&self, host: &mut H, ord: u64, keys: &Vec<String>, value: &BigDecimal) {
        let text = value.to_store_bytes();
        let bytes = text.as_slice();
        ask_many(host, Policy::SetIfNotExists, ord, keys, &Operand::Bytes(bytes));
    }
}

/// A store of integers of any size, written as decimal text,
/// whose values are kept only under keys that held nothing.
pub struct StoreSetIfNotExistsBigInt {}

impl StoreNew for StoreSetIfNotExistsBigInt {
    fn new() -> Self {
        StoreSetIfNotExistsBigInt {  }
    }
}

impl StoreDelete for StoreSetIfNotExistsBigInt {
    fn delete_prefix<H: Host>(&self, host: &mut H, ord: i64, prefix: &String) {
        host.delete_prefix(ord, prefix.as_str());
    }
}

impl StoreSetIfNotExists<BigInt> for StoreSetIfNotExistsBigInt {
    open spec fn payload(value: &BigInt) -> Payload {
        Payload::Bytes(decimal_text(value@))
    }

    open spec fn writable(value: &BigInt) -> bool {
        true
    }

    fn set_if_not_exists<H: Host>(&self, host: &mut H, ord: u64, key: &str, value: &BigInt) {
        let text = value.to_store_bytes();
        let bytes = text.as_slice();
        ask(host, Policy::SetIfNotExists, ord, key, &Operand::Bytes(bytes));
    }

    fn set_if_not_exists_many<H: Host>(&self, host: &mut H, ord: u64, keys: &Vec<String>, value: &BigInt) {
        let text = value.to_store_bytes();
        let bytes = text.as_slice();
        ask_many(host, Policy::SetIfNotExists, ord, keys, &Operand::Bytes(bytes));
    }
}

/// A store of 64-bit integers that the host adds up.
pub struct StoreAddInt64 {}

impl StoreNew for StoreAddInt64 {
    fn new() -> Self {
        StoreAddInt64 {  }
    }
}

impl StoreDelete for StoreAddInt64 {
    fn delete_prefix<H: Host>(&self, host: &mut H, ord: i64, prefix: &String) {
        host.delete_prefix(ord, prefix.as_str());
    }
}

impl StoreAdd<i64> for StoreAddInt64 {
    open spec fn payload(value: &i64) -> Payload {
        Payload::Int64(*value)
    }

    open spec fn writable(value: &i64) -> bool {
        true
    }

    fn add<H: Host>(&self, host: &mut H, ord: u64, key: &str, value: i64) {
        ask(host, Policy::Add, ord, key, &Operand::Int64(value));
    }

    fn add_many<H: Host>(&self, host: &mut H, ord: u64, keys: &Vec<String>, value: i64) {
        ask_many(host, Policy::Add, ord, keys, &Operand::Int64(value));
    }
}

/// A store of decimal numbers of any size that the host adds up.
pub struct StoreAddBigDecimal {}

impl StoreNew for StoreAddBigDecimal {
    fn new() -> Self {
        StoreAddBigDecimal {  }
    }
}

impl StoreDelete for StoreAddBigDecimal {
    fn delete_prefix<H: Host>(&self, host: &mut H, ord: i64, prefix: &String) {
        host.delete_prefix(ord, prefix.as_str());
    }
}

impl StoreAdd<BigDecimal> for StoreAddBigDecimal {
    open spec fn payload(value: &BigDecimal) -> Payload {
        Payload::BigDecimal(bigdecimal_text(value@.0, value@.1))
    }

    open spec fn writable(value: &BigDecimal) -> bool {
        scale_in_range(value@.1)
    }

    fn add<H: Host>(&self, host: &mut H, ord: u64, key: &str, value: BigDecimal) {
        let text = value.to_store_bytes();
        ask(host, Policy::Add, ord, key, &Operand::BigDecimal(text.as_slice()));
    }

    fn add_many<H: Host>(&self, host: &mut H, ord: u64, keys: &Vec<String>, value: BigDecimal) {
        let text = value.to_store_bytes();
        ask_many(host, Policy::Add, ord, keys, &Operand::BigDecimal(text.as_slice()));
    }
}

/// A store of integers of any size that the host adds up.
pub struct StoreAddBigInt {}

impl StoreNew for StoreAddBigInt {
    fn new() -> Self {
        StoreAddBigInt {  }
    }
}

impl StoreDelete for StoreAddBigInt {
    fn delete_prefix<H: Host>(&self, host: &mut H, ord: i64, prefix: &String) {
        host.delete_prefix(ord, prefix.as_str());
    }
}

impl StoreAdd<BigInt> for StoreAddBigInt {
    open spec fn payload(value: &BigInt) -> Payload {
        Payload::BigInt(decimal_text(value@))
    }

    open spec fn writable(value: &BigInt) -> bool {
        true
    }

    fn add<H: Host>(&self, host: &mut H, ord: u64, key: &str, value: BigInt) {
        let text = value.to_store_bytes();
        ask(host, Policy::Add, ord, key, &Operand::BigInt(text.as_slice()));
    }

    fn add_many<H: Host>(&self, host: &mut H, ord: u64, keys: &Vec<String>, value: BigInt) {
        let text = value.to_store_bytes();
        ask_many(host, Policy::Add, ord, keys, &Operand::BigInt(text.as_slice()));
    }
}

/// A store of 64-bit integers that keeps the largest value written to a key.
pub struct StoreMaxInt64 {}

impl StoreNew for StoreMaxInt64 {
    fn new() -> Self {
        StoreMaxInt64 {  }
    }
}

impl StoreDelete for StoreMaxInt64 {
    fn delete_prefix<H: Host>(&self, host: &mut H, ord: i64, prefix: &String) {
        host.delete_prefix(ord, prefix.as_str());
    }
}

impl StoreMax<i64> for StoreMaxInt64 {
    open spec fn payload(value: &i64) -> Payload {
        Payload::Int64(*value)
    }

    open spec fn writable(value: &i64) -> bool {
        true
    }

    fn max<H: Host>(&self, host: &mut H, ord: u64, key: &str, value: i64) {
        ask(host, Policy::Max, ord, key, &Operand::Int64(value));
    }
}

/// A store of integers of any size that keeps the largest value written to a key.
pub struct StoreMaxBigInt {}

impl StoreNew for StoreMaxBigInt {
    fn new() -> Self {
        StoreMaxBigInt {  }
    }
}

impl StoreDelete for StoreMaxBigInt {
    fn delete_prefix<H: Host>(&self, host: &mut H, ord: i64, prefix: &String) {
        host.delete_prefix(ord, prefix.as_str());
    }
}

impl StoreMax<BigInt> for StoreMaxBigInt {
    open spec fn payload(value: &BigInt) -> Payload {
        Payload::BigInt(decimal_text(value@))
    }

    open spec fn writable(value: &BigInt) -> bool {
        true
    }

    fn max<H: Host>(&self, host: &mut H, ord: u64, key: &str, value: BigInt) {
        let text = value.to_store_bytes();
        ask(host, Policy::Max, ord, key, &Operand::BigInt(text.as_slice()));
    }
}

/// A store of decimal numbers of any size that keeps the largest value written to a key.
pub struct StoreMaxBigDecimal {}

impl StoreNew for StoreMaxBigDecimal {
    fn new() -> Self {
        StoreMaxBigDecimal {  }
    }
}

impl StoreDelete for StoreMaxBigDecimal {
    fn delete_prefix<H: Host>(&self, host: &mut H, ord: i64, prefix: &String) {
        host.delete_prefix(ord, prefix.as_str());
    }
}

impl StoreMax<BigDecimal> for StoreMaxBigDecimal {
    open spec fn payload(value: &BigDecimal) -> Payload {
        Payload::BigDecimal(bigdecimal_text(value@.0, value@.1))
    }

    open spec fn writable(value: &BigDecimal) -> bool {
        scale_in_range(value@.1)
    }

    fn max<H: Host>(&self, host: &mut H, ord: u64, key: &str, value: BigDecimal) {
        let text = value.to_store_bytes();
        ask(host, Policy::Max, ord, key, &Operand::BigDecimal(text.as_slice()));
    }
}

/// A store of 64-bit integers that keeps the smallest value written to a key.
pub struct StoreMinInt64 {}

impl StoreNew for StoreMinInt64 {
    fn new() -> Self {
        StoreMinInt64 {  }
    }
}

impl StoreDelete for StoreMinInt64 {
    fn delete_prefix<H: Host>(&self, host: &mut H, ord: i64, prefix: &String) {
        host.delete_prefix(ord, prefix.as_str());
    }
}

impl StoreMin<i64> for StoreMinInt64 {
    open spec fn payload(value: &i64) -> Payload {
        Payload::Int64(*value)
    }

    open spec fn writable(value: &i64) -> bool {
        true
    }

    fn min<H: Host>(&self, host: &mut H, ord: u64, key: &str, value: i64) {
        ask(host, Policy::Min, ord, key, &Operand::Int64(value));
    }
}

/// A store of integers of any size that keeps the smallest value written to a key.
pub struct StoreMinBigInt {}

impl StoreNew for StoreMinBigInt {
    fn new() -> Self {
        StoreMinBigInt {  }
    }
}

impl StoreDelete for StoreMinBigInt {
    fn delete_prefix<H: Host>(&self, host: &mut H, ord: i64, prefix: &String) {
        host.delete_prefix(ord, prefix.as_str());
    }
}

impl StoreMin<BigInt> for StoreMinBigInt {
    open spec fn payload(value: &BigInt) -> Payload {
        Payload::BigInt(decimal_text(value@))
    }

    open spec fn writable(value: &BigInt) -> bool {
        true
    }

    fn min<H: Host>(&self, host: &mut H, ord: u64, key: &str, value: BigInt) {
        let text = value.to_store_bytes();
        ask(host, Policy::Min, ord, key, &Operand::BigInt(text.as_slice()));
    }
}

/// A store of decimal numbers of any size that keeps the smallest value written to a key.
pub struct StoreMinBigDecimal {}

impl StoreNew for StoreMinBigDecimal {
    fn new() -> Self {
        StoreMinBigDecimal {  }
    }
}

impl StoreDelete for StoreMinBigDecimal {
    fn delete_prefix<H: Host>(&self, host: &mut H, ord: i64, prefix: &String) {
        host.delete_prefix(ord, prefix.as_str());
    }
}

impl StoreMin<BigDecimal> for StoreMinBigDecimal {
    open spec fn payload(value: &BigDecimal) -> Payload {
        Payload::BigDecimal(bigdecimal_text(value@.0, value@.1))
    }

    open spec fn writable(value: &BigDecimal) -> bool {
        scale_in_range(value@.1)
    }

    fn min<H: Host>(&self, host: &mut H, ord: u64, key: &str, value: BigDecimal) {
        let text = value.to_store_bytes();
        ask(host, Policy::Min, ord, key, &Operand::BigDecimal(text.as_slice()));
    }
}

/// The tag of a number that replaces what is there: `set:`.
pub open spec fn set_tag() -> Seq<u8> {
    seq![115u8, 101u8, 116u8, 58u8]
}

/// The tag of a number that is added to what is there: `sum:`.
pub open spec fn sum_tag() -> Seq<u8> {
    seq![115u8, 117u8, 109u8, 58u8]
}

/// The text that asks for the number with the text `number` to be put in
/// place of what is there.
pub open spec fn set_text(number: Seq<u8>) -> Seq<u8> {
    set_tag() + number
}

/// The text that asks for the number with the text `number` to be added to
/// what is there.
pub open spec fn sum_text(number: Seq<u8>) -> Seq<u8> {
    sum_tag() + number
}

/// What a tagged text asks for: whether the number replaces what is there,
/// and the text of the number. `None` if the text begins with neither tag.
pub open spec fn untagged(text: Seq<u8>) -> Option<(bool, Seq<u8>)> {
    if text.len() >= 4 && text.take(4) == set_tag() {
        Some((true, text.skip(4)))
    } else if text.len() >= 4 && text.take(4) == sum_tag() {
        Some((false, text.skip(4)))
    } else {
        None
    }
}

/// Taking the tag off a tagged text gives back what was tagged.
pub proof fn lemma_untagged(number: Seq<u8>)
    ensures
        untagged(set_text(number)) == Some((true, number)),
        untagged(sum_text(number)) == Some((false, number)),
{
    assert(set_text(number).take(4) =~= set_tag());
    assert(set_text(number).skip(4) =~= number);
    assert(sum_text(number).take(4) =~= sum_tag());
    assert(sum_text(number).skip(4) =~= number);
    assert(sum_tag()[1] != set_tag()[1]);
}

/// `number` behind the tag for replacing, or, if `adding` is set, behind
/// the tag for adding.
fn tagged(adding: bool, number: &[u8]) -> (text: Vec<u8>)
    ensures
        text@ == if adding {
            sum_text(number@)
        } else {
            set_text(number@)
        },
{
    let mut text: Vec<u8> = Vec::new();
    text.push(115u8);
    if adding {
        text.push(117u8);
        text.push(109u8);
    } else {
        text.push(101u8);
        text.push(116u8);
    }
    text.push(58u8);
    let ghost tag = text@;
    let n = number.len();
    let mut i: usize = 0;
    proof {
        assert(tag + number@.take(0) =~= tag);
    }
    while i < n
        invariant
            n == number@.len(),
            i <= n,
            text@ == tag + number@.take(i as int),
        decreases n - i,
    {
        text.push(number[i]);
        proof {
            assert(tag + number@.take(i + 1) =~= (tag + number@.take(i as int)).push(
                number@[i as int],
            ));
        }
        i = i + 1;
    }
    proof {
        assert(number@.take(n as int) =~= number@);
        assert(tag =~= if adding {
            sum_tag()
        } else {
            set_tag()
        });
    }
    text
}

/// A store of numbers that are either put in place of what a key holds or
/// added to it: each write says which.
pub trait StoreSetSum<V>: Sized {
    /// The text of `value`.
    spec fn number(value: &V) -> Seq<u8>;

    /// What the host is handed for the tagged text `text`.
    spec fn payload(text: Seq<u8>) -> Payload;

    /// `value` can be written down.
    spec fn writable(value: &V) -> bool;

    /// A handle to the module's store.
    fn new() -> Self;

    /// Puts `value` in place of what `key` holds.
    fn set<H: Host>(&self, host: &mut H, ord: u64, key: &str, value: V)
        requires
            Self::writable(&value),
        ensures
            forall|idx: u32, k: Seq<char>| #[trigger]
                final(host).value_last(idx, k) == old(host).value_last(idx, k),
            final(host).requests() == old(host).requests().push(
                request(Policy::SetSum, ord, key@, Self::payload(set_text(Self::number(&value)))),
            ),
    ;

    /// Adds `value` to what `key` holds.
    fn sum<H: Host>(&self, host: &mut H, ord: u64, key: &str, value: V)
        requires
            Self::writable(&value),
        ensures
            forall|idx: u32, k: Seq<char>| #[trigger]
                final(host).value_last(idx, k) == old(host).value_last(idx, k),
            final(host).requests() == old(host).requests().push(
                request(Policy::SetSum, ord, key@, Self::payload(sum_text(Self::number(&value)))),
            ),
    ;
}

/// A store of 64-bit integers that are put in place of what a key holds or
/// added to it.
pub struct StoreSetSumInt64 {}

impl StoreSetSum<i64> for StoreSetSumInt64 {
    open spec fn number(value: &i64) -> Seq<u8> {
        decimal_text(*value as int)
    }

    open spec fn payload(text: Seq<u8>) -> Payload {
        Payload::Int64Text(text)
    }

    open spec fn writable(value: &i64) -> bool {
        true
    }

    fn new() -> Self {
        StoreSetSumInt64 {  }
    }

    fn set<H: Host>(&self, host: &mut H, ord: u64, key: &str, value: i64) {
        let number = encode_i64(value);
        let text = tagged(false, number.as_slice());
        ask(host, Policy::SetSum, ord, key, &Operand::Int64Text(text.as_slice()));
    }

    fn sum<H: Host>(&self, host: &mut H, ord: u64, key: &str, value: i64) {
        let number = encode_i64(value);
        let text = tagged(true, number.as_slice());
        ask(host, Policy::SetSum, ord, key, &Operand::Int64Text(text.as_slice()));
    }
}

/// A store of integers of any size that are put in place of what a key holds or
/// added to it.
pub struct StoreSetSumBigInt {}

impl StoreSetSum<BigInt> for StoreSetSumBigInt {
    open spec fn number(value: &BigInt) -> Seq<u8> {
        decimal_text(value@)
    }

    open spec fn payload(text: Seq<u8>) -> Payload {
        Payload::BigInt(text)
    }

    open spec fn writable(value: &BigInt) -> bool {
        true
    }

    fn new() -> Self {
        StoreSetSumBigInt {  }
    }

    fn set<H: Host>(&self, host: &mut H, ord: u64, key: &str, value: BigInt) {
        let number = value.to_store_bytes();
        let text = tagged(false, number.as_slice());
        ask(host, Policy::SetSum, ord, key, &Operand::BigInt(text.as_slice()));
    }

    fn sum<H: Host>(&self, host: &mut H, ord: u64, key: &str, value: BigInt) {
        let number = value.to_store_bytes();
        let text = tagged(true, number.as_slice());
        ask(host, Policy::SetSum, ord, key, &Operand::BigInt(text.as_slice()));
    }
}

/// A store of decimal numbers of any size that are put in place of what a key holds or
/// added to it.
pub struct StoreSetSumBigDecimal {}

impl StoreSetSum<BigDecimal> for StoreSetSumBigDecimal {
    open spec fn number(value: &BigDecimal) -> Seq<u8> {
        bigdecimal_text(value@.0, value@.1)
    }

    open spec fn payload(text: Seq<u8>) -> Payload {
        Payload::BigDecimal(text)
    }

    open spec fn writable(value: &BigDecimal) -> bool {
        scale_in_range(value@.1)
    }

    fn new() -> Self {
        StoreSetSumBigDecimal {  }
    }

    fn set<H: Host>(&self, host: &mut H, ord: u64, key: &str, value: BigDecimal) {
        let number = value.to_store_bytes();
        let text = tagged(false, number.as_slice());
        ask(host, Policy::SetSum, ord, key, &Operand::BigDecimal(text.as_slice()));
    }

    fn sum<H: Host>(&self, host: &mut H, ord: u64, key: &str, value: BigDecimal) {
        let number = value.to_store_bytes();
        let text = tagged(true, number.as_slice());
        ask(host, Policy::SetSum, ord, key, &Operand::BigDecimal(text.as_slice()));
    }
}

/// A read-only view of one store. Each read comes in three forms: at a
/// sequence number of the block, and at the beginning of the block in the
/// two ways the host offers. A key that holds nothing gives `None`. A key
/// may hold bytes that are no value of the store's type: a read then has
/// no result, and its `requires` leaves such bytes out, but the `has_`
/// checks never decode and answer for every key.
pub trait StoreGet<T>: Sized {
    /// The index of the store that is read.
    spec fn index(&self) -> u32;

    /// `bytes` can be read as a value of this store.
    spec fn readable(bytes: Seq<u8>) -> bool;

    /// `out` is what a read gives for a key that holds `bytes`.
    spec fn reads(bytes: Seq<u8>, out: Option<T>) -> bool;

    /// A view of the store with index `idx`.
    fn new(idx: u32) -> (s: Self)
        ensures
            s.index() == idx,
    ;

    /// What a read gives for a key that holds `bytes`, or the failure that
    /// the bytes are no value of this store.
    fn read(bytes: Vec<u8>) -> (out: Result<Option<T>, Unreadable>)
        ensures
            out is Ok <==> Self::readable(bytes@),
            out matches Ok(v) ==> Self::reads(bytes@, v),
            out matches Err(e) ==> e.len == bytes@.len(),
    ;

    /// The value of `key` as seen at sequence number `ord`.
    fn get_at<H: Host>(&self, host: &H, ord: u64, key: &str) -> (out: Option<T>)
        requires
            host.value_at(self.index(), ordinal(ord), key@) matches Some(b) ==> Self::readable(b),
        ensures
            match host.value_at(self.index(), ordinal(ord), key@) {
                Some(b) => Self::reads(b, out),
                None => out is None,
            },
    ;

    /// The value of `key` at the beginning of the block, from the host's
    /// snapshot.
    fn get_last<H: Host>(&self, host: &H, key: &str) -> (out: Option<T>)
        requires
            host.value_last(self.index(), key@) matches Some(b) ==> Self::readable(b),
        ensures
            match host.value_last(self.index(), key@) {
                Some(b) => Self::reads(b, out),
                None => out is None,
            },
    ;

    /// The value of `key` at the beginning of the block, found by undoing
    /// the writes of the block.
    fn get_first<H: Host>(&self, host: &H, key: &str) -> (out: Option<T>)
        requires
            host.value_first(self.index(), key@) matches Some(b) ==> Self::readable(b),
        ensures
            match host.value_first(self.index(), key@) {
                Some(b) => Self::reads(b, out),
                None => out is None,
            },
    ;

    /// Whether `key` holds anything as seen at sequence number `ord`.
    fn has_at<H: Host>(&self, host: &H, ord: u64, key: &str) -> (found: bool)
        ensures
            found == host.value_at(self.index(), ordinal(ord), key@).is_some(),
    ;

    /// Whether `key` held anything at the beginning of the block, by the
    /// host's snapshot.
    fn has_last<H: Host>(&self, host: &H, key: &str) -> (found: bool)
        ensures
            found == host.value_last(self.index(), key@).is_some(),
    ;

    /// Whether `key` held anything at the beginning of the block, found by
    /// undoing the writes of the block.
    fn has_first<H: Host>(&self, host: &H, key: &str) -> (found: bool)
        ensures
            found == host.value_first(self.index(), key@).is_some(),
    ;
}

/// A read-only store of bytes.
pub struct StoreGetRaw {
    idx: u32,
}

impl StoreGet<Vec<u8>> for StoreGetRaw {
    closed spec fn index(&self) -> u32 {
        self.idx
    }

    open spec fn readable(bytes: Seq<u8>) -> bool {
        true
    }

    open spec fn reads(bytes: Seq<u8>, out: Option<Vec<u8>>) -> bool {
        out matches Some(v) && v@ == bytes
    }

    fn new(idx: u32) -> Self {
        StoreGetRaw { idx }
    }

    fn read(bytes: Vec<u8>) -> (out: Result<Option<Vec<u8>>, Unreadable>) {
        let len = bytes.len();
        Ok(Some(bytes))
    }

    fn get_at<H: Host>(&self, host: &H, ord: u64, key: &str) -> (out: Option<Vec<u8>>) {
        match host.get_at(self.idx, as_ordinal(ord), key) {
            Some(bytes) => match Self::read(bytes) {
                Ok(out) => out,
                Err(_) => vstd::pervasive::unreached(),
            },
            None => None,
        }
    }

    fn get_last<H: Host>(&self, host: &H, key: &str) -> (out: Option<Vec<u8>>) {
        match host.get_last(self.idx, key) {
            Some(bytes) => match Self::read(bytes) {
                Ok(out) => out,
                Err(_) => vstd::pervasive::unreached(),
            },
            None => None,
        }
    }

    fn get_first<H: Host>(&self, host: &H, key: &str) -> (out: Option<Vec<u8>>) {
        match host.get_first(self.idx, key) {
            Some(bytes) => match Self::read(bytes) {
                Ok(out) => out,
                Err(_) => vstd::pervasive::unreached(),
            },
            None => None,
        }
    }

    fn has_at<H: Host>(&self, host: &H, ord: u64, key: &str) -> (found: bool) {
        host.has_at(self.idx, as_ordinal(ord), key)
    }

    fn has_last<H: Host>(&self, host: &H, key: &str) -> (found: bool) {
        host.has_last(self.idx, key)
    }

    fn has_first<H: Host>(&self, host: &H, key: &str) -> (found: bool) {
        host.has_first(self.idx, key)
    }
}

/// A read-only store of texts.
pub struct StoreGetString {
    idx: u32,
}

impl StoreGet<String> for StoreGetString {
    closed spec fn index(&self) -> u32 {
        self.idx
    }

    open spec fn readable(bytes: Seq<u8>) -> bool {
        valid_utf8(bytes)
    }

    open spec fn reads(bytes: Seq<u8>, out: Option<String>) -> bool {
        out matches Some(v) && v@ == decode_utf8(bytes)
    }

    fn new(idx: u32) -> Self {
        StoreGetString { idx }
    }

    fn read(bytes: Vec<u8>) -> (out: Result<Option<String>, Unreadable>) {
        let len = bytes.len();
        match try_decode_bytes_to_string(bytes) {
            Some(v) => Ok(Some(v)),
            None => Err(Unreadable { len }),
        }
    }

    fn get_at<H: Host>(&self, host: &H, ord: u64, key: &str) -> (out: Option<String>) {
        match host.get_at(self.idx, as_ordinal(ord), key) {
            Some(bytes) => match Self::read(bytes) {
                Ok(out) => out,
                Err(_) => vstd::pervasive::unreached(),
            },
            None => None,
        }
    }

    fn get_last<H: Host>(&self, host: &H, key: &str) -> (out: Option<String>) {
        match host.get_last(self.idx, key) {
            Some(bytes) => match Self::read(bytes) {
                Ok(out) => out,
                Err(_) => vstd::pervasive::unreached(),
            },
            None => None,
        }
    }

    fn get_first<H: Host>(&self, host: &H, key: &str) -> (out: Option<String>) {
        match host.get_first(self.idx, key) {
            Some(bytes) => match Self::read(bytes) {
                Ok(out) => out,
                Err(_) => vstd::pervasive::unreached(),
            },
            None => None,
        }
    }

    fn has_at<H: Host>(&self, host: &H, ord: u64, key: &str) -> (found: bool) {
        host.has_at(self.idx, as_ordinal(ord), key)
    }

    fn has_last<H: Host>(&self, host: &H, key: &str) -> (found: bool) {
        host.has_last(self.idx, key)
    }

    fn has_first<H: Host>(&self, host: &H, key: &str) -> (found: bool) {
        host.has_first(self.idx, key)
    }
}

/// A read-only store of 64-bit integers.
pub struct StoreGetInt64 {
    idx: u32,
}

impl StoreGet<i64> for StoreGetInt64 {
    closed spec fn index(&self) -> u32 {
        self.idx
    }

    open spec fn readable(bytes: Seq<u8>) -> bool {
        int64_of(bytes) is Some
    }

    open spec fn reads(bytes: Seq<u8>, out: Option<i64>) -> bool {
        out is Some && out == int64_of(bytes)
    }

    fn new(idx: u32) -> Self {
        StoreGetInt64 { idx }
    }

    fn read(bytes: Vec<u8>) -> (out: Result<Option<i64>, Unreadable>) {
        let len = bytes.len();
        match try_decode_bytes_to_i64(&bytes) {
            Some(v) => Ok(Some(v)),
            None => Err(Unreadable { len }),
        }
    }

    fn get_at<H: Host>(&self, host: &H, ord: u64, key: &str) -> (out: Option<i64>) {
        match host.get_at(self.idx, as_ordinal(ord), key) {
            Some(bytes) => match Self::read(bytes) {
                Ok(out) => out,
                Err(_) => vstd::pervasive::unreached(),
            },
            None => None,
        }
    }

    fn get_last<H: Host>(&self, host: &H, key: &str) -> (out: Option<i64>) {
        match host.get_last(self.idx, key) {
            Some(bytes) => match Self::read(bytes) {
                Ok(out) => out,
                Err(_) => vstd::pervasive::unreached(),
            },
            None => None,
        }
    }

    fn get_first<H: Host>(&self, host: &H, key: &str) -> (out: Option<i64>) {
        match host.get_first(self.idx, key) {
            Some(bytes) => match Self::read(bytes) {
                Ok(out) => out,
                Err(_) => vstd::pervasive::unreached(),
            },
            None => None,
        }
    }

    fn has_at<H: Host>(&self, host: &H, ord: u64, key: &str) -> (found: bool) {
        host.has_at(self.idx, as_ordinal(ord), key)
    }

    fn has_last<H: Host>(&self, host: &H, key: &str) -> (found: bool) {
        host.has_last(self.idx, key)
    }

    fn has_first<H: Host>(&self, host: &H, key: &str) -> (found: bool) {
        host.has_first(self.idx, key)
    }
}

/// A read-only store of decimal numbers of any size.
pub struct StoreGetBigDecimal {
    idx: u32,
}

impl StoreGet<BigDecimal> for StoreGetBigDecimal {
    closed spec fn index(&self) -> u32 {
        self.idx
    }

    open spec fn readable(bytes: Seq<u8>) -> bool {
        BigDecimal::of_store_bytes(bytes) is Some
    }

    open spec fn reads(bytes: Seq<u8>, out: Option<BigDecimal>) -> bool {
        out matches Some(v) && BigDecimal::of_store_bytes(bytes) == Some(v@)
    }

    fn new(idx: u32) -> Self {
        StoreGetBigDecimal { idx }
    }

    fn read(bytes: Vec<u8>) -> (out: Result<Option<BigDecimal>, Unreadable>) {
        let len = bytes.len();
        match BigDecimal::try_from_store_bytes(bytes.as_slice()) {
            Some(v) => Ok(Some(v)),
            None => Err(Unreadable { len }),
        }
    }

    fn get_at<H: Host>(&self, host: &H, ord: u64, key: &str) -> (out: Option<BigDecimal>) {
        match host.get_at(self.idx, as_ordinal(ord), key) {
            Some(bytes) => match Self::read(bytes) {
                Ok(out) => out,
                Err(_) => vstd::pervasive::unreached(),
            },
            None => None,
        }
    }

    fn get_last<H: Host>(&self, host: &H, key: &str) -> (out: Option<BigDecimal>) {
        match host.get_last(self.idx, key) {
            Some(bytes) => match Self::read(bytes) {
                Ok(out) => out,
                Err(_) => vstd::pervasive::unreached(),
            },
            None => None,
        }
    }

    fn get_first<H: Host>(&self, host: &H, key: &str) -> (out: Option<BigDecimal>) {
        match host.get_first(self.idx, key) {
            Some(bytes) => match Self::read(bytes) {
                Ok(out) => out,
                Err(_) => vstd::pervasive::unreached(),
            },
            None => None,
        }
    }

    fn has_at<H: Host>(&self, host: &H, ord: u64, key: &str) -> (found: bool) {
        host.has_at(self.idx, as_ordinal(ord), key)
    }

    fn has_last<H: Host>(&self, host: &H, key: &str) -> (found: bool) {
        host.has_last(self.idx, key)
    }

    fn has_first<H: Host>(&self, host: &H, key: &str) -> (found: bool) {
        host.has_first(self.idx, key)
    }
}

/// A read-only store of integers of any size.
pub struct StoreGetBigInt {
    idx: u32,
}

impl StoreGet<BigInt> for StoreGetBigInt {
    closed spec fn index(&self) -> u32 {
        self.idx
    }

    open spec fn readable(bytes: Seq<u8>) -> bool {
        BigInt::of_store_bytes(bytes) is Some
    }

    open spec fn reads(bytes: Seq<u8>, out: Option<BigInt>) -> bool {
        out matches Some(v) && BigInt::of_store_bytes(bytes) == Some(v@)
    }

    fn new(idx: u32) -> Self {
        StoreGetBigInt { idx }
    }

    fn read(bytes: Vec<u8>) -> (out: Result<Option<BigInt>, Unreadable>) {
        let len = bytes.len();
        match BigInt::try_from_store_bytes(bytes.as_slice()) {
            Some(v) => Ok(Some(v)),
            None => Err(Unreadable { len }),
        }
    }

    fn get_at<H: Host>(&self, host: &H, ord: u64, key: &str) -> (out: Option<BigInt>) {
        match host.get_at(self.idx, as_ordinal(ord), key) {
            Some(bytes) => match Self::read(bytes) {
                Ok(out) => out,
                Err(_) => vstd::pervasive::unreached(),
            },
            None => None,
        }
    }

    fn get_last<H: Host>(&self, host: &H, key: &str) -> (out: Option<BigInt>) {
        match host.get_last(self.idx, key) {
            Some(bytes) => match Self::read(bytes) {
                Ok(out) => out,
                Err(_) => vstd::pervasive::unreached(),
            },
            None => None,
        }
    }

    fn get_first<H: Host>(&self, host: &H, key: &str) -> (out: Option<BigInt>) {
        match host.get_first(self.idx, key) {
            Some(bytes) => match Self::read(bytes) {
                Ok(out) => out,
                Err(_) => vstd::pervasive::unreached(),
            },
            None => None,
        }
    }

    fn has_at<H: Host>(&self, host: &H, ord: u64, key: &str) -> (found: bool) {
        host.has_at(self.idx, as_ordinal(ord), key)
    }

    fn has_last<H: Host>(&self, host: &H, key: &str) -> (found: bool) {
        host.has_last(self.idx, key)
    }

    fn has_first<H: Host>(&self, host: &H, key: &str) -> (found: bool) {
        host.has_first(self.idx, key)
    }
}

/// A read-only store of arrays of texts.
pub struct StoreGetArray<T> {
    idx: u32,
    casper: core::marker::PhantomData<T>,
}

impl StoreGet<Vec<String>> for StoreGetArray<String> {
    closed spec fn index(&self) -> u32 {
        self.idx
    }

    open spec fn readable(bytes: Seq<u8>) -> bool {
        array_of(bytes) is Some ==> items_are_text(bytes)
    }

    open spec fn reads(bytes: Seq<u8>, out: Option<Vec<String>>) -> bool {
        (out is Some <==> array_of(bytes) is Some) && (out matches Some(v) ==> reads_as(v@, items(bytes)))
    }

    fn new(idx: u32) -> Self {
        StoreGetArray { idx, casper: core::marker::PhantomData }
    }

    fn read(bytes: Vec<u8>) -> (out: Result<Option<Vec<String>>, Unreadable>) {
        let len = bytes.len();
        match try_split_array(&bytes) {
            Ok(found) => Ok(found),
            Err(_) => Err(Unreadable { len }),
        }
    }

    fn get_at<H: Host>(&self, host: &H, ord: u64, key: &str) -> (out: Option<Vec<String>>) {
        match host.get_at(self.idx, as_ordinal(ord), key) {
            Some(bytes) => match Self::read(bytes) {
                Ok(out) => out,
                Err(_) => vstd::pervasive::unreached(),
            },
            None => None,
        }
    }

    fn get_last<H: Host>(&self, host: &H, key: &str) -> (out: Option<Vec<String>>) {
        match host.get_last(self.idx, key) {
            Some(bytes) => match Self::read(bytes) {
                Ok(out) => out,
                Err(_) => vstd::pervasive::unreached(),
            },
            None => None,
        }
    }

    fn get_first<H: Host>(&self, host: &H, key: &str) -> (out: Option<Vec<String>>) {
        match host.get_first(self.idx, key) {
            Some(bytes) => match Self::read(bytes) {
                Ok(out) => out,
                Err(_) => vstd::pervasive::unreached(),
            },
            None => None,
        }
    }

    fn has_at<H: Host>(&self, host: &H, ord: u64, key: &str) -> (found: bool) {
        host.has_at(self.idx, as_ordinal(ord), key)
    }

    fn has_last<H: Host>(&self, host: &H, key: &str) -> (found: bool) {
        host.has_last(self.idx, key)
    }

    fn has_first<H: Host>(&self, host: &H, key: &str) -> (found: bool) {
        host.has_first(self.idx, key)
    }
}

/// At the beginning of the block both ways of reading give the same: what
/// `get_first` may return for a key is what `get_last` may return for it.
pub proof fn lemma_get_first_is_get_last<T, S: StoreGet<T>, H: Host>(
    store: &S,
    host: &H,
    key: Seq<char>,
    out: Option<T>,
)
    ensures
        (match host.value_first(store.index(), key) {
            Some(b) => S::reads(b, out),
            None => out is None,
        }) <==> (match host.value_last(store.index(), key) {
            Some(b) => S::reads(b, out),
            None => out is None,
        }),
{
    host.lemma_first_is_last(store.index(), key);
}

} // verus!
