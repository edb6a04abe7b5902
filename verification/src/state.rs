//! The host's side of a store, as this library sees it.
//!
//! The host keeps the stores. A module asks it to write to the module's own
//! store and to read from the stores it was given, each read store under an
//! index. [`Host`] is that interface: one method for each thing the host can
//! be asked. A write is a [`Request`]; what the host makes of it is the
//! host's business, and the contracts of the writing functions of this
//! library say which request they hand over.
//!
//! [`Recorder`] is the host to use where the real one sits behind a foreign
//! interface: it writes the requests down as [`Call`]s, which the caller
//! takes and carries out.

use vstd::prelude::*;
use vstd::slice::slice_to_vec;

verus! {

/// How a written value is merged with what the store holds.
#[derive(Clone, Copy, Debug, PartialEq, Eq, Structural)]
pub enum Policy {
    /// The value replaces what is there.
    Overwrite,
    /// The value is kept only if the key was absent.
    SetIfNotExists,
    /// The value is added to the number that is there.
    Add,
    /// The value is kept only if it is below the number that is there.
    Min,
    /// The value is kept only if it is above the number that is there.
    Max,
    /// The value is put behind what is there.
    Append,
    /// Every key that begins with the given key is removed.
    DeletePrefix,
    /// The value is a number behind a tag that says whether it replaces the
    /// number that is there or is added to it.
    SetSum,
}

/// What a request carries.
pub enum Payload {
    /// Bytes as they are.
    Bytes(Seq<u8>),
    /// A 64-bit integer.
    Int64(i64),
    /// Text for a 64-bit integer.
    Int64Text(Seq<u8>),
    /// Text for an integer of any size.
    BigInt(Seq<u8>),
    /// Text for a decimal number of any size.
    BigDecimal(Seq<u8>),
    /// Nothing.
    Nothing,
}

/// One write that a module asks of the host.
pub struct Request {
    /// How the value is merged.
    pub policy: Policy,
    /// The sequence number that orders the write within the block.
    pub ord: i64,
    /// The key written to, or the prefix to delete.
    pub key: Seq<char>,
    /// The value.
    pub payload: Payload,
}

/// The bytes of an optional buffer.
pub open spec fn bytes_of(found: Option<Vec<u8>>) -> Option<Seq<u8>> {
    match found {
        Some(bytes) => Some(bytes@),
        None => None,
    }
}

/// The host that keeps the stores.
pub trait Host {
    /// The writes asked of the host so far, oldest first.
    spec fn requests(&self) -> Seq<Request>;

    /// What store `idx` holds under `key` as seen at sequence number `ord`:
    /// the writes of this block up to and including `ord` count.
    spec fn value_at(&self, idx: u32, ord: i64, key: Seq<char>) -> Option<Seq<u8>>;

    /// What store `idx` held under `key` when the block began, from the
    /// host's snapshot. No write of the block changes it.
    spec fn value_last(&self, idx: u32, key: Seq<char>) -> Option<Seq<u8>>;

    /// What store `idx` held under `key` when the block began, found by
    /// undoing the writes of the block.
    spec fn value_first(&self, idx: u32, key: Seq<char>) -> Option<Seq<u8>>;

    /// Both views of the beginning of the block show the same.
    proof fn lemma_first_is_last(&self, idx: u32, key: Seq<char>)
        ensures
            self.value_first(idx, key) == self.value_last(idx, key),
    ;

    fn get_at(&self, idx: u32, ord: i64, key: &str) -> (found: Option<Vec<u8>>)
        ensures
            bytes_of(found) == self.value_at(idx, ord, key@),
    ;

    fn get_last(&self, idx: u32, key: &str) -> (found: Option<Vec<u8>>)
        ensures
            bytes_of(found) == self.value_last(idx, key@),
    ;

    fn get_first(&self, idx: u32, key: &str) -> (found: Option<Vec<u8>>)
        ensures
            bytes_of(found) == self.value_first(idx, key@),
    ;

    fn has_at(&self, idx: u32, ord: i64, key: &str) -> (found: bool)
        ensures
            found == self.value_at(idx, ord, key@).is_some(),
    ;

    fn has_last(&self, idx: u32, key: &str) -> (found: bool)
        ensures
            found == self.value_last(idx, key@).is_some(),
    ;

    fn has_first(&self, idx: u32, key: &str) -> (found: bool)
        ensures
            found == self.value_first(idx, key@).is_some(),
    ;

    fn set(&mut self, ord: i64, key: &str, value: &[u8])
        ensures
            forall|idx: u32, k: Seq<char>| #[trigger]
                final(self).value_last(idx, k) == old(self).value_last(idx, k),
            final(self).requests() == old(self).requests().push(
                (Request { policy: Policy::Overwrite, ord, key: key@, payload: Payload::Bytes(value@) }),
            ),
    ;

    fn set_if_not_exists(&mut self, ord: i64, key: &str, value: &[u8])
        ensures
            forall|idx: u32, k: Seq<char>| #[trigger]
                final(self).value_last(idx, k) == old(self).value_last(idx, k),
            final(self).requests() == old(self).requests().push(
                (Request {
                    policy: Policy::SetIfNotExists,
                    ord,
                    key: key@,
                    payload: Payload::Bytes(value@),
                }),
            ),
    ;

    fn append(&mut self, ord: i64, key: &str, value: &[u8])
        ensures
            forall|idx: u32, k: Seq<char>| #[trigger]
                final(self).value_last(idx, k) == old(self).value_last(idx, k),
            final(self).requests() == old(self).requests().push(
                (Request {
                    policy: Policy::Append,
                    ord,
                    key: key@,
                    payload: Payload::Bytes(value@),
                }),
            ),
    ;

    fn delete_prefix(&mut self, ord: i64, prefix: &str)
        ensures
            forall|idx: u32, k: Seq<char>| #[trigger]
                final(self).value_last(idx, k) == old(self).value_last(idx, k),
            final(self).requests() == old(self).requests().push(
                (Request {
                    policy: Policy::DeletePrefix,
                    ord,
                    key: prefix@,
                    payload: Payload::Nothing,
                }),
            ),
    ;

    fn add_int64(&mut self, ord: i64, key: &str, value: i64)
        ensures
            forall|idx: u32, k: Seq<char>| #[trigger]
                final(self).value_last(idx, k) == old(self).value_last(idx, k),
            final(self).requests() == old(self).requests().push(
                (Request { policy: Policy::Add, ord, key: key@, payload: Payload::Int64(value) }),
            ),
    ;

    fn add_bigint(&mut self, ord: i64, key: &str, value: &[u8])
        ensures
            forall|idx: u32, k: Seq<char>| #[trigger]
                final(self).value_last(idx, k) == old(self).value_last(idx, k),
            final(self).requests() == old(self).requests().push(
                (Request { policy: Policy::Add, ord, key: key@, payload: Payload::BigInt(value@) }),
            ),
    ;

    fn add_bigdecimal(&mut self, ord: i64, key: &str, value: &[u8])
        ensures
            forall|idx: u32, k: Seq<char>| #[trigger]
                final(self).value_last(idx, k) == old(self).value_last(idx, k),
            final(self).requests() == old(self).requests().push(
                (Request {
                    policy: Policy::Add,
                    ord,
                    key: key@,
                    payload: Payload::BigDecimal(value@),
                }),
            ),
    ;

    fn set_min_int64(&mut self, ord: i64, key: &str, value: i64)
        ensures
            forall|idx: u32, k: Seq<char>| #[trigger]
                final(self).value_last(idx, k) == old(self).value_last(idx, k),
            final(self).requests() == old(self).requests().push(
                (Request { policy: Policy::Min, ord, key: key@, payload: Payload::Int64(value) }),
            ),
    ;

    fn set_min_bigint(&mut self, ord: i64, key: &str, value: &[u8])
        ensures
            forall|idx: u32, k: Seq<char>| #[trigger]
                final(self).value_last(idx, k) == old(self).value_last(idx, k),
            final(self).requests() == old(self).requests().push(
                (Request { policy: Policy::Min, ord, key: key@, payload: Payload::BigInt(value@) }),
            ),
    ;

    fn set_min_bigdecimal(&mut self, ord: i64, key: &str, value: &[u8])
        ensures
            forall|idx: u32, k: Seq<char>| #[trigger]
                final(self).value_last(idx, k) == old(self).value_last(idx, k),
            final(self).requests() == old(self).requests().push(
                (Request {
                    policy: Policy::Min,
                    ord,
                    key: key@,
                    payload: Payload::BigDecimal(value@),
                }),
            ),
    ;

    fn set_max_int64(&mut self, ord: i64, key: &str, value: i64)
        ensures
            forall|idx: u32, k: Seq<char>| #[trigger]
                final(self).value_last(idx, k) == old(self).value_last(idx, k),
            final(self).requests() == old(self).requests().push(
                (Request { policy: Policy::Max, ord, key: key@, payload: Payload::Int64(value) }),
            ),
    ;

    fn set_max_bigint(&mut self, ord: i64, key: &str, value: &[u8])
        ensures
            forall|idx: u32, k: Seq<char>| #[trigger]
                final(self).value_last(idx, k) == old(self).value_last(idx, k),
            final(self).requests() == old(self).requests().push(
                (Request { policy: Policy::Max, ord, key: key@, payload: Payload::BigInt(value@) }),
            ),
    ;

    fn set_max_bigdecimal(&mut self, ord: i64, key: &str, value: &[u8])
        ensures
            forall|idx: u32, k: Seq<char>| #[trigger]
                final(self).value_last(idx, k) == old(self).value_last(idx, k),
            final(self).requests() == old(self).requests().push(
                (Request {
                    policy: Policy::Max,
                    ord,
                    key: key@,
                    payload: Payload::BigDecimal(value@),
                }),
            ),
    ;

    fn set_sum_int64(&mut self, ord: i64, key: &str, value: &[u8])
        ensures
            forall|idx: u32, k: Seq<char>| #[trigger]
                final(self).value_last(idx, k) == old(self).value_last(idx, k),
            final(self).requests() == old(self).requests().push(
                (Request {
                    policy: Policy::SetSum,
                    ord,
                    key: key@,
                    payload: Payload::Int64Text(value@),
                }),
            ),
    ;

    fn set_sum_bigint(&mut self, ord: i64, key: &str, value: &[u8])
        ensures
            forall|idx: u32, k: Seq<char>| #[trigger]
                final(self).value_last(idx, k) == old(self).value_last(idx, k),
            final(self).requests() == old(self).requests().push(
                (Request {
                    policy: Policy::SetSum,
                    ord,
                    key: key@,
                    payload: Payload::BigInt(value@),
                }),
            ),
    ;

    fn set_sum_bigdecimal(&mut self, ord: i64, key: &str, value: &[u8])
        ensures
            forall|idx: u32, k: Seq<char>| #[trigger]
                final(self).value_last(idx, k) == old(self).value_last(idx, k),
            final(self).requests() == old(self).requests().push(
                (Request {
                    policy: Policy::SetSum,
                    ord,
                    key: key@,
                    payload: Payload::BigDecimal(value@),
                }),
            ),
    ;
}

/// What a recorded write carries.
#[derive(Clone, Debug, PartialEq)]
pub enum Value {
    /// Bytes as they are.
    Bytes(Vec<u8>),
    /// A 64-bit integer.
    Int64(i64),
    /// Text for a 64-bit integer.
    Int64Text(Vec<u8>),
    /// Text for an integer of any size.
    BigInt(Vec<u8>),
    /// Text for a decimal number of any size.
    BigDecimal(Vec<u8>),
    /// Nothing.
    Nothing,
}

impl View for Value {
    type V = Payload;

    open spec fn view(&self) -> Payload {
        match self {
            Value::Bytes(b) => Payload::Bytes(b@),
            Value::Int64(v) => Payload::Int64(*v),
            Value::Int64Text(b) => Payload::Int64Text(b@),
            Value::BigInt(b) => Payload::BigInt(b@),
            Value::BigDecimal(b) => Payload::BigDecimal(b@),
            Value::Nothing => Payload::Nothing,
        }
    }
}

/// One recorded write: a [`Request`] in a form that can be carried out.
#[derive(Clone, Debug, PartialEq)]
pub struct Call {
    pub policy: Policy,
    pub ord: i64,
    pub key: String,
    pub value: Value,
}

impl View for Call {
    type V = Request;

    open spec fn view(&self) -> Request {
        Request { policy: self.policy, ord: self.ord, key: self.key@, payload: self.value@ }
    }
}

/// The requests that `calls` stand for.
pub open spec fn asked(calls: Seq<Call>) -> Seq<Request> {
    calls.map_values(|c: Call| c@)
}

/// A host that only writes down what it is asked to write, for someone else
/// to carry out. It holds no store: every read finds nothing.
pub struct Recorder {
    calls: Vec<Call>,
}

impl Recorder {
    /// A recorder that has recorded nothing.
    pub fn new() -> (out: Recorder)
        ensures
            out.requests() == Seq::<Request>::empty(),
    {
        let out = Recorder { calls: Vec::new() };
        proof {
            assert(asked(out.calls@) =~= Seq::<Request>::empty());
        }
        out
    }

    /// Hands over what was recorded, oldest first, and starts afresh.
    pub fn take(&mut self) -> (out: Vec<Call>)
        ensures
            asked(out@) == old(self).requests(),
            final(self).requests() == Seq::<Request>::empty(),
    {
        let mut out: Vec<Call> = Vec::new();
        core::mem::swap(&mut out, &mut self.calls);
        proof {
            assert(asked(self.calls@) =~= Seq::<Request>::empty());
        }
        out
    }

    fn record(&mut self, policy: Policy, ord: i64, key: &str, value: Value)
        ensures
            final(self).requests() == old(self).requests().push(
                (Request { policy, ord, key: key@, payload: value@ }),
            ),
    {
        self.calls.push(Call { policy, ord, key: key.to_owned(), value });
        proof {
            assert(asked(self.calls@) =~= asked(old(self).calls@).push(
                (Request { policy, ord, key: key@, payload: value@ }),
            ));
        }
    }
}

impl Host for Recorder {
    closed spec fn requests(&self) -> Seq<Request> {
        asked(self.calls@)
    }

    open spec fn value_at(&self, idx: u32, ord: i64, key: Seq<char>) -> Option<Seq<u8>> {
        None
    }

    open spec fn value_last(&self, idx: u32, key: Seq<char>) -> Option<Seq<u8>> {
        None
    }

    open spec fn value_first(&self, idx: u32, key: Seq<char>) -> Option<Seq<u8>> {
        None
    }

    proof fn lemma_first_is_last(&self, idx: u32, key: Seq<char>) {
    }

    fn get_at(&self, idx: u32, ord: i64, key: &str) -> (found: Option<Vec<u8>>) {
        None
    }

    fn get_last(&self, idx: u32, key: &str) -> (found: Option<Vec<u8>>) {
        None
    }

    fn get_first(&self, idx: u32, key: &str) -> (found: Option<Vec<u8>>) {
        None
    }

    fn has_at(&self, idx: u32, ord: i64, key: &str) -> (found: bool) {
        false
    }

    fn has_last(&self, idx: u32, key: &str) -> (found: bool) {
        false
    }

    fn has_first(&self, idx: u32, key: &str) -> (found: bool) {
        false
    }

    fn set(&mut self, ord: i64, key: &str, value: &[u8]) {
        self.record(Policy::Overwrite, ord, key, Value::Bytes(slice_to_vec(value)));
    }

    fn set_if_not_exists(&mut self, ord: i64, key: &str, value: &[u8]) {
        self.record(Policy::SetIfNotExists, ord, key, Value::Bytes(slice_to_vec(value)));
    }

    fn append(&mut self, ord: i64, key: &str, value: &[u8]) {
        self.record(Policy::Append, ord, key, Value::Bytes(slice_to_vec(value)));
    }

    fn delete_prefix(&mut self, ord: i64, prefix: &str) {
        self.record(Policy::DeletePrefix, ord, prefix, Value::Nothing);
    }

    fn add_int64(&mut self, ord: i64, key: &str, value: i64) {
        self.record(Policy::Add, ord, key, Value::Int64(value));
    }

    fn add_bigint(&mut self, ord: i64, key: &str, value: &[u8]) {
        self.record(Policy::Add, ord, key, Value::BigInt(slice_to_vec(value)));
    }

    fn add_bigdecimal(&mut self, ord: i64, key: &str, value: &[u8]) {
        self.record(Policy::Add, ord, key, Value::BigDecimal(slice_to_vec(value)));
    }

    fn set_min_int64(&mut self, ord: i64, key: &str, value: i64) {
        self.record(Policy::Min, ord, key, Value::Int64(value));
    }

    fn set_min_bigint(&mut self, ord: i64, key: &str, value: &[u8]) {
        self.record(Policy::Min, ord, key, Value::BigInt(slice_to_vec(value)));
    }

    fn set_min_bigdecimal(&mut self, ord: i64, key: &str, value: &[u8]) {
        self.record(Policy::Min, ord, key, Value::BigDecimal(slice_to_vec(value)));
    }

    fn set_max_int64(&mut self, ord: i64, key: &str, value: i64) {
        self.record(Policy::Max, ord, key, Value::Int64(value));
    }

    fn set_max_bigint(&mut self, ord: i64, key: &str, value: &[u8]) {
        self.record(Policy::Max, ord, key, Value::BigInt(slice_to_vec(value)));
    }

    fn set_max_bigdecimal(&mut self, ord: i64, key: &str, value: &[u8]) {
        self.record(Policy::Max, ord, key, Value::BigDecimal(slice_to_vec(value)));
    }

    fn set_sum_int64(&mut self, ord: i64, key: &str, value: &[u8]) {
        self.record(Policy::SetSum, ord, key, Value::Int64Text(slice_to_vec(value)));
    }

    fn set_sum_bigint(&mut self, ord: i64, key: &str, value: &[u8]) {
        self.record(Policy::SetSum, ord, key, Value::BigInt(slice_to_vec(value)));
    }

    fn set_sum_bigdecimal(&mut self, ord: i64, key: &str, value: &[u8]) {
        self.record(Policy::SetSum, ord, key, Value::BigDecimal(slice_to_vec(value)));
    }
}

} // verus!
