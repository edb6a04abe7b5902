//! A host that keeps one store in memory.
//!
//! [`MemoryHost`] is a [`Host`] for trying out modules without a real one.
//! It holds a single store, which is both the store that is written to and
//! the store that is read, under whatever index. The store is a journal: what
//! it held when the block began, and behind that one line for each write of
//! the block that changed something. What a key holds at a sequence number
//! is what the last line up to that number says of it. The journal of the
//! block is a function of the requests that the host was handed:
//! [`journal_of`] says which.
//!
//! The merge policies are carried out as [`written`] says. A number is read
//! from what the key holds, an absent key counting as zero; where the key
//! holds bytes that are no number, or the value handed over is none, or a
//! sum does not fit 64 bits, or a decimal has a scale out of range, the write
//! changes nothing. A tagged number that replaces is taken as that number
//! added to nothing, one that is added as an adding write; a text without a
//! tag changes nothing.

use vstd::prelude::*;
use vstd::slice::{slice_subrange, slice_to_vec};
use crate::codec::{int64_of, lemma_int64_round_trip, try_decode_bytes_to_i64};
use crate::decimal::{decimal_text, decode_i64, encode_i64, lemma_i64_round_trip, parse_i64};
use crate::scalar::{
    bigdecimal_below, bigdecimal_sum, bigdecimal_text, scale_in_range, BigDecimal, BigInt,
};
use crate::state::{bytes_of, Host, Payload, Policy, Request};
use crate::store::{lemma_untagged, set_tag, set_text, sum_tag, sum_text, untagged, Operand};
use crate::text::{chars_of, str_eq};

verus! {

/// One line of the journal, as a mathematical value: under `key`, from
/// sequence number `ord` on, the store holds `value`; or, where `value` is
/// `None`, holds nothing under any key that begins with `key`.
pub struct Entry {
    pub ord: i64,
    pub key: Seq<char>,
    pub value: Option<Seq<u8>>,
}

/// One line of the journal.
pub struct Record {
    ord: i64,
    key: String,
    value: Option<Vec<u8>>,
}

impl View for Record {
    type V = Entry;

    closed spec fn view(&self) -> Entry {
        Entry { ord: self.ord, key: self.key@, value: bytes_of(self.value) }
    }
}

/// The lines of `records`.
pub open spec fn lines(records: Seq<Record>) -> Seq<Entry> {
    records.map_values(|r: Record| r@)
}

/// `key` begins with `prefix`.
pub open spec fn is_prefix(prefix: Seq<char>, key: Seq<char>) -> bool {
    prefix.len() <= key.len() && key.take(prefix.len() as int) == prefix
}

/// The line `e` says something of `key`.
pub open spec fn touches(e: Entry, key: Seq<char>) -> bool {
    match e.value {
        Some(_) => e.key == key,
        None => is_prefix(e.key, key),
    }
}

/// What `journal` shows under `key` at sequence number `bound`: what its
/// last line up to `bound` that touches the key says, or `otherwise` if
/// there is no such line.
pub open spec fn seen(journal: Seq<Entry>, bound: i64, key: Seq<char>, otherwise: Option<Seq<u8>>)
    -> Option<Seq<u8>>
    decreases journal.len(),
{
    if journal.len() == 0 {
        otherwise
    } else if journal.last().ord <= bound && touches(journal.last(), key) {
        journal.last().value
    } else {
        seen(journal.drop_last(), bound, key, otherwise)
    }
}

/// The 64-bit number that a key holds: zero for an absent key.
pub open spec fn number_at(current: Option<Seq<u8>>) -> Option<i64> {
    match current {
        Some(bytes) => int64_of(bytes),
        None => Some(0i64),
    }
}

/// The integer of any size that a key holds: zero for an absent key.
pub open spec fn integer_at(current: Option<Seq<u8>>) -> Option<int> {
    match current {
        Some(bytes) => BigInt::of_store_bytes(bytes),
        None => Some(0int),
    }
}

/// The decimal that a key holds, if its scale is in range: zero for an
/// absent key.
pub open spec fn decimal_at(current: Option<Seq<u8>>) -> Option<(int, int)> {
    match current {
        Some(bytes) => match BigDecimal::of_store_bytes(bytes) {
            Some(d) => if scale_in_range(d.1) {
                Some(d)
            } else {
                None
            },
            None => None,
        },
        None => Some((0int, 0int)),
    }
}

/// What a tagged number asks for: whether it replaces what is there, and
/// the number as a payload of its own. `None` if the text has no tag or
/// holds no 64-bit integer where it is to hold one.
pub open spec fn tagged_number(payload: Payload) -> Option<(bool, Payload)> {
    match payload {
        Payload::Int64Text(text) => match untagged(text) {
            Some((replace, number)) => match parse_i64(number) {
                Some(v) => Some((replace, Payload::Int64(v))),
                None => None,
            },
            None => None,
        },
        Payload::BigInt(text) => match untagged(text) {
            Some((replace, number)) => Some((replace, Payload::BigInt(number))),
            None => None,
        },
        Payload::BigDecimal(text) => match untagged(text) {
            Some((replace, number)) => Some((replace, Payload::BigDecimal(number))),
            None => None,
        },
        _ => None,
    }
}

/// What a write of `payload` with `policy` leaves under a key that holds
/// `current`; `None` where the write changes nothing. A tagged number is
/// added to what is there or, where it replaces, to nothing.
pub open spec fn merged(policy: Policy, payload: Payload, current: Option<Seq<u8>>) -> Option<
    Seq<u8>,
> {
    if policy == Policy::SetSum {
        match tagged_number(payload) {
            Some((replace, number)) => combined(
                Policy::Add,
                number,
                if replace {
                    None
                } else {
                    current
                },
            ),
            None => None,
        }
    } else {
        combined(policy, payload, current)
    }
}

/// What a write of the plain value `payload` with `policy` leaves under a
/// key that holds `current`; `None` where the write changes nothing.
pub open spec fn combined(policy: Policy, payload: Payload, current: Option<Seq<u8>>) -> Option<
    Seq<u8>,
> {
    match payload {
        Payload::Bytes(value) => match policy {
            Policy::Overwrite => Some(value),
            Policy::SetIfNotExists => if current is Some {
                None
            } else {
                Some(value)
            },
            Policy::Append => match current {
                Some(held) => Some(held + value),
                None => Some(value),
            },
            _ => None,
        },
        Payload::Int64(value) => match number_at(current) {
            Some(held) => match policy {
                Policy::Add => if i64::MIN <= held + value <= i64::MAX {
                    Some(decimal_text(held + value))
                } else {
                    None
                },
                Policy::Max => if value > held {
                    Some(decimal_text(value as int))
                } else {
                    None
                },
                Policy::Min => if value < held {
                    Some(decimal_text(value as int))
                } else {
                    None
                },
                _ => None,
            },
            None => None,
        },
        Payload::BigInt(text) => match (integer_at(current), BigInt::of_store_bytes(text)) {
            (Some(held), Some(value)) => match policy {
                Policy::Add => Some(decimal_text(held + value)),
                Policy::Max => if held < value {
                    Some(decimal_text(value))
                } else {
                    None
                },
                Policy::Min => if value < held {
                    Some(decimal_text(value))
                } else {
                    None
                },
                _ => None,
            },
            _ => None,
        },
        Payload::BigDecimal(text) => match (decimal_at(current), decimal_at(Some(text))) {
            (Some(held), Some(value)) => match policy {
                Policy::Add => if scale_in_range(bigdecimal_sum(held, value).1) {
                    Some(
                        bigdecimal_text(
                            bigdecimal_sum(held, value).0,
                            bigdecimal_sum(held, value).1,
                        ),
                    )
                } else {
                    None
                },
                Policy::Max => if bigdecimal_below(held, value) {
                    Some(bigdecimal_text(value.0, value.1))
                } else {
                    None
                },
                Policy::Min => if bigdecimal_below(value, held) {
                    Some(bigdecimal_text(value.0, value.1))
                } else {
                    None
                },
                _ => None,
            },
            _ => None,
        },
        Payload::Int64Text(_) => None,
        Payload::Nothing => None,
    }
}

/// The line that the request `asked` adds to a journal whose latest value
/// under the request's key is `current`; `None` where it adds none.
pub open spec fn written(asked: Request, current: Option<Seq<u8>>) -> Option<Entry> {
    if asked.policy == Policy::DeletePrefix {
        Some(Entry { ord: asked.ord, key: asked.key, value: None })
    } else {
        match merged(asked.policy, asked.payload, current) {
            Some(value) => Some(Entry { ord: asked.ord, key: asked.key, value: Some(value) }),
            None => None,
        }
    }
}

/// `journal` with the line that `asked` adds to it.
pub open spec fn extended(journal: Seq<Entry>, asked: Request, current: Option<Seq<u8>>) -> Seq<
    Entry,
> {
    match written(asked, current) {
        Some(line) => journal.push(line),
        None => journal,
    }
}

/// The journal of a block in which the requests `asked` were made, in their
/// order, of a store that held `start` when the block began.
pub open spec fn journal_of(start: spec_fn(Seq<char>) -> Option<Seq<u8>>, asked: Seq<Request>)
    -> Seq<Entry>
    decreases asked.len(),
{
    if asked.len() == 0 {
        Seq::empty()
    } else {
        let so_far = journal_of(start, asked.drop_last());
        let last = asked.last();
        extended(so_far, last, seen(so_far, i64::MAX, last.key, start(last.key)))
    }
}

/// What the lines `records` show under each key.
pub open spec fn shown_by(records: Seq<Record>) -> spec_fn(Seq<char>) -> Option<Seq<u8>> {
    |key: Seq<char>| seen(lines(records), i64::MAX, key, None)
}

/// Whether `key` begins with `prefix`.
fn begins_with(key: &str, prefix: &str) -> (found: bool)
    ensures
        found == is_prefix(prefix@, key@),
{
    let k = chars_of(key);
    let p = chars_of(prefix);
    if p.len() > k.len() {
        return false;
    }
    let n = p.len();
    let mut i: usize = 0;
    while i < n
        invariant
            k@ == key@,
            p@ == prefix@,
            n == p@.len(),
            n <= k@.len(),
            i <= n,
            k@.take(i as int) == p@.take(i as int),
        decreases n - i,
    {
        if k[i] != p[i] {
            proof {
                assert(k@.take(n as int)[i as int] == k@[i as int]);
                assert(k@[i as int] != p@[i as int]);
            }
            return false;
        }
        proof {
            assert(k@.take(i + 1) =~= k@.take(i as int).push(k@[i as int]));
            assert(p@.take(i + 1) =~= p@.take(i as int).push(p@[i as int]));
        }
        i = i + 1;
    }
    proof {
        assert(p@.take(n as int) =~= p@);
    }
    true
}

/// What `records` show under `key` at `bound`.
fn look(records: &Vec<Record>, bound: i64, key: &str, otherwise: Option<Vec<u8>>) -> (out: Option<
    Vec<u8>,
>)
    ensures
        bytes_of(out) == seen(lines(records@), bound, key@, bytes_of(otherwise)),
{
    let mut i: usize = records.len();
    proof {
        assert(lines(records@).take(i as int) =~= lines(records@));
    }
    while i > 0
        invariant
            i <= records@.len(),
            seen(lines(records@).take(i as int), bound, key@, bytes_of(otherwise)) == seen(
                lines(records@),
                bound,
                key@,
                bytes_of(otherwise),
            ),
        decreases i,
    {
        let ghost part = lines(records@).take(i as int);
        i = i - 1;
        let record = &records[i];
        proof {
            assert(part.last() == record@);
            assert(part.drop_last() =~= lines(records@).take(i as int));
        }
        if record.ord <= bound {
            match &record.value {
                Some(value) => {
                    if str_eq(record.key.as_str(), key) {
                        return Some(slice_to_vec(value.as_slice()));
                    }
                },
                None => {
                    if begins_with(key, record.key.as_str()) {
                        return None;
                    }
                },
            }
        }
    }
    otherwise
}

fn joined(held: Vec<u8>, more: &[u8]) -> (out: Vec<u8>)
    ensures
        out@ == held@ + more@,
{
    let mut out = held;
    let mut i: usize = 0;
    proof {
        assert(held@ + more@.take(0) =~= held@);
    }
    while i < more.len()
        invariant
            i <= more@.len(),
            out@ == held@ + more@.take(i as int),
        decreases more@.len() - i,
    {
        out.push(more[i]);
        proof {
            assert(held@ + more@.take(i + 1) =~= (held@ + more@.take(i as int)).push(
                more@[i as int],
            ));
        }
        i = i + 1;
    }
    proof {
        assert(more@.take(more@.len() as int) =~= more@);
    }
    out
}

/// The decimal that `current` holds, if its scale is in range.
fn decimal_held(current: &Option<Vec<u8>>) -> (out: Option<BigDecimal>)
    ensures
        match out {
            Some(d) => decimal_at(bytes_of(*current)) == Some(d@),
            None => decimal_at(bytes_of(*current)) is None,
        },
{
    match current {
        Some(bytes) => match BigDecimal::try_from_store_bytes(bytes.as_slice()) {
            Some(d) => if d.in_range() {
                Some(d)
            } else {
                None
            },
            None => None,
        },
        None => Some(BigDecimal::zero()),
    }
}

/// The number behind the tag of `text`, and whether it replaces.
fn untag<'a>(text: &'a [u8]) -> (out: Option<(bool, &'a [u8])>)
    ensures
        match out {
            Some((replace, number)) => untagged(text@) == Some((replace, number@)),
            None => untagged(text@) is None,
        },
{
    let n = text.len();
    if n < 4 {
        return None;
    }
    proof {
        assert(text@.take(4)[0] == text@[0]);
        assert(text@.take(4)[1] == text@[1]);
        assert(text@.take(4)[2] == text@[2]);
        assert(text@.take(4)[3] == text@[3]);
        assert(text@.subrange(4, n as int) =~= text@.skip(4));
    }
    if text[0] == 115 && text[1] == 101 && text[2] == 116 && text[3] == 58 {
        proof {
            assert(text@.take(4) =~= set_tag());
        }
        Some((true, slice_subrange(text, 4, n)))
    } else if text[0] == 115 && text[1] == 117 && text[2] == 109 && text[3] == 58 {
        proof {
            assert(text@.take(4) =~= sum_tag());
        }
        Some((false, slice_subrange(text, 4, n)))
    } else {
        None
    }
}

/// What a write leaves under a key that holds `current`.
fn resolve(policy: Policy, value: &Operand<'_>, current: Option<Vec<u8>>) -> (out: Option<Vec<u8>>)
    ensures
        bytes_of(out) == merged(policy, value@, bytes_of(current)),
{
    match policy {
        Policy::SetSum => match value {
            Operand::Int64Text(text) => match untag(text) {
                Some((replace, number)) => match decode_i64(number) {
                    Some(v) => resolve_plain(
                        Policy::Add,
                        &Operand::Int64(v),
                        kept(replace, current),
                    ),
                    None => None,
                },
                None => None,
            },
            Operand::BigInt(text) => match untag(text) {
                Some((replace, number)) => resolve_plain(
                    Policy::Add,
                    &Operand::BigInt(number),
                    kept(replace, current),
                ),
                None => None,
            },
            Operand::BigDecimal(text) => match untag(text) {
                Some((replace, number)) => resolve_plain(
                    Policy::Add,
                    &Operand::BigDecimal(number),
                    kept(replace, current),
                ),
                None => None,
            },
            _ => None,
        },
        _ => resolve_plain(policy, value, current),
    }
}

/// What a tagged number is added to: nothing where it replaces, else what
/// the key holds.
fn kept(replace: bool, current: Option<Vec<u8>>) -> (out: Option<Vec<u8>>)
    ensures
        out == if replace {
            None
        } else {
            current
        },
{
    if replace {
        None
    } else {
        current
    }
}

/// What a write of a plain value leaves under a key that holds `current`.
fn resolve_plain(policy: Policy, value: &Operand<'_>, current: Option<Vec<u8>>) -> (out: Option<
    Vec<u8>,
>)
    ensures
        bytes_of(out) == combined(policy, value@, bytes_of(current)),
{
    match value {
        Operand::Bytes(bytes) => match policy {
            Policy::Overwrite => Some(slice_to_vec(bytes)),
            Policy::SetIfNotExists => match current {
                Some(_) => None,
                None => Some(slice_to_vec(bytes)),
            },
            Policy::Append => match current {
                Some(held) => Some(joined(held, bytes)),
                None => Some(slice_to_vec(bytes)),
            },
            _ => None,
        },
        Operand::Int64(v) => {
            let held = match &current {
                Some(bytes) => try_decode_bytes_to_i64(bytes),
                None => Some(0),
            };
            match held {
                Some(held) => match policy {
                    Policy::Add => {
                        let sum: i128 = held as i128 + *v as i128;
                        if sum >= -0x8000_0000_0000_0000i128 && sum <= 0x7fff_ffff_ffff_ffffi128 {
                            Some(encode_i64(sum as i64))
                        } else {
                            None
                        }
                    },
                    Policy::Max => if *v > held {
                        Some(encode_i64(*v))
                    } else {
                        None
                    },
                    Policy::Min => if *v < held {
                        Some(encode_i64(*v))
                    } else {
                        None
                    },
                    _ => None,
                },
                None => None,
            }
        },
        Operand::BigInt(text) => {
            let held = match &current {
                Some(bytes) => BigInt::try_from_store_bytes(bytes.as_slice()),
                None => Some(BigInt::zero()),
            };
            match (held, BigInt::try_from_store_bytes(text)) {
                (Some(held), Some(v)) => match policy {
                    Policy::Add => Some(held.add(&v).to_store_bytes()),
                    Policy::Max => if held.lt(&v) {
                        Some(v.to_store_bytes())
                    } else {
                        None
                    },
                    Policy::Min => if v.lt(&held) {
                        Some(v.to_store_bytes())
                    } else {
                        None
                    },
                    _ => None,
                },
                _ => None,
            }
        },
        Operand::Int64Text(_) => None,
        Operand::BigDecimal(text) => {
            let handed = Some(slice_to_vec(text));
            match (decimal_held(&current), decimal_held(&handed)) {
                (Some(held), Some(v)) => match policy {
                    Policy::Add => held.add(&v).try_to_store_bytes(),
                    Policy::Max => if held.lt(&v) {
                        Some(v.to_store_bytes())
                    } else {
                        None
                    },
                    Policy::Min => if v.lt(&held) {
                        Some(v.to_store_bytes())
                    } else {
                        None
                    },
                    _ => None,
                },
                _ => None,
            }
        },
    }
}

/// A host that keeps one store in memory.
pub struct MemoryHost {
    before: Vec<Record>,
    journal: Vec<Record>,
    asked: Ghost<Seq<Request>>,
}

/// Carries out one request on the journal.
fn apply(
    before: &Vec<Record>,
    journal: Vec<Record>,
    asked: Ghost<Seq<Request>>,
    policy: Policy,
    ord: i64,
    key: &str,
    value: Option<&Operand<'_>>,
) -> (out: (Vec<Record>, Ghost<Seq<Request>>))
    requires
        lines(journal@) == journal_of(shown_by(before@), asked@),
        (policy == Policy::DeletePrefix) == (value is None),
    ensures
        out.1@ == asked@.push(
            (Request {
                policy,
                ord,
                key: key@,
                payload: match value {
                    Some(v) => v@,
                    None => Payload::Nothing,
                },
            }),
        ),
        lines(out.0@) == journal_of(shown_by(before@), out.1@),
{
    let mut journal = journal;
    let ghost request = Request {
        policy,
        ord,
        key: key@,
        payload: match value {
            Some(v) => v@,
            None => Payload::Nothing,
        },
    };
    let ghost so_far = lines(journal@);
    let added = match value {
        Some(v) => {
            let base = look(before, i64::MAX, key, None);
            let current = look(&journal, i64::MAX, key, base);
            resolve(policy, v, current)
        },
        None => None,
    };
    if value.is_none() {
        journal.push(Record { ord, key: key.to_owned(), value: None });
        proof {
            assert(lines(journal@) =~= so_far.push((Entry { ord, key: key@, value: None })));
        }
    } else {
        match added {
            Some(bytes) => {
                journal.push(Record { ord, key: key.to_owned(), value: Some(bytes) });
                proof {
                    assert(lines(journal@) =~= so_far.push(
                        (Entry { ord, key: key@, value: Some(bytes@) }),
                    ));
                }
            },
            None => {},
        }
    }
    proof {
        let all = asked@.push(request);
        assert(all.drop_last() =~= asked@);
        assert(all.last() == request);
    }
    (journal, Ghost(asked@.push(request)))
}

impl MemoryHost {
    #[verifier::type_invariant]
    spec fn settled(&self) -> bool {
        lines(self.journal@) == journal_of(shown_by(self.before@), self.asked@)
    }

    /// What the store held under each key when the block began.
    pub closed spec fn start(&self) -> spec_fn(Seq<char>) -> Option<Seq<u8>> {
        shown_by(self.before@)
    }

    /// The lines that the writes of the block added.
    pub open spec fn block(&self) -> Seq<Entry> {
        journal_of(self.start(), self.requests())
    }

    /// What the store holds under `key` after every write so far.
    pub open spec fn latest(&self, key: Seq<char>) -> Option<Seq<u8>> {
        seen(self.block(), i64::MAX, key, (self.start())(key))
    }

    /// `self` is `before` after the request `asked`.
    pub open spec fn follows(&self, before: &MemoryHost, asked: Request) -> bool {
        &&& self.start() == before.start()
        &&& self.requests() == before.requests().push(asked)
    }

    /// A host whose store is empty.
    pub fn new() -> (host: MemoryHost)
        ensures
            host.requests() == Seq::<Request>::empty(),
            forall|key: Seq<char>| (#[trigger] (host.start())(key)) is None,
    {
        let before: Vec<Record> = Vec::new();
        let journal: Vec<Record> = Vec::new();
        proof {
            assert(lines(before@) =~= Seq::<Entry>::empty());
            assert(lines(journal@) =~= Seq::<Entry>::empty());
        }
        MemoryHost { before, journal, asked: Ghost(Seq::empty()) }
    }

    /// Puts `value` under `key` as of the beginning of the block. The block
    /// must not have begun: nothing was written yet.
    pub fn preload(&mut self, key: &str, value: Vec<u8>)
        requires
            old(self).requests().len() == 0,
        ensures
            final(self).requests() == old(self).requests(),
            forall|k: Seq<char>|
                (#[trigger] (final(self).start())(k)) == if k == key@ {
                    Some(value@)
                } else {
                    (old(self).start())(k)
                },
    {
        let mut taken = MemoryHost::new();
        core::mem::swap(self, &mut taken);
        proof {
            use_type_invariant(&taken);
        }
        let MemoryHost { before, journal, asked } = taken;
        let ghost earlier = lines(before@);
        let mut before = before;
        before.push(Record { ord: 0, key: key.to_owned(), value: Some(value) });
        proof {
            let line = Entry { ord: 0, key: key@, value: Some(value@) };
            assert(lines(before@) =~= earlier.push(line));
            assert(lines(before@).drop_last() =~= earlier);
            assert(lines(journal@) =~= Seq::<Entry>::empty());
        }
        *self = MemoryHost { before, journal, asked };
    }

    /// What the store holds under `key` after every write so far.
    pub fn current(&self, key: &str) -> (out: Option<Vec<u8>>)
        ensures
            bytes_of(out) == self.latest(key@),
    {
        proof {
            use_type_invariant(self);
        }
        let base = look(&self.before, i64::MAX, key, None);
        look(&self.journal, i64::MAX, key, base)
    }

    fn put(&mut self, policy: Policy, ord: i64, key: &str, value: &Operand<'_>)
        requires
            policy != Policy::DeletePrefix,
        ensures
            final(self).follows(
                old(self),
                (Request { policy, ord, key: key@, payload: value@ }),
            ),
    {
        let mut taken = MemoryHost::new();
        core::mem::swap(self, &mut taken);
        proof {
            use_type_invariant(&taken);
        }
        let MemoryHost { before, journal, asked } = taken;
        let (journal, asked) = apply(&before, journal, asked, policy, ord, key, Some(value));
        *self = MemoryHost { before, journal, asked };
    }
}

impl Host for MemoryHost {
    closed spec fn requests(&self) -> Seq<Request> {
        self.asked@
    }

    open spec fn value_at(&self, idx: u32, ord: i64, key: Seq<char>) -> Option<Seq<u8>> {
        seen(self.block(), ord, key, (self.start())(key))
    }

    open spec fn value_last(&self, idx: u32, key: Seq<char>) -> Option<Seq<u8>> {
        (self.start())(key)
    }

    open spec fn value_first(&self, idx: u32, key: Seq<char>) -> Option<Seq<u8>> {
        (self.start())(key)
    }

    proof fn lemma_first_is_last(&self, idx: u32, key: Seq<char>) {
    }

    fn get_at(&self, idx: u32, ord: i64, key: &str) -> (found: Option<Vec<u8>>) {
        proof {
            use_type_invariant(self);
        }
        let base = look(&self.before, i64::MAX, key, None);
        look(&self.journal, ord, key, base)
    }

    fn get_last(&self, idx: u32, key: &str) -> (found: Option<Vec<u8>>) {
        look(&self.before, i64::MAX, key, None)
    }

    fn get_first(&self, idx: u32, key: &str) -> (found: Option<Vec<u8>>) {
        look(&self.before, i64::MAX, key, None)
    }

    fn has_at(&self, idx: u32, ord: i64, key: &str) -> (found: bool) {
        self.get_at(idx, ord, key).is_some()
    }

    fn has_last(&self, idx: u32, key: &str) -> (found: bool) {
        self.get_last(idx, key).is_some()
    }

    fn has_first(&self, idx: u32, key: &str) -> (found: bool) {
        self.get_first(idx, key).is_some()
    }

    fn set(&mut self, ord: i64, key: &str, value: &[u8])
        ensures
            final(self).start() == old(self).start(),
    {
        self.put(Policy::Overwrite, ord, key, &Operand::Bytes(value));
    }

    fn set_if_not_exists(&mut self, ord: i64, key: &str, value: &[u8])
        ensures
            final(self).start() == old(self).start(),
    {
        self.put(Policy::SetIfNotExists, ord, key, &Operand::Bytes(value));
    }

    fn append(&mut self, ord: i64, key: &str, value: &[u8])
        ensures
            final(self).start() == old(self).start(),
    {
        self.put(Policy::Append, ord, key, &Operand::Bytes(value));
    }

    fn delete_prefix(&mut self, ord: i64, prefix: &str)
        ensures
            final(self).start() == old(self).start(),
    {
        let mut taken = MemoryHost::new();
        core::mem::swap(self, &mut taken);
        proof {
            use_type_invariant(&taken);
        }
        let MemoryHost { before, journal, asked } = taken;
        let (journal, asked) = apply(
            &before,
            journal,
            asked,
            Policy::DeletePrefix,
            ord,
            prefix,
            None,
        );
        *self = MemoryHost { before, journal, asked };
    }

    fn add_int64(&mut self, ord: i64, key: &str, value: i64)
        ensures
            final(self).start() == old(self).start(),
    {
        self.put(Policy::Add, ord, key, &Operand::Int64(value));
    }

    fn add_bigint(&mut self, ord: i64, key: &str, value: &[u8])
        ensures
            final(self).start() == old(self).start(),
    {
        self.put(Policy::Add, ord, key, &Operand::BigInt(value));
    }

    fn add_bigdecimal(&mut self, ord: i64, key: &str, value: &[u8])
        ensures
            final(self).start() == old(self).start(),
    {
        self.put(Policy::Add, ord, key, &Operand::BigDecimal(value));
    }

    fn set_min_int64(&mut self, ord: i64, key: &str, value: i64)
        ensures
            final(self).start() == old(self).start(),
    {
        self.put(Policy::Min, ord, key, &Operand::Int64(value));
    }

    fn set_min_bigint(&mut self, ord: i64, key: &str, value: &[u8])
        ensures
            final(self).start() == old(self).start(),
    {
        self.put(Policy::Min, ord, key, &Operand::BigInt(value));
    }

    fn set_min_bigdecimal(&mut self, ord: i64, key: &str, value: &[u8])
        ensures
            final(self).start() == old(self).start(),
    {
        self.put(Policy::Min, ord, key, &Operand::BigDecimal(value));
    }

    fn set_max_int64(&mut self, ord: i64, key: &str, value: i64)
        ensures
            final(self).start() == old(self).start(),
    {
        self.put(Policy::Max, ord, key, &Operand::Int64(value));
    }

    fn set_max_bigint(&mut self, ord: i64, key: &str, value: &[u8])
        ensures
            final(self).start() == old(self).start(),
    {
        self.put(Policy::Max, ord, key, &Operand::BigInt(value));
    }

    fn set_max_bigdecimal(&mut self, ord: i64, key: &str, value: &[u8])
        ensures
            final(self).start() == old(self).start(),
    {
        self.put(Policy::Max, ord, key, &Operand::BigDecimal(value));
    }

    fn set_sum_int64(&mut self, ord: i64, key: &str, value: &[u8])
        ensures
            final(self).start() == old(self).start(),
    {
        self.put(Policy::SetSum, ord, key, &Operand::Int64Text(value));
    }

    fn set_sum_bigint(&mut self, ord: i64, key: &str, value: &[u8])
        ensures
            final(self).start() == old(self).start(),
    {
        self.put(Policy::SetSum, ord, key, &Operand::BigInt(value));
    }

    fn set_sum_bigdecimal(&mut self, ord: i64, key: &str, value: &[u8])
        ensures
            final(self).start() == old(self).start(),
    {
        self.put(Policy::SetSum, ord, key, &Operand::BigDecimal(value));
    }
}

/// What the store held when the block began is what the host's snapshot
/// shows, so a host that shows the same snapshot as another held the same.
pub proof fn lemma_same_start(a: &MemoryHost, b: &MemoryHost)
    requires
        forall|idx: u32, k: Seq<char>| #[trigger] a.value_last(idx, k) == b.value_last(idx, k),
    ensures
        a.start() == b.start(),
{
    assert forall|k: Seq<char>| #[trigger] (a.start())(k) == (b.start())(k) by {
        assert(a.value_last(0, k) == b.value_last(0, k));
    }
    assert(a.start() =~= b.start());
}

/// After a request the journal of the block is the journal before it with
/// the line that the request adds.
pub proof fn lemma_block_grows(before: &MemoryHost, after: &MemoryHost, asked: Request)
    requires
        after.follows(before, asked),
    ensures
        after.block() == extended(before.block(), asked, before.latest(asked.key)),
{
    assert(after.requests().drop_last() =~= before.requests());
}

/// The text of a 64-bit number is read back as that number.
proof fn lemma_number_written(v: i64)
    ensures
        number_at(Some(decimal_text(v as int))) == Some(v),
{
    lemma_int64_round_trip(v);
}

/// A write that replaces is what the key holds afterwards, whatever it held.
pub proof fn lemma_overwrite(
    before: &MemoryHost,
    after: &MemoryHost,
    ord: i64,
    key: Seq<char>,
    value: Seq<u8>,
)
    requires
        after.follows(
            before,
            (Request { policy: Policy::Overwrite, ord, key, payload: Payload::Bytes(value) }),
        ),
    ensures
        after.latest(key) == Some(value),
{
    lemma_block_grows(
        before,
        after,
        Request { policy: Policy::Overwrite, ord, key, payload: Payload::Bytes(value) },
    );
}

/// A write for absent keys only changes nothing under a key that holds a
/// value, and is what an absent key holds afterwards: of two such writes to
/// one key the first one stays.
pub proof fn lemma_set_if_not_exists(
    before: &MemoryHost,
    after: &MemoryHost,
    ord: i64,
    key: Seq<char>,
    value: Seq<u8>,
)
    requires
        after.follows(
            before,
            (Request { policy: Policy::SetIfNotExists, ord, key, payload: Payload::Bytes(value) }),
        ),
    ensures
        before.latest(key) is Some ==> after.block() == before.block(),
        after.latest(key) == if before.latest(key) is Some {
            before.latest(key)
        } else {
            Some(value)
        },
{
    lemma_block_grows(
        before,
        after,
        Request { policy: Policy::SetIfNotExists, ord, key, payload: Payload::Bytes(value) },
    );
}

/// An appended value stands behind what the key held.
pub proof fn lemma_append(
    before: &MemoryHost,
    after: &MemoryHost,
    ord: i64,
    key: Seq<char>,
    value: Seq<u8>,
)
    requires
        after.follows(
            before,
            (Request { policy: Policy::Append, ord, key, payload: Payload::Bytes(value) }),
        ),
    ensures
        after.latest(key) == Some(
            match before.latest(key) {
                Some(held) => held + value,
                None => value,
            },
        ),
{
    lemma_block_grows(
        before,
        after,
        Request { policy: Policy::Append, ord, key, payload: Payload::Bytes(value) },
    );
}

/// After a write that keeps the largest number the key holds the larger of
/// the number it held and the number written; an absent key counts as zero
/// and stays absent where zero is the larger.
pub proof fn lemma_max_int64(
    before: &MemoryHost,
    after: &MemoryHost,
    ord: i64,
    key: Seq<char>,
    value: i64,
)
    requires
        after.follows(
            before,
            (Request { policy: Policy::Max, ord, key, payload: Payload::Int64(value) }),
        ),
        number_at(before.latest(key)) is Some,
    ensures
        number_at(after.latest(key)) == Some(
            if value > number_at(before.latest(key))->0 {
                value
            } else {
                number_at(before.latest(key))->0
            },
        ),
        value > number_at(before.latest(key))->0 ==> after.latest(key) == Some(
            decimal_text(value as int),
        ),
        value <= number_at(before.latest(key))->0 ==> after.block() == before.block(),
        value <= number_at(before.latest(key))->0 ==> after.latest(key) == before.latest(key),
{
    lemma_block_grows(
        before,
        after,
        Request { policy: Policy::Max, ord, key, payload: Payload::Int64(value) },
    );
    lemma_number_written(value);
}

/// After a write that keeps the smallest number the key holds the smaller of
/// the number it held and the number written; an absent key counts as zero.
pub proof fn lemma_min_int64(
    before: &MemoryHost,
    after: &MemoryHost,
    ord: i64,
    key: Seq<char>,
    value: i64,
)
    requires
        after.follows(
            before,
            (Request { policy: Policy::Min, ord, key, payload: Payload::Int64(value) }),
        ),
        number_at(before.latest(key)) is Some,
    ensures
        number_at(after.latest(key)) == Some(
            if value < number_at(before.latest(key))->0 {
                value
            } else {
                number_at(before.latest(key))->0
            },
        ),
        value < number_at(before.latest(key))->0 ==> after.latest(key) == Some(
            decimal_text(value as int),
        ),
        value >= number_at(before.latest(key))->0 ==> after.block() == before.block(),
        value >= number_at(before.latest(key))->0 ==> after.latest(key) == before.latest(key),
{
    lemma_block_grows(
        before,
        after,
        Request { policy: Policy::Min, ord, key, payload: Payload::Int64(value) },
    );
    lemma_number_written(value);
}

/// After an adding write the key holds the sum of the number it held and the
/// number written, where the sum fits 64 bits; an absent key counts as zero.
pub proof fn lemma_add_int64(
    before: &MemoryHost,
    after: &MemoryHost,
    ord: i64,
    key: Seq<char>,
    value: i64,
)
    requires
        after.follows(
            before,
            (Request { policy: Policy::Add, ord, key, payload: Payload::Int64(value) }),
        ),
        number_at(before.latest(key)) is Some,
        i64::MIN <= number_at(before.latest(key))->0 + value <= i64::MAX,
    ensures
        number_at(after.latest(key)) == Some((number_at(before.latest(key))->0 + value) as i64),
{
    lemma_block_grows(
        before,
        after,
        Request { policy: Policy::Add, ord, key, payload: Payload::Int64(value) },
    );
    lemma_number_written((number_at(before.latest(key))->0 + value) as i64);
}

/// After a tagged write of a 64-bit number that replaces, the key holds
/// that number, whatever it held.
pub proof fn lemma_set_sum_replaces(
    before: &MemoryHost,
    after: &MemoryHost,
    ord: i64,
    key: Seq<char>,
    value: i64,
)
    requires
        after.follows(
            before,
            (Request {
                policy: Policy::SetSum,
                ord,
                key,
                payload: Payload::Int64Text(set_text(decimal_text(value as int))),
            }),
        ),
    ensures
        after.latest(key) == Some(decimal_text(value as int)),
        number_at(after.latest(key)) == Some(value),
{
    lemma_block_grows(
        before,
        after,
        Request {
            policy: Policy::SetSum,
            ord,
            key,
            payload: Payload::Int64Text(set_text(decimal_text(value as int))),
        },
    );
    lemma_untagged(decimal_text(value as int));
    lemma_i64_round_trip(value);
    lemma_number_written(value);
}

/// After a tagged write of a 64-bit number that adds, the key holds the sum
/// of the number it held and the number written, where the sum fits 64
/// bits; an absent key counts as zero.
pub proof fn lemma_set_sum_adds(
    before: &MemoryHost,
    after: &MemoryHost,
    ord: i64,
    key: Seq<char>,
    value: i64,
)
    requires
        after.follows(
            before,
            (Request {
                policy: Policy::SetSum,
                ord,
                key,
                payload: Payload::Int64Text(sum_text(decimal_text(value as int))),
            }),
        ),
        number_at(before.latest(key)) is Some,
        i64::MIN <= number_at(before.latest(key))->0 + value <= i64::MAX,
    ensures
        number_at(after.latest(key)) == Some((number_at(before.latest(key))->0 + value) as i64),
{
    lemma_block_grows(
        before,
        after,
        Request {
            policy: Policy::SetSum,
            ord,
            key,
            payload: Payload::Int64Text(sum_text(decimal_text(value as int))),
        },
    );
    lemma_untagged(decimal_text(value as int));
    lemma_i64_round_trip(value);
    lemma_number_written((number_at(before.latest(key))->0 + value) as i64);
}

/// A write to one key changes nothing under any other key, whatever the
/// policy; only a delete by prefix reaches several keys.
pub proof fn lemma_other_keys_stay(
    before: &MemoryHost,
    after: &MemoryHost,
    asked: Request,
    other: Seq<char>,
)
    requires
        after.follows(before, asked),
        asked.policy != Policy::DeletePrefix,
        other != asked.key,
    ensures
        after.latest(other) == before.latest(other),
{
    lemma_block_grows(before, after, asked);
    if written(asked, before.latest(asked.key)) is Some {
        assert(after.block().drop_last() =~= before.block());
    }
}

/// Of two writes that keep a value only under an absent key, made to one
/// key that held nothing, the first value stays.
pub proof fn lemma_first_write_stays(
    before: &MemoryHost,
    between: &MemoryHost,
    after: &MemoryHost,
    first: Request,
    second: Request,
)
    requires
        between.follows(before, first),
        after.follows(between, second),
        first.policy == Policy::SetIfNotExists,
        second.policy == Policy::SetIfNotExists,
        first.key == second.key,
        first.payload is Bytes,
        second.payload is Bytes,
        before.latest(first.key) is None,
    ensures
        after.latest(first.key) == Some(first.payload->Bytes_0),
        after.block() == between.block(),
{
    lemma_block_grows(before, between, first);
    lemma_block_grows(between, after, second);
}

/// After a delete by prefix no key that begins with the prefix holds
/// anything, and every other key holds what it held.
pub proof fn lemma_delete_prefix(
    before: &MemoryHost,
    after: &MemoryHost,
    ord: i64,
    prefix: Seq<char>,
    key: Seq<char>,
)
    requires
        after.follows(
            before,
            (Request { policy: Policy::DeletePrefix, ord, key: prefix, payload: Payload::Nothing }),
        ),
    ensures
        after.latest(key) == if is_prefix(prefix, key) {
            None
        } else {
            before.latest(key)
        },
{
    lemma_block_grows(
        before,
        after,
        Request { policy: Policy::DeletePrefix, ord, key: prefix, payload: Payload::Nothing },
    );
    assert(after.block().drop_last() =~= before.block());
}

/// A write does not change what the store showed at an earlier sequence
/// number, nor what it held when the block began.
pub proof fn lemma_earlier_views_stay(
    before: &MemoryHost,
    after: &MemoryHost,
    asked: Request,
    idx: u32,
    ord: i64,
    key: Seq<char>,
)
    requires
        after.follows(before, asked),
        ord < asked.ord,
    ensures
        after.value_at(idx, ord, key) == before.value_at(idx, ord, key),
        after.value_last(idx, key) == before.value_last(idx, key),
        after.value_first(idx, key) == before.value_first(idx, key),
{
    lemma_block_grows(before, after, asked);
    if written(asked, before.latest(asked.key)) is Some {
        assert(after.block().drop_last() =~= before.block());
    }
}

} // verus!
