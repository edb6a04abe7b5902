//! Filtering deltas by what happened to the key.

use vstd::prelude::*;
use crate::delta::{Delta, DeltaExt};
use crate::pb::Operation;

verus! {

/// Whether a delta with operation `op` passes a filter that asks for
/// `wanted`, or, if `negate` is set, for anything but `wanted`.
pub open spec fn operation_passes(op: Operation, wanted: Operation, negate: bool) -> bool {
    (op == wanted) != negate
}

/// The deltas that pass the filter for `wanted` and `negate`.
pub open spec fn with_operation<T: Delta>(wanted: Operation, negate: bool) -> spec_fn(T) -> bool {
    |d: T| operation_passes(d.operation_kind(), wanted, negate)
}

/// How many items of `s` a filter reads to find the next one that it hands
/// out: all that come before the first item that `keep` holds of, and that
/// item; all of `s` if `keep` holds of none.
pub open spec fn read_through<T>(s: Seq<T>, keep: spec_fn(T) -> bool) -> int
    decreases s.len(),
{
    if s.len() == 0 {
        0
    } else if keep(s[0]) {
        1
    } else {
        1 + read_through(s.skip(1), keep)
    }
}

/// What is left of `s` when its first item is dealt with.
pub proof fn lemma_filter_first<T>(s: Seq<T>, pred: spec_fn(T) -> bool)
    requires
        s.len() > 0,
    ensures
        pred(s[0]) ==> s.filter(pred) == seq![s[0]] + s.skip(1).filter(pred),
        !pred(s[0]) ==> s.filter(pred) == s.skip(1).filter(pred),
{
    s.lemma_filter_eq_filter_alt(pred);
    assert(s.drop_first() =~= s.skip(1));
}

/// What a filter reads to hand out its next item lies within the source.
/// Where an item passes, the last one read is the first that passes, which
/// is the item handed out, and none before it passes; where none passes,
/// all of the source is read.
pub proof fn lemma_read_through<T>(s: Seq<T>, keep: spec_fn(T) -> bool)
    ensures
        0 <= read_through(s, keep) <= s.len(),
        forall|i: int| 0 <= i < read_through(s, keep) - 1 ==> !keep(#[trigger] s[i]),
        s.filter(keep).len() > 0 ==> read_through(s, keep) >= 1 && keep(
            s[read_through(s, keep) - 1],
        ) && s.filter(keep)[0] == s[read_through(s, keep) - 1],
        s.filter(keep).len() == 0 ==> read_through(s, keep) == s.len(),
    decreases s.len(),
{
    if s.len() > 0 {
        lemma_filter_first(s, keep);
        if !keep(s[0]) {
            let rest = s.skip(1);
            lemma_read_through(rest, keep);
            let n = read_through(rest, keep);
            assert forall|i: int| 0 <= i < n implies !keep(#[trigger] s[i]) by {
                if i > 0 {
                    assert(s[i] == rest[i - 1]);
                }
            }
            if rest.filter(keep).len() > 0 {
                assert(rest[n - 1] == s[n]);
            }
        }
    } else {
        assert(s.filter(keep) =~= Seq::<T>::empty()) by {
            reveal(Seq::filter);
        }
    }
}

/// Two filters give the same deltas in the same order whichever is applied
/// first.
pub proof fn lemma_filters_commute<T>(s: Seq<T>, p: spec_fn(T) -> bool, q: spec_fn(T) -> bool)
    ensures
        s.filter(p).filter(q) == s.filter(q).filter(p),
    decreases s.len(),
{
    reveal(Seq::filter);
    if s.len() > 0 {
        let front = s.drop_last();
        let last = s.last();
        lemma_filters_commute(front, p, q);
        if p(last) {
            assert(s.filter(p) == front.filter(p).push(last));
            assert(s.filter(p).drop_last() =~= front.filter(p));
        }
        if q(last) {
            assert(s.filter(q) == front.filter(q).push(last));
            assert(s.filter(q).drop_last() =~= front.filter(q));
        }
    }
}

/// A filter keeps deltas of the walk it narrows, each at most once and in
/// the order of that walk: what it hands out is found in the source at
/// rising places.
pub proof fn lemma_filter_keeps_order<T>(s: Seq<T>, p: spec_fn(T) -> bool) -> (places: Seq<int>)
    ensures
        places.len() == s.filter(p).len(),
        forall|k: int| 0 <= k < places.len() ==> 0 <= #[trigger] places[k] < s.len(),
        forall|k: int| 0 <= k < places.len() ==> s[#[trigger] places[k]] == s.filter(p)[k],
        forall|j: int, k: int| 0 <= j < k < places.len() ==> places[j] < places[k],
    decreases s.len(),
{
    reveal(Seq::filter);
    if s.len() == 0 {
        Seq::empty()
    } else {
        let front = lemma_filter_keeps_order(s.drop_last(), p);
        if p(s.last()) {
            front.push(s.len() - 1)
        } else {
            front
        }
    }
}

/// A walk over the deltas of another walk whose operation is, or is not, a
/// given one.
pub struct OperationIs<I> {
    operation: Operation,
    negate: bool,
    underlying: I,
}

impl<I> OperationIs<I> {
    /// The operation asked for.
    pub closed spec fn wanted(&self) -> Operation {
        self.operation
    }

    /// Whether the filter passes what is not the operation asked for.
    pub closed spec fn negated(&self) -> bool {
        self.negate
    }

    /// The walk that is filtered.
    pub closed spec fn source(&self) -> I {
        self.underlying
    }

    /// The deltas of `underlying` whose operation is `operation`, or, with
    /// `negate`, is not.
    pub fn new(operation: Operation, negate: bool, underlying: I) -> (out: Self)
        ensures
            out.wanted() == operation,
            out.negated() == negate,
            out.source() == underlying,
    {
        OperationIs { operation, negate, underlying }
    }
}

impl<'a, T: Delta + 'a, I: DeltaExt<'a, T>> DeltaExt<'a, T> for OperationIs<I> {
    open spec fn pending(&self) -> Seq<T> {
        self.source().pending().filter(with_operation(self.wanted(), self.negated()))
    }

    open spec fn sound(&self) -> bool {
        self.source().sound()
    }

    /// The next delta that passes. The walk underneath is read up to that
    /// delta and no further; it is read to its end where none passes.
    fn next(&mut self) -> (out: Option<&'a T>)
        ensures
            final(self).wanted() == old(self).wanted(),
            final(self).negated() == old(self).negated(),
            final(self).source().pending() == old(self).source().pending().skip(
                read_through(
                    old(self).source().pending(),
                    with_operation::<T>(old(self).wanted(), old(self).negated()),
                ),
            ),
    {
        let ghost all = self.underlying.pending();
        let ghost keep = with_operation::<T>(self.operation, self.negate);
        let ghost mut read: int = 0;
        proof {
            assert(all.skip(0) =~= all);
        }
        loop
            invariant
                self.underlying.sound(),
                self.operation == old(self).operation,
                self.negate == old(self).negate,
                self.pending() == old(self).pending(),
                all == old(self).underlying.pending(),
                keep == with_operation::<T>(self.operation, self.negate),
                0 <= read <= all.len(),
                self.underlying.pending() == all.skip(read),
                read_through(all, keep) == read + read_through(all.skip(read), keep),
            decreases self.underlying.pending().len(),
        {
            let ghost before = self.underlying.pending();
            match self.underlying.next() {
                None => {
                    return None;
                },
                Some(d) => {
                    proof {
                        lemma_filter_first(before, keep);
                        assert(before.skip(1) =~= all.skip(read + 1));
                        read = read + 1;
                    }
                    let same = d.get_operation() == self.operation;
                    if same != self.negate {
                        proof {
                            let rest = self.pending();
                            assert((seq![before[0]] + rest).skip(1) =~= rest);
                        }
                        return Some(d);
                    }
                },
            }
        }
    }
}

} // verus!
