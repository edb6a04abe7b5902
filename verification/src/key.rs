//! Key segmentation.
//!
//! A key is a run of segments joined by the separator `:`, as in `user:0x1234`
//! or `user:0x1234:balance`. Every key has at least one segment: the empty key
//! has the single segment `""`, and `a::b` has the three segments `a`, `""`
//! and `b`. Nothing is trimmed or unescaped, so a separator that was meant to
//! be part of a segment is read as a boundary.
//!
//! [`segments`] is the mathematical model; the accessors below return slices
//! of the key that agree with it.

use vstd::prelude::*;
use vstd::string::*;
use crate::delta::{Delta, DeltaExt};
use crate::operation::{
    lemma_filter_first, lemma_filters_commute, read_through, with_operation, OperationIs,
};
use crate::text::{chars_of, str_eq};

verus! {

/// The character that separates two segments of a key.
pub open spec fn separator() -> char {
    ':'
}

/// How many characters of `key` come before its first separator, or the
/// length of `key` if it holds none.
pub open spec fn head_len(key: Seq<char>) -> nat
    decreases key.len(),
{
    if key.len() == 0 || key[0] == separator() {
        0
    } else {
        1 + head_len(key.skip(1))
    }
}

/// The segments of `key`, first to last.
pub open spec fn segments(key: Seq<char>) -> Seq<Seq<char>>
    decreases key.len(),
{
    let n = head_len(key) as int;
    if n >= key.len() {
        seq![key]
    } else {
        seq![key.take(n)] + segments(key.skip(n + 1))
    }
}

/// `parts` joined by the separator.
pub open spec fn join(parts: Seq<Seq<char>>) -> Seq<char>
    decreases parts.len(),
{
    if parts.len() == 0 {
        Seq::empty()
    } else if parts.len() == 1 {
        parts[0]
    } else {
        parts[0] + seq![separator()] + join(parts.skip(1))
    }
}

/// `part` holds no separator.
pub open spec fn is_segment(part: Seq<char>) -> bool {
    forall|i: int| 0 <= i < part.len() ==> part[i] != separator()
}

proof fn lemma_head_len_bound(key: Seq<char>)
    ensures
        head_len(key) <= key.len(),
        forall|j: int| 0 <= j < head_len(key) ==> key[j] != separator(),
        head_len(key) < key.len() ==> key[head_len(key) as int] == separator(),
    decreases key.len(),
{
    if key.len() == 0 || key[0] == separator() {
    } else {
        let rest = key.skip(1);
        lemma_head_len_bound(rest);
        assert forall|j: int| 0 <= j < head_len(key) implies key[j] != separator() by {
            if j > 0 {
                assert(key[j] == rest[j - 1]);
            }
        }
        if head_len(key) < key.len() {
            assert(key[head_len(key) as int] == rest[head_len(rest) as int]);
        }
    }
}

proof fn lemma_head_len_is(key: Seq<char>, p: int)
    requires
        0 <= p <= key.len(),
        forall|j: int| 0 <= j < p ==> key[j] != separator(),
        p == key.len() || key[p] == separator(),
    ensures
        head_len(key) == p,
    decreases p,
{
    if p == 0 {
    } else {
        let rest = key.skip(1);
        assert(key[0] != separator());
        assert forall|j: int| 0 <= j < p - 1 implies rest[j] != separator() by {
            assert(rest[j] == key[j + 1]);
        }
        if p < key.len() {
            assert(rest[p - 1] == key[p]);
        }
        lemma_head_len_is(rest, p - 1);
    }
}

/// Every key splits into separator-free segments, at least one, that give the
/// key back when joined by the separator.
pub proof fn lemma_segments_join(key: Seq<char>)
    ensures
        segments(key).len() >= 1,
        forall|i: int| 0 <= i < segments(key).len() ==> is_segment(#[trigger] segments(key)[i]),
        join(segments(key)) == key,
    decreases key.len(),
{
    lemma_head_len_bound(key);
    let n = head_len(key) as int;
    if n >= key.len() {
        assert(segments(key) =~= seq![key]);
    } else {
        let rest = key.skip(n + 1);
        lemma_segments_join(rest);
        let all = segments(key);
        assert(all =~= seq![key.take(n)] + segments(rest));
        assert(all.skip(1) =~= segments(rest));
        assert(all[0] == key.take(n));
        assert(key =~= key.take(n) + seq![separator()] + rest);
        assert forall|i: int| 0 <= i < all.len() implies is_segment(#[trigger] all[i]) by {
            if i > 0 {
                assert(all[i] == segments(rest)[i - 1]);
            }
        }
    }
}

/// Joining separator-free parts and splitting the result gives the parts
/// back: a key has exactly one segmentation.
pub proof fn lemma_segments_of_join(parts: Seq<Seq<char>>)
    requires
        parts.len() >= 1,
        forall|i: int| 0 <= i < parts.len() ==> is_segment(#[trigger] parts[i]),
    ensures
        segments(join(parts)) == parts,
    decreases parts.len(),
{
    let first = parts[0];
    if parts.len() == 1 {
        lemma_head_len_is(first, first.len() as int);
        assert(segments(first) =~= seq![first]);
        assert(parts =~= seq![first]);
    } else {
        let tail = parts.skip(1);
        assert forall|i: int| 0 <= i < tail.len() implies is_segment(#[trigger] tail[i]) by {
            assert(tail[i] == parts[i + 1]);
        }
        lemma_segments_of_join(tail);
        let key = join(parts);
        let n = first.len() as int;
        assert(key == first + seq![separator()] + join(tail));
        assert forall|j: int| 0 <= j < n implies key[j] != separator() by {
            assert(key[j] == first[j]);
        }
        assert(key[n] == separator());
        lemma_head_len_is(key, n);
        assert(key.take(n) =~= first);
        assert(key.skip(n + 1) =~= join(tail));
        assert(segments(key) =~= seq![first] + tail);
        assert(parts =~= seq![first] + tail);
    }
}

/// Where segment `index` of `chars` starts and ends (end excluded), if the
/// key has that many segments.
fn segment_range(chars: &Vec<char>, index: usize) -> (out: Option<(usize, usize)>)
    ensures
        out is Some <==> index < segments(chars@).len(),
        out matches Some((from, to)) ==> from <= to <= chars@.len() && chars@.subrange(
            from as int,
            to as int,
        ) == segments(chars@)[index as int],
{
    let n = chars.len();
    let mut seen: usize = 0;
    let mut start: usize = 0;
    let mut i: usize = 0;
    let ghost mut done: Seq<Seq<char>> = Seq::empty();
    proof {
        assert(chars@.skip(0) =~= chars@);
    }
    while i < n
        invariant
            n == chars@.len(),
            start <= i <= n,
            seen == done.len(),
            seen <= index,
            seen <= start,
            segments(chars@) == done + segments(chars@.skip(start as int)),
            forall|j: int| start <= j < i ==> chars@[j] != separator(),
        decreases n - i,
    {
        if chars[i] == ':' {
            proof {
                let rest = chars@.skip(start as int);
                let p = (i - start) as int;
                assert forall|j: int| 0 <= j < p implies rest[j] != separator() by {
                    assert(rest[j] == chars@[start + j]);
                }
                assert(rest[p] == chars@[i as int]);
                lemma_head_len_is(rest, p);
                assert(rest.take(p) =~= chars@.subrange(start as int, i as int));
                assert(rest.skip(p + 1) =~= chars@.skip(i + 1));
                assert(segments(rest) == seq![rest.take(p)] + segments(rest.skip(p + 1)));
                assert(segments(chars@) =~= (done + seq![rest.take(p)]) + segments(
                    chars@.skip(i + 1),
                ));
            }
            if seen == index {
                return Some((start, i));
            }
            proof {
                done = done + seq![chars@.subrange(start as int, i as int)];
            }
            seen = seen + 1;
            start = i + 1;
        }
        i = i + 1;
    }
    proof {
        let rest = chars@.skip(start as int);
        let p = (n - start) as int;
        assert forall|j: int| 0 <= j < p implies rest[j] != separator() by {
            assert(rest[j] == chars@[start + j]);
        }
        lemma_head_len_is(rest, p);
        assert(segments(rest) =~= seq![rest]);
        assert(rest =~= chars@.subrange(start as int, n as int));
    }
    if seen == index {
        Some((start, n))
    } else {
        None
    }
}

/// Where the last segment of `chars` starts; it runs to the end of the key.
fn last_segment_start(chars: &Vec<char>) -> (from: usize)
    ensures
        from <= chars@.len(),
        chars@.skip(from as int) == segments(chars@).last(),
{
    let n = chars.len();
    let mut start: usize = 0;
    let mut i: usize = 0;
    let ghost mut done: Seq<Seq<char>> = Seq::empty();
    proof {
        assert(chars@.skip(0) =~= chars@);
    }
    while i < n
        invariant
            n == chars@.len(),
            start <= i <= n,
            segments(chars@) == done + segments(chars@.skip(start as int)),
            forall|j: int| start <= j < i ==> chars@[j] != separator(),
        decreases n - i,
    {
        if chars[i] == ':' {
            proof {
                let rest = chars@.skip(start as int);
                let p = (i - start) as int;
                assert forall|j: int| 0 <= j < p implies rest[j] != separator() by {
                    assert(rest[j] == chars@[start + j]);
                }
                assert(rest[p] == chars@[i as int]);
                lemma_head_len_is(rest, p);
                assert(rest.skip(p + 1) =~= chars@.skip(i + 1));
                assert(segments(rest) == seq![rest.take(p)] + segments(rest.skip(p + 1)));
                assert(segments(chars@) =~= (done + seq![rest.take(p)]) + segments(
                    chars@.skip(i + 1),
                ));
                done = done + seq![rest.take(p)];
            }
            start = i + 1;
        }
        i = i + 1;
    }
    proof {
        let rest = chars@.skip(start as int);
        let p = (n - start) as int;
        assert forall|j: int| 0 <= j < p implies rest[j] != separator() by {
            assert(rest[j] == chars@[start + j]);
        }
        lemma_head_len_is(rest, p);
        assert(segments(rest) =~= seq![rest]);
        assert((done + seq![rest]).last() == rest);
    }
    start
}

/// Segment `index` of `key`, or `None` if the key has no such segment.
pub fn try_segment_at(key: &String, index: usize) -> (out: Option<&str>)
    ensures
        out is Some <==> index < segments(key@).len(),
        out matches Some(part) ==> part@ == segments(key@)[index as int],
{
    let chars = chars_of(key.as_str());
    match segment_range(&chars, index) {
        Some((from, to)) => Some(key.as_str().substring_char(from, to)),
        None => None,
    }
}

/// The first segment of `key`. Every key has one, so this is never `None`.
pub fn try_first_segment(key: &String) -> (out: Option<&str>)
    ensures
        out matches Some(part) && part@ == segments(key@).first(),
{
    proof {
        lemma_segments_join(key@);
    }
    try_segment_at(key, 0)
}

/// The last segment of `key`. Every key has one, so this is never `None`.
pub fn try_last_segment(key: &String) -> (out: Option<&str>)
    ensures
        out matches Some(part) && part@ == segments(key@).last(),
{
    let chars = chars_of(key.as_str());
    let from = last_segment_start(&chars);
    let to = chars.len();
    proof {
        assert(chars@.skip(from as int) =~= chars@.subrange(from as int, to as int));
    }
    Some(key.as_str().substring_char(from, to))
}

/// Segment `index` of `key`, which must exist.
pub fn segment_at(key: &String, index: usize) -> (part: &str)
    requires
        index < segments(key@).len(),
    ensures
        part@ == segments(key@)[index as int],
{
    try_segment_at(key, index).unwrap()
}

/// Segment `index` of `key`, which must exist, as a string of its own.
pub fn segment_at_owned(key: String, index: usize) -> (part: String)
    requires
        index < segments(key@).len(),
    ensures
        part@ == segments(key@)[index as int],
{
    segment_at(&key, index).to_owned()
}

/// The first segment of `key`.
pub fn first_segment(key: &String) -> (part: &str)
    ensures
        part@ == segments(key@).first(),
{
    proof {
        lemma_segments_join(key@);
    }
    segment_at(key, 0)
}

/// The last segment of `key`.
pub fn last_segment(key: &String) -> (part: &str)
    ensures
        part@ == segments(key@).last(),
{
    let chars = chars_of(key.as_str());
    let from = last_segment_start(&chars);
    let to = chars.len();
    proof {
        assert(chars@.skip(from as int) =~= chars@.subrange(from as int, to as int));
    }
    key.as_str().substring_char(from, to)
}

/// The segment of `key` that a filter looks at: the one at `at`, or the last
/// one if `at` is `None`. `None` if the key has no segment `at`.
pub open spec fn part(key: Seq<char>, at: Option<usize>) -> Option<Seq<char>> {
    match at {
        Some(i) => if i < segments(key).len() {
            Some(segments(key)[i as int])
        } else {
            None
        },
        None => Some(segments(key).last()),
    }
}

/// Every one of `deltas` has a key with the segment that `at` asks for.
pub open spec fn all_have_part<T: Delta>(deltas: Seq<T>, at: Option<usize>) -> bool {
    forall|i: int| 0 <= i < deltas.len() ==> part((#[trigger] deltas[i]).key_text(), at) is Some
}

/// The deltas whose segment at `at` is `value`.
pub open spec fn with_part<T: Delta>(at: Option<usize>, value: Seq<char>) -> spec_fn(T) -> bool {
    |d: T| part(d.key_text(), at) == Some(value)
}

/// The deltas whose segment at `at` is one of `values`.
pub open spec fn with_part_in<T: Delta>(at: Option<usize>, values: Seq<Seq<char>>) -> spec_fn(
    T,
) -> bool {
    |d: T| part(d.key_text(), at) matches Some(p) && values.contains(p)
}

/// The texts of `values`.
pub open spec fn texts_of(values: Seq<String>) -> Seq<Seq<char>> {
    values.map_values(|v: String| v@)
}

/// The segment of `key` that `at` asks for, which must exist.
fn part_of<'k>(key: &'k String, at: Option<usize>) -> (out: &'k str)
    requires
        part(key@, at) is Some,
    ensures
        part(key@, at) == Some(out@),
{
    match at {
        Some(i) => segment_at(key, i),
        None => last_segment(key),
    }
}

/// Whether `text` is one of `values`.
fn one_of(text: &str, values: &Vec<String>) -> (found: bool)
    ensures
        found == texts_of(values@).contains(text@),
{
    let n = values.len();
    let mut i: usize = 0;
    while i < n
        invariant
            n == values@.len(),
            i <= n,
            forall|j: int| 0 <= j < i ==> texts_of(values@)[j] != text@,
        decreases n - i,
    {
        if str_eq(values[i].as_str(), text) {
            proof {
                assert(texts_of(values@)[i as int] == text@);
            }
            return true;
        }
        i = i + 1;
    }
    false
}

/// A walk over the deltas of another walk whose key has a given segment at
/// a given place.
pub struct SegmentAtEq<I> {
    segment: String,
    at: Option<usize>,
    underlying: I,
}

impl<I> SegmentAtEq<I> {
    /// The segment asked for.
    pub closed spec fn wanted(&self) -> Seq<char> {
        self.segment@
    }

    /// Where the segment is looked for: at an index, or at the end.
    pub closed spec fn place(&self) -> Option<usize> {
        self.at
    }

    /// The walk that is filtered.
    pub closed spec fn source(&self) -> I {
        self.underlying
    }

    /// The deltas of `underlying` whose key has `segment` at `at`, or as
    /// its last segment if `at` is `None`.
    pub fn new(segment: String, at: Option<usize>, underlying: I) -> (out: Self)
        ensures
            out.wanted() == segment@,
            out.place() == at,
            out.source() == underlying,
    {
        SegmentAtEq { segment, at, underlying }
    }
}

impl<'a, T: Delta + 'a, I: DeltaExt<'a, T>> DeltaExt<'a, T> for SegmentAtEq<I> {
    open spec fn pending(&self) -> Seq<T> {
        self.source().pending().filter(with_part(self.place(), self.wanted()))
    }

    open spec fn sound(&self) -> bool {
        self.source().sound() && all_have_part(self.source().pending(), self.place())
    }

    /// The next delta that passes. The walk underneath is read up to that
    /// delta and no further; it is read to its end where none passes.
    fn next(&mut self) -> (out: Option<&'a T>)
        ensures
            final(self).wanted() == old(self).wanted(),
            final(self).place() == old(self).place(),
            final(self).source().pending() == old(self).source().pending().skip(
                read_through(
                    old(self).source().pending(),
                    with_part::<T>(old(self).place(), old(self).wanted()),
                ),
            ),
    {
        let ghost all = self.underlying.pending();
        let ghost keep = with_part::<T>(self.at, self.segment@);
        let ghost mut read: int = 0;
        proof {
            assert(all.skip(0) =~= all);
        }
        loop
            invariant
                self.sound(),
                self.segment@ == old(self).segment@,
                self.at == old(self).at,
                self.pending() == old(self).pending(),
                all == old(self).underlying.pending(),
                keep == with_part::<T>(self.at, self.segment@),
                0 <= read <= all.len(),
                self.underlying.pending() == all.skip(read),
                read_through(all, keep) == read + read_through(all.skip(read), keep),
            decreases self.underlying.pending().len(),
        {
            let ghost before = self.underlying.pending();
            match self.underlying.next() {
                None => {
                    return None;
                },
                Some(d) => {
                    proof {
                        lemma_filter_first(before, keep);
                        assert forall|i: int| 0 <= i < before.skip(1).len() implies part(
                            (#[trigger] before.skip(1)[i]).key_text(),
                            self.at,
                        ) is Some by {
                            assert(before.skip(1)[i] == before[i + 1]);
                        }
                        assert(part(before[0].key_text(), self.at) is Some);
                        assert(before.skip(1) =~= all.skip(read + 1));
                        read = read + 1;
                    }
                    let found = part_of(d.get_key(), self.at);
                    if str_eq(self.segment.as_str(), found) {
                        proof {
                            let rest = self.pending();
                            assert((seq![before[0]] + rest).skip(1) =~= rest);
                        }
                        return Some(d);
                    }
                },
            }
        }
    }
}

/// A walk over the deltas of another walk whose key has one of several
/// segments at a given place.
pub struct SegmentAtIn<I> {
    segments: Vec<String>,
    at: Option<usize>,
    underlying: I,
}

impl<I> SegmentAtIn<I> {
    /// The segments asked for.
    pub closed spec fn wanted(&self) -> Seq<Seq<char>> {
        texts_of(self.segments@)
    }

    /// Where the segment is looked for: at an index, or at the end.
    pub closed spec fn place(&self) -> Option<usize> {
        self.at
    }

    /// The walk that is filtered.
    pub closed spec fn source(&self) -> I {
        self.underlying
    }

    /// The deltas of `underlying` whose key has one of `segments` at `at`,
    /// or as its last segment if `at` is `None`.
    pub fn new(segments: Vec<String>, at: Option<usize>, underlying: I) -> (out: Self)
        ensures
            out.wanted() == texts_of(segments@),
            out.place() == at,
            out.source() == underlying,
    {
        SegmentAtIn { segments, at, underlying }
    }
}

impl<'a, T: Delta + 'a, I: DeltaExt<'a, T>> DeltaExt<'a, T> for SegmentAtIn<I> {
    open spec fn pending(&self) -> Seq<T> {
        self.source().pending().filter(with_part_in(self.place(), self.wanted()))
    }

    /// With no segment to look for no key is looked into, so nothing is
    /// asked of the keys.
    open spec fn sound(&self) -> bool {
        self.source().sound() && (self.wanted().len() == 0 || all_have_part(
            self.source().pending(),
            self.place(),
        ))
    }

    /// The next delta that passes. With no segment to look for nothing
    /// passes, and the walk underneath is not read at all. Otherwise it is
    /// read up to the delta handed out and no further, and to its end where
    /// none passes.
    fn next(&mut self) -> (out: Option<&'a T>)
        ensures
            final(self).wanted() == old(self).wanted(),
            final(self).place() == old(self).place(),
            old(self).wanted().len() == 0 ==> final(self).source() == old(self).source(),
            old(self).wanted().len() > 0 ==> final(self).source().pending() == old(
                self,
            ).source().pending().skip(
                read_through(
                    old(self).source().pending(),
                    with_part_in::<T>(old(self).place(), old(self).wanted()),
                ),
            ),
    {
        let ghost all = self.underlying.pending();
        let ghost keep = with_part_in::<T>(self.at, texts_of(self.segments@));
        let ghost mut read: int = 0;
        if self.segments.len() == 0 {
            proof {
                assert(all.all(|d: T| !keep(d))) by {
                    assert forall|i: int| 0 <= i < all.len() implies !keep(#[trigger] all[i]) by {
                        assert(texts_of(self.segments@).len() == 0);
                    }
                }
                all.lemma_all_neg_filter_empty(keep);
            }
            return None;
        }
        proof {
            assert(all.skip(0) =~= all);
        }
        loop
            invariant
                self.underlying.sound(),
                all_have_part(self.underlying.pending(), self.at),
                self.segments@ == old(self).segments@,
                self.segments@.len() > 0,
                self.at == old(self).at,
                self.pending() == old(self).pending(),
                all == old(self).underlying.pending(),
                keep == with_part_in::<T>(self.at, texts_of(self.segments@)),
                0 <= read <= all.len(),
                self.underlying.pending() == all.skip(read),
                read_through(all, keep) == read + read_through(all.skip(read), keep),
            decreases self.underlying.pending().len(),
        {
            let ghost before = self.underlying.pending();
            match self.underlying.next() {
                None => {
                    return None;
                },
                Some(d) => {
                    proof {
                        lemma_filter_first(before, keep);
                        assert forall|i: int| 0 <= i < before.skip(1).len() implies part(
                            (#[trigger] before.skip(1)[i]).key_text(),
                            self.at,
                        ) is Some by {
                            assert(before.skip(1)[i] == before[i + 1]);
                        }
                        assert(part(before[0].key_text(), self.at) is Some);
                        assert(before.skip(1) =~= all.skip(read + 1));
                        read = read + 1;
                    }
                    let found = part_of(d.get_key(), self.at);
                    if one_of(found, &self.segments) {
                        proof {
                            let rest = self.pending();
                            assert((seq![before[0]] + rest).skip(1) =~= rest);
                        }
                        return Some(d);
                    }
                },
            }
        }
    }
}

/// Filtering by operation and then by a key segment hands out the same
/// deltas, in the same order, as filtering by the segment and then by the
/// operation.
pub proof fn lemma_chain_order<'a, T: Delta + 'a, I: DeltaExt<'a, T>>(
    by_operation_first: SegmentAtEq<OperationIs<I>>,
    by_segment_first: OperationIs<SegmentAtEq<I>>,
)
    requires
        by_operation_first.source().source().pending()
            == by_segment_first.source().source().pending(),
        by_operation_first.source().wanted() == by_segment_first.wanted(),
        by_operation_first.source().negated() == by_segment_first.negated(),
        by_operation_first.place() == by_segment_first.source().place(),
        by_operation_first.wanted() == by_segment_first.source().wanted(),
    ensures
        by_operation_first.pending() == by_segment_first.pending(),
{
    lemma_filters_commute(
        by_segment_first.source().source().pending(),
        with_operation::<T>(by_segment_first.wanted(), by_segment_first.negated()),
        with_part::<T>(by_operation_first.place(), by_operation_first.wanted()),
    );
}

} // verus!
