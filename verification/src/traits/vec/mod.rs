use crate::model::{answers, deduped, deduped_by_key, drained, kept, undrained};
use crate::traits::vec::drain::Drain;
use crate::traits::slice_owner::SliceOwner;
use core::ops::Range;
use vstd::prelude::*;
use vstd::std_specs::cmp::PartialEqSpec;

pub mod drain;

verus! {

/// A sequence whose length can change, up to a capacity.
///
/// An implementation supplies the capacity, the growth request and the raw
/// primitives that change the length by one element, exchange two live
/// elements or hand the suffix to a new owner. Everything else is written
/// once, here, in terms of those primitives. The primitives and the
/// `_unchecked` entry points take their preconditions on trust; through the
/// proofs every caller inside verified code has met them.
pub trait Vec: SliceOwner + Sized {
    /// The largest length this backing can reach.
    spec fn spec_capacity() -> nat;

    /// A well-formed owner never holds more than its capacity.
    proof fn lemma_len_within_capacity(&self)
        requires
            self.wf(),
        ensures
            self@.len() <= Self::spec_capacity(),
    ;

    /// Upper bound on the length that needs no growth request.
    fn capacity(&self) -> (c: usize)
        requires
            self.wf(),
        ensures
            self@.len() <= c <= Self::spec_capacity(),
    ;

    /// Makes room for `additional` more elements. The contents are untouched.
    fn reserve(&mut self, additional: usize)
        requires
            old(self).wf(),
            old(self)@.len() + additional <= Self::spec_capacity(),
        ensures
            final(self).wf(),
            final(self)@ == old(self)@,
    ;

    /// Writes `item` at the length and extends the length by one.
    fn push_unchecked(&mut self, item: Self::Item)
        requires
            old(self).wf(),
            old(self)@.len() < Self::spec_capacity(),
        ensures
            final(self).wf(),
            final(self)@ == old(self)@.push(item),
    ;

    /// Shrinks the length by one and hands out the element that was last.
    fn pop_unchecked(&mut self) -> (item: Self::Item)
        requires
            old(self).wf(),
            old(self)@.len() > 0,
        ensures
            final(self).wf(),
            final(self)@ == old(self)@.drop_last(),
            item == old(self)@.last(),
    ;

    /// Exchanges the live elements at `a` and `b`.
    fn swap_unchecked(&mut self, a: usize, b: usize)
        requires
            old(self).wf(),
            a < old(self)@.len(),
            b < old(self)@.len(),
        ensures
            final(self).wf(),
            final(self)@ == old(self)@.update(a as int, old(self)@[b as int]).update(
                b as int,
                old(self)@[a as int],
            ),
    ;

    /// Moves the suffix that starts at `at` into a new owner of the same
    /// kind and shrinks this one to `at`.
    fn split_off_unchecked(&mut self, at: usize) -> (tail: Self)
        requires
            old(self).wf(),
            at <= old(self)@.len(),
        ensures
            final(self).wf(),
            tail.wf(),
            final(self)@ == old(self)@.subrange(0, at as int),
            tail@ == old(self)@.subrange(at as int, old(self)@.len() as int),
    ;

    /// Appends `item`.
    fn push(&mut self, item: Self::Item)
        requires
            old(self).wf(),
            old(self)@.len() < Self::spec_capacity(),
        ensures
            final(self).wf(),
            final(self)@ == old(self)@.push(item),
    {
        self.reserve(1);
        self.push_unchecked(item);
    }

    /// Removes the last element, if there is one.
    fn pop(&mut self) -> (item: Option<Self::Item>)
        requires
            old(self).wf(),
        ensures
            final(self).wf(),
            old(self)@.len() == 0 ==> item is None && final(self)@ == old(self)@,
            old(self)@.len() > 0 ==> item == Some(old(self)@.last()) && final(self)@ == old(
                self,
            )@.drop_last(),
    {
        if self.len() > 0 {
            Some(self.pop_unchecked())
        } else {
            None
        }
    }

    /// Shifts the suffix that starts at `index` one place right and writes
    /// `element` into the gap.
    fn insert_unchecked(&mut self, index: usize, element: Self::Item)
        requires
            old(self).wf(),
            index <= old(self)@.len(),
            old(self)@.len() < Self::spec_capacity(),
        ensures
            final(self).wf(),
            final(self)@ == old(self)@.insert(index as int, element),
    {
        let len = self.len();
        self.push_unchecked(element);
        let mut i: usize = len;
        assert(self@ =~= old(self)@.insert(i as int, element));
        while i > index
            invariant
                self.wf(),
                index <= i <= len,
                len == old(self)@.len(),
                self@ == old(self)@.insert(i as int, element),
            decreases i,
        {
            self.swap_unchecked(i - 1, i);
            i -= 1;
            assert(self@ =~= old(self)@.insert(i as int, element));
        }
    }

    /// Inserts `element` at `index`; the elements from `index` on move one
    /// place right. At `index == len` this is a push.
    fn insert(&mut self, index: usize, element: Self::Item)
        requires
            old(self).wf(),
            index <= old(self)@.len(),
            old(self)@.len() < Self::spec_capacity(),
        ensures
            final(self).wf(),
            final(self)@ == old(self)@.insert(index as int, element),
    {
        self.reserve(1);
        self.insert_unchecked(index, element);
    }

    /// Takes out the element at `index` and shifts the suffix behind it one
    /// place left.
    fn remove_unchecked(&mut self, index: usize) -> (item: Self::Item)
        requires
            old(self).wf(),
            index < old(self)@.len(),
        ensures
            final(self).wf(),
            item == old(self)@[index as int],
            final(self)@ == old(self)@.remove(index as int),
    {
        let len = self.len();
        let mut i: usize = index;
        assert(self@ =~= old(self)@.remove(index as int).insert(i as int, old(self)@[index as int]));
        while i + 1 < len
            invariant
                self.wf(),
                index <= i < len,
                len == old(self)@.len(),
                self@ == old(self)@.remove(index as int).insert(
                    i as int,
                    old(self)@[index as int],
                ),
            decreases len - i,
        {
            self.swap_unchecked(i, i + 1);
            i += 1;
            assert(self@ =~= old(self)@.remove(index as int).insert(
                i as int,
                old(self)@[index as int],
            ));
        }
        let item = self.pop_unchecked();
        assert(self@ =~= old(self)@.remove(index as int));
        item
    }

    /// Removes and returns the element at `index`, keeping the order of the
    /// others.
    fn remove(&mut self, index: usize) -> (item: Self::Item)
        requires
            old(self).wf(),
            index < old(self)@.len(),
        ensures
            final(self).wf(),
            item == old(self)@[index as int],
            final(self)@ == old(self)@.remove(index as int),
    {
        self.remove_unchecked(index)
    }

    /// Takes out the element at `index` and puts the last element in its
    /// place. The order of the others is not kept.
    fn swap_remove_unchecked(&mut self, index: usize) -> (item: Self::Item)
        requires
            old(self).wf(),
            index < old(self)@.len(),
        ensures
            final(self).wf(),
            item == old(self)@[index as int],
            final(self)@ == old(self)@.update(index as int, old(self)@.last()).drop_last(),
    {
        let last = self.len() - 1;
        self.swap_unchecked(index, last);
        let item = self.pop_unchecked();
        assert(self@ =~= old(self)@.update(index as int, old(self)@.last()).drop_last());
        item
    }

    /// Removes and returns the element at `index` in constant time; the last
    /// element takes its place.
    fn swap_remove(&mut self, index: usize) -> (item: Self::Item)
        requires
            old(self).wf(),
            index < old(self)@.len(),
        ensures
            final(self).wf(),
            item == old(self)@[index as int],
            final(self)@ == old(self)@.update(index as int, old(self)@.last()).drop_last(),
    {
        self.swap_remove_unchecked(index)
    }

    /// Shrinks to `len` elements and drops the suffix beyond it. The length
    /// has already been lowered when an element is dropped.
    fn truncate_unchecked(&mut self, len: usize)
        requires
            old(self).wf(),
            len <= old(self)@.len(),
        ensures
            final(self).wf(),
            final(self)@ == old(self)@.subrange(0, len as int),
    {
        let mut n: usize = self.len();
        assert(self@ =~= old(self)@.subrange(0, n as int));
        while n > len
            invariant
                self.wf(),
                len <= n <= old(self)@.len(),
                self@ == old(self)@.subrange(0, n as int),
            decreases n,
        {
            let _ = self.pop_unchecked();
            n -= 1;
            assert(self@ =~= old(self)@.subrange(0, n as int));
        }
    }

    /// Keeps the first `len` elements and drops the rest; does nothing when
    /// `len` is not below the current length.
    fn truncate(&mut self, len: usize)
        requires
            old(self).wf(),
        ensures
            final(self).wf(),
            len < old(self)@.len() ==> final(self)@ == old(self)@.subrange(0, len as int),
            len >= old(self)@.len() ==> final(self)@ == old(self)@,
    {
        if len > self.len() {
            return ;
        }
        self.truncate_unchecked(len);
        assert(len == old(self)@.len() ==> self@ =~= old(self)@);
    }

    /// Drops every element.
    fn clear(&mut self)
        requires
            old(self).wf(),
        ensures
            final(self).wf(),
            final(self)@ == Seq::<Self::Item>::empty(),
    {
        self.truncate_unchecked(0);
        assert(self@ =~= Seq::<Self::Item>::empty());
    }

    /// Brings the length to `new_len`. When that grows the sequence, every
    /// new position but the last holds a clone of `value` and the last holds
    /// `value` itself; when it does not, the suffix beyond `new_len` is
    /// dropped.
    fn resize(&mut self, new_len: usize, value: Self::Item) where Self::Item: Clone
        requires
            old(self).wf(),
            new_len <= Self::spec_capacity(),
        ensures
            final(self).wf(),
            final(self)@.len() == new_len,
            new_len <= old(self)@.len() ==> final(self)@ == old(self)@.subrange(0, new_len as int),
            new_len > old(self)@.len() ==> {
                &&& final(self)@.subrange(0, old(self)@.len() as int) == old(self)@
                &&& forall|i: int|
                    old(self)@.len() <= i < new_len - 1 ==> cloned(value, #[trigger] final(self)@[i])
                &&& final(self)@[new_len - 1] == value
            },
    {
        let len = self.len();
        if new_len > len {
            let last: usize = new_len - 1;
            let mut i: usize = len;
            assert(self@.subrange(0, len as int) =~= old(self)@);
            while i < last
                invariant
                    self.wf(),
                    len <= i <= last,
                    last < Self::spec_capacity(),
                    len == old(self)@.len(),
                    self@.len() == i,
                    self@.subrange(0, len as int) == old(self)@,
                    forall|k: int| len <= k < i ==> cloned(value, #[trigger] self@[k]),
                decreases last - i,
            {
                let ghost before = self@;
                self.push_unchecked(value.clone());
                i += 1;
                assert(self@.subrange(0, len as int) =~= before.subrange(0, len as int));
            }
            let ghost before = self@;
            self.push_unchecked(value);
            assert(self@.subrange(0, len as int) =~= before.subrange(0, len as int));
        } else {
            self.truncate_unchecked(new_len);
        }
    }

    /// Appends a clone of each element of `slice`, in order; room for them
    /// is taken on trust.
    fn extend_from_slice_unchecked(&mut self, slice: &[Self::Item]) where Self::Item: Clone
        requires
            old(self).wf(),
            old(self)@.len() + slice@.len() <= Self::spec_capacity(),
        ensures
            final(self).wf(),
            final(self)@.len() == old(self)@.len() + slice@.len(),
            final(self)@.subrange(0, old(self)@.len() as int) == old(self)@,
            forall|i: int|
                0 <= i < slice@.len() ==> cloned(
                    slice@[i],
                    #[trigger] final(self)@[old(self)@.len() + i],
                ),
    {
        let len = self.len();
        let count = slice.len();
        let mut i: usize = 0;
        assert(self@.subrange(0, len as int) =~= old(self)@);
        while i < count
            invariant
                self.wf(),
                i <= count,
                count == slice@.len(),
                len == old(self)@.len(),
                len + count <= Self::spec_capacity(),
                self@.len() == len + i,
                self@.subrange(0, len as int) == old(self)@,
                forall|k: int| 0 <= k < i ==> cloned(slice@[k], #[trigger] self@[len + k]),
            decreases count - i,
        {
            let ghost before = self@;
            self.push_unchecked(slice[i].clone());
            i += 1;
            assert(self@.subrange(0, len as int) =~= before.subrange(0, len as int));
        }
    }

    /// Appends a clone of each element of `slice`, in order.
    fn extend_from_slice(&mut self, slice: &[Self::Item]) where Self::Item: Clone
        requires
            old(self).wf(),
            old(self)@.len() + slice@.len() <= Self::spec_capacity(),
        ensures
            final(self).wf(),
            final(self)@.len() == old(self)@.len() + slice@.len(),
            final(self)@.subrange(0, old(self)@.len() as int) == old(self)@,
            forall|i: int|
                0 <= i < slice@.len() ==> cloned(
                    slice@[i],
                    #[trigger] final(self)@[old(self)@.len() + i],
                ),
    {
        self.reserve(slice.len());
        self.extend_from_slice_unchecked(slice);
    }
}

/// The method `capacity` of the heap vector: the number of elements it can
/// hold without reallocating, which is never below its length.
#[verifier::external_body]
fn heap_capacity<T>(v: &std::vec::Vec<T>) -> (c: usize)
    ensures
        v@.len() <= c,
{
    v.capacity()
}

/// The heap vector takes part by delegation: its own allocation and growth
/// are used as they are, so its length is bounded only by what an index can
/// express.
impl<T> Vec for std::vec::Vec<T> {
    open spec fn spec_capacity() -> nat {
        usize::MAX as nat
    }

    proof fn lemma_len_within_capacity(&self) {
        assert(self@.len() == self.len());
    }

    fn capacity(&self) -> (c: usize) {
        heap_capacity(self)
    }

    /// Hands the request to the heap vector's own `reserve`. What that
    /// changes is the allocation, which depends on the allocator and is not
    /// part of the view; of the elements it changes nothing.
    fn reserve(&mut self, additional: usize) {
        std::vec::Vec::reserve(self, additional)
    }

    fn push_unchecked(&mut self, item: T) {
        std::vec::Vec::push(self, item)
    }

    fn pop_unchecked(&mut self) -> (item: T) {
        let item = std::vec::Vec::pop(self);
        assert(self@ =~= old(self)@.drop_last());
        item.unwrap()
    }

    fn swap_unchecked(&mut self, a: usize, b: usize) {
        if a != b {
            let lo: usize = if a < b { a } else { b };
            let hi: usize = if a < b { b } else { a };
            let end = std::vec::Vec::len(self) - 1;
            let mut moving = std::vec::Vec::swap_remove(self, hi);
            self.set_and_swap(lo, &mut moving);
            std::vec::Vec::push(self, moving);
            if hi != end {
                let displaced = std::vec::Vec::swap_remove(self, hi);
                std::vec::Vec::push(self, displaced);
            }
        }
        assert(self@ =~= old(self)@.update(a as int, old(self)@[b as int]).update(
            b as int,
            old(self)@[a as int],
        ));
    }

    fn split_off_unchecked(&mut self, at: usize) -> (tail: Self) {
        std::vec::Vec::split_off(self, at)
    }

    fn push(&mut self, item: T) {
        std::vec::Vec::push(self, item)
    }

    fn pop(&mut self) -> (item: Option<T>) {
        let item = std::vec::Vec::pop(self);
        assert(old(self)@.len() > 0 ==> self@ =~= old(self)@.drop_last());
        item
    }

    fn insert(&mut self, index: usize, element: T) {
        std::vec::Vec::insert(self, index, element)
    }

    fn remove(&mut self, index: usize) -> (item: T) {
        std::vec::Vec::remove(self, index)
    }

    fn swap_remove(&mut self, index: usize) -> (item: T) {
        std::vec::Vec::swap_remove(self, index)
    }

    fn truncate(&mut self, len: usize) {
        std::vec::Vec::truncate(self, len)
    }

    fn clear(&mut self) {
        std::vec::Vec::clear(self)
    }
}

/// Reverses the order of the elements of `v` from position `from` on.
pub(crate) fn reverse_from<V: Vec>(v: &mut V, from: usize)
    requires
        old(v).wf(),
        from <= old(v)@.len(),
    ensures
        final(v).wf(),
        final(v)@ == old(v)@.subrange(0, from as int) + old(v)@.subrange(
            from as int,
            old(v)@.len() as int,
        ).reverse(),
{
    let len = v.len();
    let mut lo: usize = from;
    let mut hi: usize = len;
    while hi - lo > 1
        invariant
            v.wf(),
            from <= lo <= hi <= len,
            lo - from == len - hi,
            len == old(v)@.len(),
            v@.len() == len,
            forall|k: int| 0 <= k < from || lo <= k < hi ==> #[trigger] v@[k] == old(v)@[k],
            forall|k: int|
                from <= k < lo || hi <= k < len ==> #[trigger] v@[k] == old(v)@[from + len - 1 - k],
        decreases hi - lo,
    {
        v.swap_unchecked(lo, hi - 1);
        lo += 1;
        hi -= 1;
    }
    assert(v@ =~= old(v)@.subrange(0, from as int) + old(v)@.subrange(
        from as int,
        old(v)@.len() as int,
    ).reverse());
}

/// One end of a range of indices.
pub enum IndexBound {
    /// The range reaches this index and includes it.
    Included(usize),
    /// The range reaches this index and leaves it out.
    Excluded(usize),
    /// The range has no limit on this side.
    Unbounded,
}

/// The first index of a range that starts at `start`.
pub open spec fn resolved_start(start: IndexBound) -> int {
    match start {
        IndexBound::Included(s) => s as int,
        IndexBound::Excluded(s) => s + 1,
        IndexBound::Unbounded => 0,
    }
}

/// The index one past the last of a range that ends at `end`, within a
/// sequence of `len` elements.
pub open spec fn resolved_end(end: IndexBound, len: int) -> int {
    match end {
        IndexBound::Included(e) => e + 1,
        IndexBound::Excluded(e) => e as int,
        IndexBound::Unbounded => len,
    }
}

/// Resolves a pair of bounds against a sequence of `len` elements into the
/// half-open range `start..end` that it denotes. A range that starts after
/// its end, or ends beyond `len`, is not accepted.
pub fn slice_range(start: IndexBound, end: IndexBound, len: usize) -> (range: Range<usize>)
    requires
        resolved_start(start) <= resolved_end(end, len as int) <= len,
    ensures
        range.start == resolved_start(start),
        range.end == resolved_end(end, len as int),
{
    let first: usize = match start {
        IndexBound::Included(s) => s,
        IndexBound::Excluded(s) => s + 1,
        IndexBound::Unbounded => 0,
    };
    let past: usize = match end {
        IndexBound::Included(e) => e + 1,
        IndexBound::Excluded(e) => e,
        IndexBound::Unbounded => len,
    };
    Range { start: first, end: past }
}

/// The operations that move whole ranges of elements: between two owners,
/// or out of the middle of one.
pub trait VecUnsized: Vec {
    /// Splits the sequence in two at `at`: this owner keeps the elements
    /// before `at`, the new owner gets those from `at` on. Elements are
    /// relocated, not cloned.
    fn split_off(&mut self, at: usize) -> (tail: Self)
        requires
            old(self).wf(),
            at <= old(self)@.len(),
        ensures
            final(self).wf(),
            tail.wf(),
            final(self)@ == old(self)@.subrange(0, at as int),
            tail@ == old(self)@.subrange(at as int, old(self)@.len() as int),
    {
        self.split_off_unchecked(at)
    }

    /// Relocates every element of `other` onto the end of this sequence,
    /// in order; room for them is taken on trust. `other` is used up.
    fn append_unchecked<S: Vec<Item = Self::Item>>(&mut self, other: S)
        requires
            old(self).wf(),
            other.wf(),
            old(self)@.len() + other@.len() <= Self::spec_capacity(),
        ensures
            final(self).wf(),
            final(self)@ == old(self)@ + other@,
    {
        let mut other = other;
        let ghost moved = other@;
        let base = self.len();
        let mut left: usize = other.len();
        assert(other@ =~= moved.subrange(0, left as int));
        assert(self@ =~= old(self)@ + moved.subrange(left as int, moved.len() as int).reverse());
        while left > 0
            invariant
                self.wf(),
                other.wf(),
                left <= moved.len(),
                base == old(self)@.len(),
                base + moved.len() <= Self::spec_capacity(),
                other@ == moved.subrange(0, left as int),
                self@ == old(self)@ + moved.subrange(left as int, moved.len() as int).reverse(),
            decreases left,
        {
            let item = other.pop_unchecked();
            self.push_unchecked(item);
            left -= 1;
            assert(other@ =~= moved.subrange(0, left as int));
            assert(self@ =~= old(self)@ + moved.subrange(
                left as int,
                moved.len() as int,
            ).reverse());
        }
        let ghost turned = self@;
        reverse_from(self, base);
        assert(self@ =~= old(self)@ + moved) by {
            assert(turned.subrange(0, base as int) =~= old(self)@);
            assert(turned.subrange(base as int, turned.len() as int) =~= moved.reverse());
            assert(moved.reverse().reverse() =~= moved);
        }
    }

    /// Relocates every element of `other` onto the end of this sequence,
    /// in order. `other` is used up.
    fn append<S: Vec<Item = Self::Item>>(&mut self, other: S)
        requires
            old(self).wf(),
            other.wf(),
            old(self)@.len() + other@.len() <= Self::spec_capacity(),
        ensures
            final(self).wf(),
            final(self)@ == old(self)@ + other@,
    {
        self.reserve(other.len());
        self.append_unchecked(other);
    }

    /// Takes the elements of `range` out of the sequence, to be handed out
    /// by the drain that is returned. From this moment the owner holds the
    /// elements before the range and nothing else; the tail behind the
    /// range waits in the drain until it is finalized.
    fn drain(&mut self, range: Range<usize>) -> (drain: Drain<'_, Self>)
        requires
            old(self).wf(),
            range.start <= range.end <= old(self)@.len(),
        ensures
            drain.wf(),
            drain.vec@ == old(self)@.subrange(0, range.start as int),
            drain.remaining() == drained(old(self)@, range.start as int, range.end as int),
            drain.tail@ == old(self)@.subrange(range.end as int, old(self)@.len() as int),
            drain.vec@ + drain.tail@ == undrained(
                old(self)@,
                range.start as int,
                range.end as int,
            ),
            *final(drain.vec) == *final(self),
    {
        proof {
            self.lemma_len_within_capacity();
        }
        let span = slice_range(
            IndexBound::Included(range.start),
            IndexBound::Excluded(range.end),
            self.len(),
        );
        let tail = self.split_off_unchecked(span.end);
        let mut iter = self.split_off_unchecked(span.start);
        let ghost excised = iter@;
        reverse_from(&mut iter, 0);
        assert(iter@ =~= excised.reverse());
        assert(excised.reverse().reverse() =~= excised);
        assert(excised =~= drained(old(self)@, range.start as int, range.end as int));
        assert(self@ =~= old(self)@.subrange(0, range.start as int));
        Drain { vec: self, iter, tail }
    }

    /// Visits every element once, in order, and keeps those for which `f`
    /// answers `true`, in their order.
    fn retain<F>(&mut self, f: F) where F: FnMut(&Self::Item) -> bool
        requires
            old(self).wf(),
            forall|i: int| 0 <= i < old(self)@.len() ==> call_requires(f, (&old(self)@[i],)),
        ensures
            final(self).wf(),
            forall|keep: spec_fn(Self::Item) -> bool|
                answers(f, keep) ==> final(self)@ == #[trigger] old(self)@.filter(keep),
    {
        let ghost given = f;
        let mut f = f;
        let len = self.len();
        let mut write: usize = 0;
        let mut read: usize = 0;
        assert(self@.subrange(0, 0) =~= Seq::<Self::Item>::empty());
        assert(forall|keep: spec_fn(Self::Item) -> bool|
            old(self)@.subrange(0, 0).filter(keep) =~= Seq::<Self::Item>::empty()) by {
            reveal(Seq::filter);
        }
        while read < len
            invariant
                self.wf(),
                write <= read <= len,
                len == old(self)@.len(),
                self@.len() == len,
                f == given,
                forall|i: int| 0 <= i < old(self)@.len() ==> call_requires(f, (&old(self)@[i],)),
                self@.subrange(read as int, len as int) == old(self)@.subrange(
                    read as int,
                    len as int,
                ),
                forall|keep: spec_fn(Self::Item) -> bool|
                    answers(f, keep) ==> self@.subrange(0, write as int) == #[trigger] old(
                        self,
                    )@.subrange(0, read as int).filter(keep),
            decreases len - read,
        {
            let ghost before = self@;
            let ghost done = old(self)@.subrange(0, read as int);
            let ghost x = old(self)@[read as int];
            assert(before[read as int] == before.subrange(read as int, len as int)[0]);
            let stays = f(self.get(read));
            if stays {
                if write != read {
                    self.swap_unchecked(write, read);
                }
                write += 1;
            }
            read += 1;
            proof {
                assert(self@.subrange(read as int, len as int) =~= before.subrange(
                    read - 1,
                    len as int,
                ).subrange(1, len - read + 1));
                assert(old(self)@.subrange(read as int, len as int) =~= old(self)@.subrange(
                    read - 1,
                    len as int,
                ).subrange(1, len - read + 1));
                assert(old(self)@.subrange(0, read as int) =~= done.push(x));
                assert forall|keep: spec_fn(Self::Item) -> bool| answers(f, keep) implies self@.subrange(
                    0,
                    write as int,
                ) == #[trigger] old(self)@.subrange(0, read as int).filter(keep) by {
                    done.lemma_filter_push(x, keep);
                    assert(stays == keep(x));
                    assert(before.subrange(0, write - (if stays { 1int } else { 0int }))
                        == done.filter(keep));
                    if stays {
                        assert(self@.subrange(0, write as int) =~= before.subrange(
                            0,
                            write - 1,
                        ).push(x));
                    } else {
                        assert(self@.subrange(0, write as int) =~= before.subrange(
                            0,
                            write as int,
                        ));
                    }
                }
            }
        }
        self.truncate_unchecked(write);
        assert(old(self)@.subrange(0, len as int) =~= old(self)@);
    }

    /// Visits every element once, in order, through an exclusive reference,
    /// and keeps those for which `f` answers `true`, in their order and as
    /// `f` left them.
    fn retain_mut<F>(&mut self, f: F) where F: FnMut(&mut Self::Item) -> bool
        requires
            old(self).wf(),
            forall|i: int, r: &mut Self::Item|
                0 <= i < old(self)@.len() && *r == old(self)@[i] ==> call_requires(f, (r,)),
        ensures
            final(self).wf(),
            forall|keep: spec_fn(Self::Item) -> bool, update: spec_fn(Self::Item) -> Self::Item|
                (forall|r: &mut Self::Item, b: bool| #[trigger]
                    call_ensures(f, (r,), b) ==> b == keep(*r) && *final(r) == update(*r))
                    ==> final(self)@ == #[trigger] kept(old(self)@, keep, update),
    {
        let ghost given = f;
        let mut f = f;
        let len = self.len();
        let mut write: usize = 0;
        let mut read: usize = 0;
        assert(self@.subrange(0, 0) =~= Seq::<Self::Item>::empty());
        while read < len
            invariant
                self.wf(),
                write <= read <= len,
                len == old(self)@.len(),
                self@.len() == len,
                f == given,
                forall|i: int, r: &mut Self::Item|
                    0 <= i < old(self)@.len() && *r == old(self)@[i] ==> call_requires(f, (r,)),
                self@.subrange(read as int, len as int) == old(self)@.subrange(
                    read as int,
                    len as int,
                ),
                forall|keep: spec_fn(Self::Item) -> bool, update: spec_fn(Self::Item) -> Self::Item|
                    (forall|r: &mut Self::Item, b: bool| #[trigger]
                        call_ensures(f, (r,), b) ==> b == keep(*r) && *final(r) == update(*r))
                        ==> self@.subrange(0, write as int) == #[trigger] kept(
                        old(self)@.subrange(0, read as int),
                        keep,
                        update,
                    ),
            decreases len - read,
        {
            let ghost before = self@;
            let ghost done = old(self)@.subrange(0, read as int);
            let ghost x = old(self)@[read as int];
            assert(before[read as int] == before.subrange(read as int, len as int)[0]);
            let item = self.get_mut(read);
            let stays = f(item);
            let ghost changed = self@;
            if stays {
                if write != read {
                    self.swap_unchecked(write, read);
                }
                write += 1;
            }
            read += 1;
            proof {
                assert(self@.subrange(read as int, len as int) =~= before.subrange(
                    read - 1,
                    len as int,
                ).subrange(1, len - read + 1));
                assert(old(self)@.subrange(read as int, len as int) =~= old(self)@.subrange(
                    read - 1,
                    len as int,
                ).subrange(1, len - read + 1));
                let now = old(self)@.subrange(0, read as int);
                assert(now.drop_last() =~= done);
                assert(now.last() == x);
                assert forall|
                    keep: spec_fn(Self::Item) -> bool,
                    update: spec_fn(Self::Item) -> Self::Item,
                |
                    (forall|r: &mut Self::Item, b: bool| #[trigger]
                        call_ensures(f, (r,), b) ==> b == keep(*r) && *final(r) == update(
                            *r,
                        )) implies self@.subrange(0, write as int) == #[trigger] kept(
                    old(self)@.subrange(0, read as int),
                    keep,
                    update,
                ) by {
                    assert(stays == keep(x));
                    assert(changed == before.update(read - 1, update(x)));
                    assert(before.subrange(0, write - (if stays { 1int } else { 0int })) == kept(
                        done,
                        keep,
                        update,
                    ));
                    if stays {
                        assert(self@.subrange(0, write as int) =~= before.subrange(
                            0,
                            write - 1,
                        ).push(update(x)));
                    } else {
                        assert(self@.subrange(0, write as int) =~= before.subrange(
                            0,
                            write as int,
                        ));
                    }
                }
            }
        }
        self.truncate_unchecked(write);
        assert(old(self)@.subrange(0, len as int) =~= old(self)@);
    }

    /// Removes consecutive duplicates. Each element after the first is
    /// handed to `same_bucket` together with the last element kept so far,
    /// in that order; when the answer is `true` the element is dropped,
    /// otherwise it is kept behind the others.
    fn dedup_by<F>(&mut self, same_bucket: F) where
        F: FnMut(&mut Self::Item, &mut Self::Item) -> bool,

        requires
            old(self).wf(),
            forall|a: &mut Self::Item, b: &mut Self::Item| call_requires(same_bucket, (a, b)),
        ensures
            final(self).wf(),
            forall|
                same: spec_fn(Self::Item, Self::Item) -> bool,
                on_next: spec_fn(Self::Item, Self::Item) -> Self::Item,
                on_prev: spec_fn(Self::Item, Self::Item) -> Self::Item,
            |
                (forall|a: &mut Self::Item, b: &mut Self::Item, r: bool| #[trigger]
                    call_ensures(same_bucket, (a, b), r) ==> r == same(*a, *b) && *final(a)
                        == on_next(*a, *b) && *final(b) == on_prev(*a, *b)) ==> final(self)@
                    == #[trigger] deduped(old(self)@, same, on_next, on_prev),
    {
        let ghost given = same_bucket;
        let mut same_bucket = same_bucket;
        let len = self.len();
        if len <= 1 {
            return ;
        }
        let mut write: usize = 1;
        let mut read: usize = 1;
        assert(self@.subrange(0, 1) =~= old(self)@.subrange(0, 1));
        while read < len
            invariant
                self.wf(),
                same_bucket == given,
                forall|a: &mut Self::Item, b: &mut Self::Item| call_requires(same_bucket, (a, b)),
                1 <= write <= read <= len,
                len == old(self)@.len(),
                self@.len() == len,
                self@.subrange(read as int, len as int) == old(self)@.subrange(
                    read as int,
                    len as int,
                ),
                forall|
                    same: spec_fn(Self::Item, Self::Item) -> bool,
                    on_next: spec_fn(Self::Item, Self::Item) -> Self::Item,
                    on_prev: spec_fn(Self::Item, Self::Item) -> Self::Item,
                |
                    (forall|a: &mut Self::Item, b: &mut Self::Item, r: bool| #[trigger]
                        call_ensures(same_bucket, (a, b), r) ==> r == same(*a, *b) && *final(a)
                            == on_next(*a, *b) && *final(b) == on_prev(*a, *b)) ==> self@.subrange(
                        0,
                        write as int,
                    ) == #[trigger] deduped(
                        old(self)@.subrange(0, read as int),
                        same,
                        on_next,
                        on_prev,
                    ),
            decreases len - read,
        {
            let ghost before = self@;
            let ghost done = old(self)@.subrange(0, read as int);
            let ghost x = old(self)@[read as int];
            let ghost p = before[write - 1];
            assert(before[read as int] == before.subrange(read as int, len as int)[0]);
            let pair = self.get_pair_mut(write - 1, read);
            let duplicate = same_bucket(pair.1, pair.0);
            let ghost compared = self@;
            if !duplicate {
                if write != read {
                    self.swap_unchecked(write, read);
                }
                write += 1;
            }
            read += 1;
            proof {
                assert(self@.subrange(read as int, len as int) =~= before.subrange(
                    read - 1,
                    len as int,
                ).subrange(1, len - read + 1));
                assert(old(self)@.subrange(read as int, len as int) =~= old(self)@.subrange(
                    read - 1,
                    len as int,
                ).subrange(1, len - read + 1));
                let now = old(self)@.subrange(0, read as int);
                assert(now.drop_last() =~= done);
                assert(now.last() == x);
                assert forall|
                    same: spec_fn(Self::Item, Self::Item) -> bool,
                    on_next: spec_fn(Self::Item, Self::Item) -> Self::Item,
                    on_prev: spec_fn(Self::Item, Self::Item) -> Self::Item,
                |
                    (forall|a: &mut Self::Item, b: &mut Self::Item, r: bool| #[trigger]
                        call_ensures(same_bucket, (a, b), r) ==> r == same(*a, *b) && *final(a)
                            == on_next(*a, *b) && *final(b) == on_prev(
                            *a,
                            *b,
                        )) implies self@.subrange(0, write as int) == #[trigger] deduped(
                    old(self)@.subrange(0, read as int),
                    same,
                    on_next,
                    on_prev,
                ) by {
                    let kept_so_far = before.subrange(0, write - (if duplicate { 0int } else { 1int }));
                    assert(kept_so_far == deduped(done, same, on_next, on_prev));
                    assert(kept_so_far.last() == p);
                    assert(duplicate == same(x, p));
                    assert(compared == before.update(kept_so_far.len() - 1, on_prev(x, p)).update(
                        read - 1,
                        on_next(x, p),
                    ));
                    let settled = kept_so_far.drop_last().push(on_prev(x, p));
                    if duplicate {
                        assert(self@.subrange(0, write as int) =~= settled);
                    } else {
                        assert(self@.subrange(0, write as int) =~= settled.push(on_next(x, p)));
                    }
                }
            }
        }
        self.truncate_unchecked(write);
        assert(old(self)@.subrange(0, len as int) =~= old(self)@);
    }

    /// Removes consecutive elements that have equal keys. The key of each
    /// element after the first is compared with the key of the last element
    /// kept so far; `key` is called on the element first, then on the one
    /// kept.
    fn dedup_by_key<F, K>(&mut self, key: F) where
        F: FnMut(&mut Self::Item) -> K,
        K: PartialEq,

        requires
            old(self).wf(),
            forall|r: &mut Self::Item| call_requires(key, (r,)),
        ensures
            final(self).wf(),
            forall|key_of: spec_fn(Self::Item) -> K, update: spec_fn(Self::Item) -> Self::Item|
                K::obeys_eq_spec() && (forall|r: &mut Self::Item, k: K| #[trigger]
                    call_ensures(key, (r,), k) ==> k == key_of(*r) && *final(r) == update(*r))
                    ==> final(self)@ == #[trigger] deduped_by_key(old(self)@, key_of, update),
    {
        let ghost given = key;
        let mut key = key;
        let len = self.len();
        if len <= 1 {
            return ;
        }
        let mut write: usize = 1;
        let mut read: usize = 1;
        assert(self@.subrange(0, 1) =~= old(self)@.subrange(0, 1));
        while read < len
            invariant
                self.wf(),
                key == given,
                forall|r: &mut Self::Item| call_requires(key, (r,)),
                1 <= write <= read <= len,
                len == old(self)@.len(),
                self@.len() == len,
                self@.subrange(read as int, len as int) == old(self)@.subrange(
                    read as int,
                    len as int,
                ),
                forall|key_of: spec_fn(Self::Item) -> K, update: spec_fn(Self::Item) -> Self::Item|
                    K::obeys_eq_spec() && (forall|r: &mut Self::Item, k: K| #[trigger]
                        call_ensures(key, (r,), k) ==> k == key_of(*r) && *final(r) == update(*r))
                        ==> self@.subrange(0, write as int) == #[trigger] deduped_by_key(
                        old(self)@.subrange(0, read as int),
                        key_of,
                        update,
                    ),
            decreases len - read,
        {
            let ghost before = self@;
            let ghost done = old(self)@.subrange(0, read as int);
            let ghost x = old(self)@[read as int];
            let ghost p = before[write - 1];
            assert(before[read as int] == before.subrange(read as int, len as int)[0]);
            let pair = self.get_pair_mut(write - 1, read);
            let key_next = key(pair.1);
            let key_prev = key(pair.0);
            let duplicate = key_next == key_prev;
            let ghost compared = self@;
            if !duplicate {
                if write != read {
                    self.swap_unchecked(write, read);
                }
                write += 1;
            }
            read += 1;
            proof {
                assert(self@.subrange(read as int, len as int) =~= before.subrange(
                    read - 1,
                    len as int,
                ).subrange(1, len - read + 1));
                assert(old(self)@.subrange(read as int, len as int) =~= old(self)@.subrange(
                    read - 1,
                    len as int,
                ).subrange(1, len - read + 1));
                let now = old(self)@.subrange(0, read as int);
                assert(now.drop_last() =~= done);
                assert(now.last() == x);
                assert forall|
                    key_of: spec_fn(Self::Item) -> K,
                    update: spec_fn(Self::Item) -> Self::Item,
                |
                    K::obeys_eq_spec() && (forall|r: &mut Self::Item, k: K| #[trigger]
                        call_ensures(key, (r,), k) ==> k == key_of(*r) && *final(r) == update(
                            *r,
                        )) implies self@.subrange(0, write as int) == #[trigger] deduped_by_key(
                    old(self)@.subrange(0, read as int),
                    key_of,
                    update,
                ) by {
                    let kept_so_far = before.subrange(0, write - (if duplicate { 0int } else { 1int }));
                    assert(kept_so_far == deduped_by_key(done, key_of, update));
                    assert(kept_so_far.last() == p);
                    assert(key_next == key_of(x));
                    assert(key_prev == key_of(p));
                    assert(duplicate == key_of(x).eq_spec(&key_of(p)));
                    assert(compared == before.update(kept_so_far.len() - 1, update(p)).update(
                        read - 1,
                        update(x),
                    ));
                    let settled = kept_so_far.drop_last().push(update(p));
                    if duplicate {
                        assert(self@.subrange(0, write as int) =~= settled);
                    } else {
                        assert(self@.subrange(0, write as int) =~= settled.push(update(x)));
                    }
                }
            }
        }
        self.truncate_unchecked(write);
        assert(old(self)@.subrange(0, len as int) =~= old(self)@);
    }

    /// Brings the length to `new_len`. When that grows the sequence, each
    /// new position holds what one call of `f` returned, in the order of the
    /// calls; when it does not, the suffix beyond `new_len` is dropped.
    fn resize_with<F>(&mut self, new_len: usize, f: F) where F: FnMut() -> Self::Item
        requires
            old(self).wf(),
            new_len <= Self::spec_capacity(),
            new_len > old(self)@.len() ==> call_requires(f, ()),
        ensures
            final(self).wf(),
            final(self)@.len() == new_len,
            new_len <= old(self)@.len() ==> final(self)@ == old(self)@.subrange(0, new_len as int),
            new_len > old(self)@.len() ==> {
                &&& final(self)@.subrange(0, old(self)@.len() as int) == old(self)@
                &&& forall|i: int|
                    old(self)@.len() <= i < new_len ==> call_ensures(f, (), #[trigger] final(self)@[i])
            },
    {
        let ghost given = f;
        let mut f = f;
        let len = self.len();
        if new_len > len {
            let mut i: usize = len;
            assert(self@.subrange(0, len as int) =~= old(self)@);
            while i < new_len
                invariant
                    self.wf(),
                    f == given,
                    call_requires(f, ()),
                    len <= i <= new_len,
                    new_len <= Self::spec_capacity(),
                    len == old(self)@.len(),
                    self@.len() == i,
                    self@.subrange(0, len as int) == old(self)@,
                    forall|k: int| len <= k < i ==> call_ensures(f, (), #[trigger] self@[k]),
                decreases new_len - i,
            {
                let ghost before = self@;
                self.push_unchecked(f());
                i += 1;
                assert(self@.subrange(0, len as int) =~= before.subrange(0, len as int));
            }
        } else {
            self.truncate_unchecked(new_len);
        }
    }

    /// Appends a clone of each element in `range`, in order. The source
    /// lies wholly before the place where the clones are written.
    fn extend_from_within(&mut self, range: Range<usize>) where Self::Item: Clone
        requires
            old(self).wf(),
            range.start <= range.end <= old(self)@.len(),
            old(self)@.len() + (range.end - range.start) <= Self::spec_capacity(),
        ensures
            final(self).wf(),
            final(self)@.len() == old(self)@.len() + (range.end - range.start),
            final(self)@.subrange(0, old(self)@.len() as int) == old(self)@,
            forall|i: int|
                0 <= i < range.end - range.start ==> cloned(
                    old(self)@[range.start + i],
                    #[trigger] final(self)@[old(self)@.len() + i],
                ),
    {
        let len = self.len();
        let span = slice_range(
            IndexBound::Included(range.start),
            IndexBound::Excluded(range.end),
            len,
        );
        let count: usize = span.end - span.start;
        self.reserve(count);
        let mut i: usize = 0;
        assert(self@.subrange(0, len as int) =~= old(self)@);
        while i < count
            invariant
                self.wf(),
                i <= count,
                span.start == range.start,
                count == range.end - range.start,
                range.end <= len,
                len == old(self)@.len(),
                len + count <= Self::spec_capacity(),
                self@.len() == len + i,
                self@.subrange(0, len as int) == old(self)@,
                forall|k: int|
                    0 <= k < i ==> cloned(old(self)@[range.start + k], #[trigger] self@[len + k]),
            decreases count - i,
        {
            let ghost before = self@;
            assert(before[span.start + i] == before.subrange(0, len as int)[span.start + i]);
            let copy = self.get(span.start + i).clone();
            self.push_unchecked(copy);
            i += 1;
            assert(self@.subrange(0, len as int) =~= before.subrange(0, len as int));
        }
    }
}

impl<V: Vec> VecUnsized for V {
}

} // verus!
