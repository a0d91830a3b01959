use crate::model::{answers, deduped, deduped_by_key, drained, kept, undrained};
use crate::traits::slice_owner::{pair_mut, SliceOwner};
use crate::traits::vec::drain::Drain;
use crate::traits::vec::{Vec, VecUnsized};
use core::ops::Range;
use vstd::prelude::*;
use vstd::std_specs::cmp::PartialEqSpec;
use vstd::string::StringSliceAdditionalSpecFns;

verus! {

/// Whether a value of type `T` occupies no storage.
pub open spec fn zero_sized<T>() -> bool {
    vstd::layout::size_of::<T>() == 0
}

/// Tells at run time whether `T` is zero-sized.
fn is_zero_sized<T>() -> (b: bool)
    ensures
        b == zero_sized::<T>(),
{
    core::mem::size_of::<T>() == 0
}

/// Shows the solver the element type of the owner `V`, so that a contract
/// stated over sequences of `V::Item` applies where the owner is fixed and
/// the element type is written out.
proof fn lemma_item_type<V: SliceOwner>()
    ensures
        Seq::<V::Item>::empty().len() == 0,
{
}

/// The content of a slot that holds no element.
fn vacant<T>(index: usize) -> (slot: Option<T>)
    ensures
        slot is None,
{
    None
}

/// `core::array::from_fn`, which fills position `i` of a new array with what
/// the function it is given returns for `i`. It is given [`vacant`], so
/// every slot of the array is empty.
#[verifier::external_body]
fn vacant_slots<T, const N: usize>() -> (slots: [Option<T>; N])
    ensures
        forall|i: int| 0 <= i < N ==> (#[trigger] slots@[i]) is None,
{
    core::array::from_fn(vacant)
}

/// The content of a slot that holds `item`.
fn occupied<T>(item: T) -> (slot: Option<T>)
    ensures
        slot == Some(item),
{
    Some(item)
}

/// The array method `map`, which builds a new array whose position `i`
/// holds what the function it is given returns for the element at `i`. It
/// is given [`occupied`], so every slot holds the element of its position.
#[verifier::external_body]
fn occupied_slots<T, const N: usize>(items: [T; N]) -> (slots: [Option<T>; N])
    ensures
        forall|i: int| 0 <= i < N ==> (#[trigger] slots@[i]) == Some(items@[i]),
{
    items.map(occupied)
}

/// A sequence of at most `N` elements stored inline, without an allocator.
///
/// Storage is an array of `N` slots; slot `i` is occupied exactly when
/// `i < len`. Elements of a zero-sized type need no slot: they are counted
/// in `spill`, a vector that never allocates for such a type, so their
/// number is not bounded by `N`.
#[derive(Debug)]
pub struct StackVec<T, const N: usize> {
    buff: [Option<T>; N],
    len: usize,
    spill: std::vec::Vec<T>,
}

impl<T, const N: usize> View for StackVec<T, N> {
    type V = Seq<T>;

    closed spec fn view(&self) -> Seq<T> {
        if zero_sized::<T>() {
            self.spill@
        } else {
            Seq::new(self.len as nat, |i: int| self.buff@[i]->0)
        }
    }
}

impl<T, const N: usize> SliceOwner for StackVec<T, N> {
    type Item = T;

    closed spec fn wf(&self) -> bool {
        if zero_sized::<T>() {
            self.len == self.spill@.len()
        } else {
            &&& self.spill@.len() == 0
            &&& self.len <= N
            &&& forall|i: int| 0 <= i < N ==> ((#[trigger] self.buff@[i]) is Some <==> i < self.len)
        }
    }

    fn len(&self) -> (n: usize) {
        self.len
    }

    fn get(&self, index: usize) -> (item: &T) {
        if is_zero_sized::<T>() {
            &self.spill[index]
        } else {
            assert(self.buff@[index as int] is Some);
            self.buff[index].as_ref().unwrap()
        }
    }

    fn get_mut(&mut self, index: usize) -> (item: &mut T) {
        if is_zero_sized::<T>() {
            &mut self.spill[index]
        } else {
            assert(self.buff@[index as int] is Some);
            self.buff[index].as_mut().unwrap()
        }
    }

    fn get_pair_mut(&mut self, first: usize, second: usize) -> (pair: (&mut T, &mut T)) {
        if is_zero_sized::<T>() {
            pair_mut(self.spill.as_mut_slice(), first, second)
        } else {
            assert(self.buff@[first as int] is Some);
            assert(self.buff@[second as int] is Some);
            let slots: &mut [Option<T>] = &mut self.buff;
            let (lo, hi) = slots.split_at_mut(second);
            (lo[first].as_mut().unwrap(), hi[0].as_mut().unwrap())
        }
    }
}

impl<T, const N: usize> Vec for StackVec<T, N> {
    open spec fn spec_capacity() -> nat {
        if zero_sized::<T>() {
            usize::MAX as nat
        } else {
            N as nat
        }
    }

    proof fn lemma_len_within_capacity(&self) {
    }

    fn capacity(&self) -> (c: usize)
        ensures
            c == Self::spec_capacity(),
    {
        if is_zero_sized::<T>() {
            usize::MAX
        } else {
            N
        }
    }

    /// A no-op: the request is within the static capacity, which is all this
    /// backing will ever have.
    fn reserve(&mut self, additional: usize) {
    }

    fn push_unchecked(&mut self, item: T) {
        if is_zero_sized::<T>() {
            self.spill.push(item);
            self.len = self.len + 1;
        } else {
            let n: usize = self.len;
            self.buff[n] = Some(item);
            self.len = n + 1;
            assert(self@ =~= old(self)@.push(item));
        }
    }

    fn pop_unchecked(&mut self) -> (item: T) {
        if is_zero_sized::<T>() {
            self.len = self.len - 1;
            let item = self.spill.pop();
            assert(self@ =~= old(self)@.drop_last());
            item.unwrap()
        } else {
            let n: usize = self.len - 1;
            assert(self.buff@[n as int] is Some);
            let item = self.buff[n].take();
            self.len = n;
            assert(self@ =~= old(self)@.drop_last());
            item.unwrap()
        }
    }

    fn swap_unchecked(&mut self, a: usize, b: usize) {
        if a == b {
            assert(self@ =~= old(self)@.update(a as int, old(self)@[b as int]).update(
                b as int,
                old(self)@[a as int],
            ));
        } else if is_zero_sized::<T>() {
            Vec::swap_unchecked(&mut self.spill, a, b);
            assert(self@ =~= old(self)@.update(a as int, old(self)@[b as int]).update(
                b as int,
                old(self)@[a as int],
            ));
        } else {
            assert(self.buff@[a as int] is Some);
            assert(self.buff@[b as int] is Some);
            let first = self.buff[a].take();
            let second = self.buff[b].take();
            self.buff[a] = second;
            self.buff[b] = first;
            assert(self@ =~= old(self)@.update(a as int, old(self)@[b as int]).update(
                b as int,
                old(self)@[a as int],
            ));
        }
    }

    /// Builds a fresh buffer, relocates the suffix into it slot by slot and
    /// lowers the length of this one.
    fn split_off_unchecked(&mut self, at: usize) -> (tail: Self) {
        if is_zero_sized::<T>() {
            let spill = self.spill.split_off(at);
            let tail = StackVec { buff: vacant_slots(), len: self.len - at, spill };
            self.len = at;
            tail
        } else {
            let len: usize = self.len;
            let mut tail = StackVec { buff: vacant_slots(), len: 0, spill: std::vec::Vec::new() };
            let mut i: usize = at;
            while i < len
                invariant
                    !zero_sized::<T>(),
                    at <= i <= len <= N,
                    len == old(self).len,
                    self.len == len,
                    self.spill@.len() == 0,
                    tail.spill@.len() == 0,
                    tail.len == 0,
                    forall|k: int|
                        0 <= k < N ==> ((#[trigger] self.buff@[k]) is Some <==> (k < at || (i <= k
                            < len))),
                    forall|k: int|
                        0 <= k < at || i <= k < len ==> (#[trigger] self.buff@[k]) == old(
                            self,
                        ).buff@[k],
                    forall|k: int|
                        0 <= k < N ==> ((#[trigger] tail.buff@[k]) is Some <==> k < i - at),
                    forall|k: int|
                        0 <= k < i - at ==> (#[trigger] tail.buff@[k]) == old(self).buff@[k + at],
                decreases len - i,
            {
                let item = self.buff[i].take();
                tail.buff[i - at] = item;
                i += 1;
            }
            self.len = at;
            tail.len = len - at;
            assert(self@ =~= old(self)@.subrange(0, at as int));
            assert(tail@ =~= old(self)@.subrange(at as int, old(self)@.len() as int));
            tail
        }
    }
}

impl<T, const N: usize> StackVec<T, N> {
    /// An empty sequence.
    pub fn new() -> (v: Self)
        ensures
            v.wf(),
            v@ == Seq::<T>::empty(),
    {
        let v = StackVec { buff: vacant_slots(), len: 0, spill: std::vec::Vec::new() };
        assert(v@ =~= Seq::<T>::empty());
        v
    }

    /// The static capacity: `N`, or `usize::MAX` for a zero-sized element
    /// type, whose elements take no room.
    pub fn capacity() -> (c: usize)
        ensures
            c == Self::spec_capacity(),
    {
        if is_zero_sized::<T>() {
            usize::MAX
        } else {
            N
        }
    }

    /// A sequence that holds the `N` elements of `items`, in order.
    pub fn from_array(items: [T; N]) -> (v: Self)
        ensures
            v.wf(),
            v@ == items@,
    {
        let mut slots = occupied_slots(items);
        if is_zero_sized::<T>() {
            let mut spill: std::vec::Vec<T> = std::vec::Vec::new();
            let mut i: usize = 0;
            while i < N
                invariant
                    i <= N,
                    spill@ == items@.subrange(0, i as int),
                    forall|k: int| i <= k < N ==> (#[trigger] slots@[k]) == Some(items@[k]),
                decreases N - i,
            {
                let item = slots[i].take();
                spill.push(item.unwrap());
                i += 1;
                assert(spill@ =~= items@.subrange(0, i as int));
            }
            assert(spill@ =~= items@);
            StackVec { buff: slots, len: N, spill }
        } else {
            let v = StackVec { buff: slots, len: N, spill: std::vec::Vec::new() };
            assert(v@ =~= items@);
            v
        }
    }

    /// A sequence that holds a clone of each element of `slice`, in order.
    /// The slice must not be longer than the capacity.
    pub fn from_slice(slice: &[T]) -> (v: Self) where T: Clone
        requires
            slice@.len() <= Self::spec_capacity(),
        ensures
            v.wf(),
            v@.len() == slice@.len(),
            forall|i: int| 0 <= i < slice@.len() ==> cloned(slice@[i], #[trigger] v@[i]),
    {
        let mut v = Self::new();
        Vec::extend_from_slice_unchecked(&mut v, slice);
        assert forall|i: int| 0 <= i < slice@.len() implies cloned(slice@[i], #[trigger] v@[i]) by {
            assert(cloned(slice@[i], v@[0 + i]));
        }
        v
    }

    /// A sequence that holds the elements of `items`, in order, relocated
    /// out of the heap vector. The vector must not be longer than the
    /// capacity.
    pub fn from_vec(items: std::vec::Vec<T>) -> (v: Self)
        requires
            items@.len() <= Self::spec_capacity(),
        ensures
            v.wf(),
            v@ == items@,
    {
        let mut v = Self::new();
        VecUnsized::append_unchecked(&mut v, items);
        assert(v@ =~= items@);
        v
    }

    /// A sequence that holds the elements of `items`, in order, relocated
    /// out of the boxed slice. The slice must not be longer than the
    /// capacity.
    pub fn from_boxed_slice(items: Box<[T]>) -> (v: Self)
        requires
            items@.len() <= Self::spec_capacity(),
        ensures
            v.wf(),
            v@ == items@,
    {
        Self::from_vec(items.into_vec())
    }

    /// Number of live elements.
    pub fn len(&self) -> (n: usize)
        requires
            self.wf(),
        ensures
            n == self@.len(),
    {
        SliceOwner::len(self)
    }

    /// Shared access to the element at `index`.
    pub fn get(&self, index: usize) -> (item: &T)
        requires
            self.wf(),
            index < self@.len(),
        ensures
            *item == self@[index as int],
    {
        SliceOwner::get(self, index)
    }

    /// Exclusive access to the element at `index`.
    pub fn get_mut(&mut self, index: usize) -> (item: &mut T)
        requires
            old(self).wf(),
            index < old(self)@.len(),
        ensures
            *item == old(self)@[index as int],
            final(self).wf(),
            final(self)@ == old(self)@.update(index as int, *final(item)),
    {
        SliceOwner::get_mut(self, index)
    }

    /// Moves the suffix that starts at `at` into a new sequence and shrinks
    /// this one to `at`; the bound on `at` is taken on trust.
    pub fn split_off_unchecked(&mut self, at: usize) -> (tail: Self)
        requires
            old(self).wf(),
            at <= old(self)@.len(),
        ensures
            final(self).wf(),
            tail.wf(),
            final(self)@ == old(self)@.subrange(0, at as int),
            tail@ == old(self)@.subrange(at as int, old(self)@.len() as int),
    {
        Vec::split_off_unchecked(self, at)
    }

    /// Splits the sequence in two at `at`: this one keeps the elements
    /// before `at`, the new one gets those from `at` on.
    pub fn split_off(&mut self, at: usize) -> (tail: Self)
        requires
            old(self).wf(),
            at <= old(self)@.len(),
        ensures
            final(self).wf(),
            tail.wf(),
            final(self)@ == old(self)@.subrange(0, at as int),
            tail@ == old(self)@.subrange(at as int, old(self)@.len() as int),
    {
        VecUnsized::split_off(self, at)
    }

    /// Appends `item`; room for it is taken on trust.
    pub fn push_unchecked(&mut self, item: T)
        requires
            old(self).wf(),
            old(self)@.len() < Self::spec_capacity(),
        ensures
            final(self).wf(),
            final(self)@ == old(self)@.push(item),
    {
        Vec::push_unchecked(self, item)
    }

    /// Appends `item`. The sequence must be below its capacity.
    pub fn push(&mut self, item: T)
        requires
            old(self).wf(),
            old(self)@.len() < Self::spec_capacity(),
        ensures
            final(self).wf(),
            final(self)@ == old(self)@.push(item),
    {
        Vec::push(self, item)
    }

    /// Relocates every element of `other` onto the end, in order; room for
    /// them is taken on trust.
    pub fn append_unchecked<S: Vec<Item = T>>(&mut self, other: S)
        requires
            old(self).wf(),
            other.wf(),
            old(self)@.len() + other@.len() <= Self::spec_capacity(),
        ensures
            final(self).wf(),
            final(self)@ == old(self)@ + other@,
    {
        VecUnsized::append_unchecked(self, other)
    }

    /// Relocates every element of `other` onto the end, in order. Together
    /// the two must not exceed the capacity.
    pub fn append<S: Vec<Item = T>>(&mut self, other: S)
        requires
            old(self).wf(),
            other.wf(),
            old(self)@.len() + other@.len() <= Self::spec_capacity(),
        ensures
            final(self).wf(),
            final(self)@ == old(self)@ + other@,
    {
        VecUnsized::append(self, other)
    }

    /// Removes and returns the last element; that there is one is taken on
    /// trust.
    pub fn pop_unchecked(&mut self) -> (item: T)
        requires
            old(self).wf(),
            old(self)@.len() > 0,
        ensures
            final(self).wf(),
            final(self)@ == old(self)@.drop_last(),
            item == old(self)@.last(),
    {
        Vec::pop_unchecked(self)
    }

    /// Removes and returns the last element, or `None` when the sequence is
    /// empty.
    pub fn pop(&mut self) -> (item: Option<T>)
        requires
            old(self).wf(),
        ensures
            final(self).wf(),
            old(self)@.len() == 0 ==> item is None && final(self)@ == old(self)@,
            old(self)@.len() > 0 ==> item == Some(old(self)@.last()) && final(self)@ == old(
                self,
            )@.drop_last(),
    {
        Vec::pop(self)
    }

    /// Removes and returns the element at `index` in constant time; the last
    /// element takes its place.
    pub fn swap_remove(&mut self, index: usize) -> (item: T)
        requires
            old(self).wf(),
            index < old(self)@.len(),
        ensures
            final(self).wf(),
            item == old(self)@[index as int],
            final(self)@ == old(self)@.update(index as int, old(self)@.last()).drop_last(),
    {
        Vec::swap_remove(self, index)
    }

    /// As [`StackVec::swap_remove`]; the bound on `index` is taken on trust.
    pub fn swap_remove_unchecked(&mut self, index: usize) -> (item: T)
        requires
            old(self).wf(),
            index < old(self)@.len(),
        ensures
            final(self).wf(),
            item == old(self)@[index as int],
            final(self)@ == old(self)@.update(index as int, old(self)@.last()).drop_last(),
    {
        Vec::swap_remove_unchecked(self, index)
    }

    /// As [`StackVec::remove`]; the bound on `index` is taken on trust.
    pub fn remove_unchecked(&mut self, index: usize) -> (item: T)
        requires
            old(self).wf(),
            index < old(self)@.len(),
        ensures
            final(self).wf(),
            item == old(self)@[index as int],
            final(self)@ == old(self)@.remove(index as int),
    {
        Vec::remove_unchecked(self, index)
    }

    /// Removes and returns the element at `index`; the elements behind it
    /// move one place left.
    pub fn remove(&mut self, index: usize) -> (item: T)
        requires
            old(self).wf(),
            index < old(self)@.len(),
        ensures
            final(self).wf(),
            item == old(self)@[index as int],
            final(self)@ == old(self)@.remove(index as int),
    {
        Vec::remove(self, index)
    }

    /// Drops every element.
    pub fn clear(&mut self)
        requires
            old(self).wf(),
        ensures
            final(self).wf(),
            final(self)@ == Seq::<T>::empty(),
    {
        Vec::clear(self)
    }

    /// Keeps the first `len` elements and drops the rest; does nothing when
    /// `len` is not below the current length.
    pub fn truncate(&mut self, len: usize)
        requires
            old(self).wf(),
        ensures
            final(self).wf(),
            len < old(self)@.len() ==> final(self)@ == old(self)@.subrange(0, len as int),
            len >= old(self)@.len() ==> final(self)@ == old(self)@,
    {
        Vec::truncate(self, len)
    }

    /// Keeps the first `len` elements and drops the rest; that `len` is not
    /// above the current length is taken on trust.
    pub fn truncate_unchecked(&mut self, len: usize)
        requires
            old(self).wf(),
            len <= old(self)@.len(),
        ensures
            final(self).wf(),
            final(self)@ == old(self)@.subrange(0, len as int),
    {
        Vec::truncate_unchecked(self, len)
    }

    /// As [`StackVec::insert`]; the bound on `index` and the room for the
    /// element are taken on trust.
    pub fn insert_unchecked(&mut self, index: usize, element: T)
        requires
            old(self).wf(),
            index <= old(self)@.len(),
            old(self)@.len() < Self::spec_capacity(),
        ensures
            final(self).wf(),
            final(self)@ == old(self)@.insert(index as int, element),
    {
        Vec::insert_unchecked(self, index, element)
    }

    /// Inserts `element` at `index`; the elements from `index` on move one
    /// place right. The sequence must be below its capacity.
    pub fn insert(&mut self, index: usize, element: T)
        requires
            old(self).wf(),
            index <= old(self)@.len(),
            old(self)@.len() < Self::spec_capacity(),
        ensures
            final(self).wf(),
            final(self)@ == old(self)@.insert(index as int, element),
    {
        Vec::insert(self, index, element)
    }

    /// Takes the elements of `range` out of the sequence, to be handed out
    /// by the drain that is returned. Until the drain is finalized this
    /// sequence holds only the elements before the range.
    pub fn drain(&mut self, range: Range<usize>) -> (drain: Drain<'_, Self>)
        requires
            old(self).wf(),
            range.start <= range.end <= old(self)@.len(),
        ensures
            drain.wf(),
            drain.vec@ == old(self)@.subrange(0, range.start as int),
            drain.remaining() == drained(old(self)@, range.start as int, range.end as int),
            drain.tail@ == old(self)@.subrange(range.end as int, old(self)@.len() as int),
            drain.vec@ + drain.tail@ == undrained(
                old(self)@,
                range.start as int,
                range.end as int,
            ),
            *final(drain.vec) == *final(self),
    {
        VecUnsized::drain(self, range)
    }

    /// Keeps the elements for which `f` answers `true`, in their order.
    pub fn retain<F>(&mut self, f: F) where F: FnMut(&T) -> bool
        requires
            old(self).wf(),
            forall|i: int| 0 <= i < old(self)@.len() ==> call_requires(f, (&old(self)@[i],)),
        ensures
            final(self).wf(),
            forall|keep: spec_fn(T) -> bool|
                answers(f, keep) ==> final(self)@ == #[trigger] old(self)@.filter(keep),
    {
        proof {
            lemma_item_type::<Self>();
        }
        VecUnsized::retain(self, f)
    }

    /// Keeps the elements for which `f` answers `true`, in their order and
    /// as `f` left them.
    pub fn retain_mut<F>(&mut self, f: F) where F: FnMut(&mut T) -> bool
        requires
            old(self).wf(),
            forall|i: int, r: &mut T|
                0 <= i < old(self)@.len() && *r == old(self)@[i] ==> call_requires(f, (r,)),
        ensures
            final(self).wf(),
            forall|keep: spec_fn(T) -> bool, update: spec_fn(T) -> T|
                (forall|r: &mut T, b: bool| #[trigger]
                    call_ensures(f, (r,), b) ==> b == keep(*r) && *final(r) == update(*r))
                    ==> final(self)@ == #[trigger] kept(old(self)@, keep, update),
    {
        proof {
            lemma_item_type::<Self>();
        }
        VecUnsized::retain_mut(self, f)
    }

    /// Removes consecutive elements that have equal keys.
    pub fn dedup_by_key<F, K>(&mut self, key: F) where F: FnMut(&mut T) -> K, K: PartialEq
        requires
            old(self).wf(),
            forall|r: &mut T| call_requires(key, (r,)),
        ensures
            final(self).wf(),
            forall|key_of: spec_fn(T) -> K, update: spec_fn(T) -> T|
                K::obeys_eq_spec() && (forall|r: &mut T, k: K| #[trigger]
                    call_ensures(key, (r,), k) ==> k == key_of(*r) && *final(r) == update(*r))
                    ==> final(self)@ == #[trigger] deduped_by_key(old(self)@, key_of, update),
    {
        proof {
            lemma_item_type::<Self>();
        }
        VecUnsized::dedup_by_key(self, key)
    }

    /// Removes consecutive duplicates: each element after the first is
    /// dropped when `same_bucket` answers `true` for it and the last
    /// element kept so far.
    pub fn dedup_by<F>(&mut self, same_bucket: F) where F: FnMut(&mut T, &mut T) -> bool
        requires
            old(self).wf(),
            forall|a: &mut T, b: &mut T| call_requires(same_bucket, (a, b)),
        ensures
            final(self).wf(),
            forall|
                same: spec_fn(T, T) -> bool,
                on_next: spec_fn(T, T) -> T,
                on_prev: spec_fn(T, T) -> T,
            |
                (forall|a: &mut T, b: &mut T, r: bool| #[trigger]
                    call_ensures(same_bucket, (a, b), r) ==> r == same(*a, *b) && *final(a)
                        == on_next(*a, *b) && *final(b) == on_prev(*a, *b)) ==> final(self)@
                    == #[trigger] deduped(old(self)@, same, on_next, on_prev),
    {
        proof {
            lemma_item_type::<Self>();
        }
        VecUnsized::dedup_by(self, same_bucket)
    }

    /// Brings the length to `new_len`, filling new positions with clones of
    /// `value` (the last with `value` itself) or dropping the suffix.
    pub fn resize(&mut self, new_len: usize, value: T) where T: Clone
        requires
            old(self).wf(),
            new_len <= Self::spec_capacity(),
        ensures
            final(self).wf(),
            final(self)@.len() == new_len,
            new_len <= old(self)@.len() ==> final(self)@ == old(self)@.subrange(0, new_len as int),
            new_len > old(self)@.len() ==> {
                &&& final(self)@.subrange(0, old(self)@.len() as int) == old(self)@
                &&& forall|i: int|
                    old(self)@.len() <= i < new_len - 1 ==> cloned(value, #[trigger] final(self)@[i])
                &&& final(self)@[new_len - 1] == value
            },
    {
        Vec::resize(self, new_len, value)
    }

    /// Brings the length to `new_len`, filling new positions with what `f`
    /// returns, call by call, or dropping the suffix.
    pub fn resize_with<F>(&mut self, new_len: usize, f: F) where F: FnMut() -> T
        requires
            old(self).wf(),
            new_len <= Self::spec_capacity(),
            new_len > old(self)@.len() ==> call_requires(f, ()),
        ensures
            final(self).wf(),
            final(self)@.len() == new_len,
            new_len <= old(self)@.len() ==> final(self)@ == old(self)@.subrange(0, new_len as int),
            new_len > old(self)@.len() ==> {
                &&& final(self)@.subrange(0, old(self)@.len() as int) == old(self)@
                &&& forall|i: int|
                    old(self)@.len() <= i < new_len ==> call_ensures(f, (), #[trigger] final(self)@[i])
            },
    {
        VecUnsized::resize_with(self, new_len, f)
    }

    /// Appends a clone of each element of `slice`, in order; room for them
    /// is taken on trust.
    pub fn extend_from_slice_unchecked(&mut self, slice: &[T]) where T: Clone
        requires
            old(self).wf(),
            old(self)@.len() + slice@.len() <= Self::spec_capacity(),
        ensures
            final(self).wf(),
            final(self)@.len() == old(self)@.len() + slice@.len(),
            final(self)@.subrange(0, old(self)@.len() as int) == old(self)@,
            forall|i: int|
                0 <= i < slice@.len() ==> cloned(
                    slice@[i],
                    #[trigger] final(self)@[old(self)@.len() + i],
                ),
    {
        Vec::extend_from_slice_unchecked(self, slice)
    }

    /// Appends a clone of each element of `slice`, in order. Together they
    /// must not exceed the capacity.
    pub fn extend_from_slice(&mut self, slice: &[T]) where T: Clone
        requires
            old(self).wf(),
            old(self)@.len() + slice@.len() <= Self::spec_capacity(),
        ensures
            final(self).wf(),
            final(self)@.len() == old(self)@.len() + slice@.len(),
            final(self)@.subrange(0, old(self)@.len() as int) == old(self)@,
            forall|i: int|
                0 <= i < slice@.len() ==> cloned(
                    slice@[i],
                    #[trigger] final(self)@[old(self)@.len() + i],
                ),
    {
        Vec::extend_from_slice(self, slice)
    }

    /// Appends a clone of each element in `range`, in order.
    pub fn extend_from_within(&mut self, range: Range<usize>) where T: Clone
        requires
            old(self).wf(),
            range.start <= range.end <= old(self)@.len(),
            old(self)@.len() + (range.end - range.start) <= Self::spec_capacity(),
        ensures
            final(self).wf(),
            final(self)@.len() == old(self)@.len() + (range.end - range.start),
            final(self)@.subrange(0, old(self)@.len() as int) == old(self)@,
            forall|i: int|
                0 <= i < range.end - range.start ==> cloned(
                    old(self)@[range.start + i],
                    #[trigger] final(self)@[old(self)@.len() + i],
                ),
    {
        VecUnsized::extend_from_within(self, range)
    }

    /// The state of each of the `N` slots: `Some` where the slot holds an
    /// element, `None` where it is vacant.
    pub closed spec fn slots(&self) -> Seq<Option<T>> {
        self.buff@
    }

    /// Well-formed but for the agreement between the length and the slots:
    /// the state between a write into the spare slots and the call of
    /// [`StackVec::set_len`] that claims what was written.
    pub closed spec fn loose(&self) -> bool {
        if zero_sized::<T>() {
            self.len == self.spill@.len()
        } else {
            self.spill@.len() == 0
        }
    }

    /// The slots below `n` are occupied and all others are vacant.
    pub open spec fn occupied_to(&self, n: nat) -> bool {
        &&& n <= N
        &&& forall|i: int| 0 <= i < N ==> ((#[trigger] self.slots()[i]) is Some <==> i < n)
    }

    /// In a well-formed sequence of elements that take room, the slots below
    /// the length hold the elements and the others are vacant.
    pub proof fn lemma_slots(&self)
        requires
            self.wf(),
        ensures
            self.loose(),
            self.slots().len() == N,
            !zero_sized::<T>() ==> {
                &&& self.occupied_to(self@.len())
                &&& forall|i: int| 0 <= i < self@.len() ==> self.slots()[i] == Some(self@[i])
            },
    {
    }

    /// The vacant slots behind the live elements, for writing elements in
    /// place. What is written there belongs to the sequence only once
    /// [`StackVec::set_len`] has claimed it. Elements of a zero-sized type
    /// have no slots.
    pub fn spare_capacity_mut(&mut self) -> (spare: &mut [Option<T>])
        requires
            old(self).wf(),
        ensures
            zero_sized::<T>() ==> spare@.len() == 0 && final(self).wf() && final(self)@ == old(
                self,
            )@,
            !zero_sized::<T>() ==> {
                &&& spare@ == old(self).slots().subrange(old(self)@.len() as int, N as int)
                &&& final(self).slots() == old(self).slots().subrange(0, old(self)@.len() as int)
                    + final(spare)@
            },
            final(self).loose(),
    {
        let live: usize = if is_zero_sized::<T>() {
            N
        } else {
            self.len
        };
        let slots: &mut [Option<T>] = &mut self.buff;
        let (_, spare) = slots.split_at_mut(live);
        spare
    }

    /// Sets the length to `new_len`, claiming the elements written into the
    /// spare slots. The slots below `new_len`, and no others, must be
    /// occupied.
    pub fn set_len(&mut self, new_len: usize)
        requires
            old(self).loose(),
            zero_sized::<T>() ==> old(self).wf() && new_len == old(self)@.len(),
            !zero_sized::<T>() ==> old(self).occupied_to(new_len as nat),
        ensures
            final(self).wf(),
            final(self).slots() == old(self).slots(),
            final(self)@.len() == new_len,
            zero_sized::<T>() ==> final(self)@ == old(self)@,
            !zero_sized::<T>() ==> forall|i: int|
                0 <= i < new_len ==> old(self).slots()[i] == Some(#[trigger] final(self)@[i]),
    {
        self.len = new_len;
    }

    /// Turns the sequence into an iterator that owns its elements.
    pub fn into_iter(self) -> (iter: IntoIter<T, N>)
        requires
            self.wf(),
        ensures
            iter.wf(),
            iter@ == self@,
    {
        let end: usize = if is_zero_sized::<T>() {
            0
        } else {
            self.len
        };
        let iter = IntoIter { array: self.buff, start: 0, end, spill: self.spill };
        assert(iter@ =~= self@);
        iter
    }
}

impl<const N: usize> StackVec<u8, N> {
    /// A sequence that holds the bytes of `s`, in order. The string must not
    /// be longer than the capacity.
    pub fn from_str(s: &str) -> (v: Self)
        requires
            s.spec_bytes().len() <= Self::spec_capacity(),
        ensures
            v.wf(),
            v@ == s.spec_bytes(),
    {
        let v = Self::from_slice(s.as_bytes());
        assert(v@ =~= s.spec_bytes());
        v
    }
}

impl<T: Clone, const N: usize> Clone for StackVec<T, N> {
    /// A sequence of the same length that holds a clone of each element.
    fn clone(&self) -> (copy: Self)
        ensures
            self.wf() ==> {
                &&& copy.wf()
                &&& copy@.len() == self@.len()
                &&& forall|i: int| 0 <= i < self@.len() ==> cloned(self@[i], #[trigger] copy@[i])
            },
    {
        let copy = StackVec {
            buff: self.buff.clone(),
            len: self.len,
            spill: self.spill.clone(),
        };
        proof {
            if self.wf() && !zero_sized::<T>() {
                assert forall|i: int| 0 <= i < N implies ((#[trigger] copy.buff@[i]) is Some <==> i
                    < copy.len) by {
                    assert(cloned(self.buff@[i], copy.buff@[i]));
                }
                assert forall|i: int| 0 <= i < self@.len() implies cloned(
                    self@[i],
                    #[trigger] copy@[i],
                ) by {
                    assert(cloned(self.buff@[i], copy.buff@[i]));
                }
            }
        }
        copy
    }
}

impl<T, const N: usize> Default for StackVec<T, N> {
    fn default() -> (v: Self)
        ensures
            v.wf(),
            v@ == Seq::<T>::empty(),
    {
        Self::new()
    }
}

/// An iterator that owns the elements of a [`StackVec`] and hands them out
/// from either end. Elements that were not handed out are dropped with it.
///
/// The elements wait in the slots `start..end` of `array`; those of a
/// zero-sized type wait in `spill`.
#[derive(Debug)]
pub struct IntoIter<T, const N: usize> {
    array: [Option<T>; N],
    start: usize,
    end: usize,
    spill: std::vec::Vec<T>,
}

impl<T, const N: usize> View for IntoIter<T, N> {
    type V = Seq<T>;

    /// The elements not handed out yet, in order.
    closed spec fn view(&self) -> Seq<T> {
        if zero_sized::<T>() {
            self.spill@
        } else {
            Seq::new((self.end - self.start) as nat, |i: int| self.array@[self.start + i]->0)
        }
    }
}

impl<T, const N: usize> IntoIter<T, N> {
    /// The representation invariant of the iterator.
    pub closed spec fn wf(&self) -> bool {
        !zero_sized::<T>() ==> {
            &&& self.spill@.len() == 0
            &&& self.start <= self.end <= N
            &&& forall|i: int|
                0 <= i < N ==> ((#[trigger] self.array@[i]) is Some <==> self.start <= i
                    < self.end)
        }
    }

    /// An iterator over the elements of `vec`, which it takes over.
    pub fn new(vec: StackVec<T, N>) -> (iter: Self)
        requires
            vec.wf(),
        ensures
            iter.wf(),
            iter@ == vec@,
    {
        vec.into_iter()
    }

    /// Number of elements not handed out yet.
    pub fn len(&self) -> (n: usize)
        requires
            self.wf(),
        ensures
            n == self@.len(),
    {
        if is_zero_sized::<T>() {
            self.spill.len()
        } else {
            self.end - self.start
        }
    }

    /// Hands out the first element not handed out yet.
    pub fn next(&mut self) -> (item: Option<T>)
        requires
            old(self).wf(),
        ensures
            final(self).wf(),
            old(self)@.len() == 0 ==> item is None && final(self)@ == old(self)@,
            old(self)@.len() > 0 ==> item == Some(old(self)@.first()) && final(self)@ == old(
                self,
            )@.drop_first(),
    {
        if is_zero_sized::<T>() {
            if self.spill.len() > 0 {
                let item = self.spill.remove(0);
                assert(self@ =~= old(self)@.drop_first());
                Some(item)
            } else {
                None
            }
        } else if self.end > self.start {
            let curr: usize = self.start;
            assert(self.array@[curr as int] is Some);
            self.start = curr + 1;
            let item = self.array[curr].take();
            assert(self@ =~= old(self)@.drop_first());
            item
        } else {
            None
        }
    }

    /// Hands out the last element not handed out yet.
    pub fn next_back(&mut self) -> (item: Option<T>)
        requires
            old(self).wf(),
        ensures
            final(self).wf(),
            old(self)@.len() == 0 ==> item is None && final(self)@ == old(self)@,
            old(self)@.len() > 0 ==> item == Some(old(self)@.last()) && final(self)@ == old(
                self,
            )@.drop_last(),
    {
        if is_zero_sized::<T>() {
            let item = self.spill.pop();
            assert(old(self)@.len() > 0 ==> self@ =~= old(self)@.drop_last());
            item
        } else if self.end > self.start {
            let curr: usize = self.end - 1;
            assert(self.array@[curr as int] is Some);
            self.end = curr;
            let item = self.array[curr].take();
            assert(self@ =~= old(self)@.drop_last());
            item
        } else {
            None
        }
    }
}

impl<T: Clone, const N: usize> Clone for IntoIter<T, N> {
    /// An iterator that will hand out a clone of each element that this one
    /// has not handed out yet.
    fn clone(&self) -> (copy: Self)
        ensures
            self.wf() ==> {
                &&& copy.wf()
                &&& copy@.len() == self@.len()
                &&& forall|i: int| 0 <= i < self@.len() ==> cloned(self@[i], #[trigger] copy@[i])
            },
    {
        let copy = IntoIter {
            array: self.array.clone(),
            start: self.start,
            end: self.end,
            spill: self.spill.clone(),
        };
        proof {
            if self.wf() && !zero_sized::<T>() {
                assert forall|i: int| 0 <= i < N implies ((#[trigger] copy.array@[i]) is Some
                    <==> copy.start <= i < copy.end) by {
                    assert(cloned(self.array@[i], copy.array@[i]));
                }
                assert forall|i: int| 0 <= i < self@.len() implies cloned(
                    self@[i],
                    #[trigger] copy@[i],
                ) by {
                    assert(cloned(self.array@[self.start + i], copy.array@[self.start + i]));
                }
            }
        }
        copy
    }
}

impl<T, const N: usize> Default for IntoIter<T, N> {
    fn default() -> (iter: Self)
        ensures
            iter.wf(),
            iter@ == Seq::<T>::empty(),
    {
        let iter = IntoIter { array: vacant_slots(), start: 0, end: 0, spill: std::vec::Vec::new() };
        assert(iter@ =~= Seq::<T>::empty());
        iter
    }
}

} // verus!
