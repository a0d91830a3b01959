use vstd::prelude::*;

verus! {

/// Exclusive ownership of a contiguous run of live elements.
///
/// The view of an owner is the sequence of its live elements, in order.
/// Every access goes through a bounds-checked accessor; positions at or
/// beyond the length are never exposed.
pub trait SliceOwner: View<V = Seq<<Self as SliceOwner>::Item>> {
    type Item;

    /// The representation invariant of the owner.
    spec fn wf(&self) -> bool;

    /// Number of live elements.
    fn len(&self) -> (n: usize)
        requires
            self.wf(),
        ensures
            n == self@.len(),
    ;

    /// Shared access to the live element at `index`.
    fn get(&self, index: usize) -> (item: &Self::Item)
        requires
            self.wf(),
            index < self@.len(),
        ensures
            *item == self@[index as int],
    ;

    /// Exclusive access to the live element at `index`. Whatever the caller
    /// leaves behind the reference becomes the element at that position; no
    /// other position changes.
    fn get_mut(&mut self, index: usize) -> (item: &mut Self::Item)
        requires
            old(self).wf(),
            index < old(self)@.len(),
        ensures
            *item == old(self)@[index as int],
            final(self).wf(),
            final(self)@ == old(self)@.update(index as int, *final(item)),
    ;

    /// Exclusive access to two live elements at once, the one at `first`
    /// and the one at `second` behind it.
    fn get_pair_mut(&mut self, first: usize, second: usize) -> (pair: (
        &mut Self::Item,
        &mut Self::Item,
    ))
        requires
            old(self).wf(),
            first < second < old(self)@.len(),
        ensures
            *pair.0 == old(self)@[first as int],
            *pair.1 == old(self)@[second as int],
            final(self).wf(),
            final(self)@ == old(self)@.update(first as int, *final(pair.0)).update(
                second as int,
                *final(pair.1),
            ),
    ;
}

/// Exclusive access to two elements of a slice at once.
pub(crate) fn pair_mut<T>(items: &mut [T], first: usize, second: usize) -> (pair: (&mut T, &mut T))
    requires
        first < second < old(items)@.len(),
    ensures
        *pair.0 == old(items)@[first as int],
        *pair.1 == old(items)@[second as int],
        final(items)@ == old(items)@.update(first as int, *final(pair.0)).update(
            second as int,
            *final(pair.1),
        ),
{
    let (lo, hi) = items.split_at_mut(second);
    (&mut lo[first], &mut hi[0])
}

impl<T, const N: usize> SliceOwner for [T; N] {
    type Item = T;

    open spec fn wf(&self) -> bool {
        true
    }

    fn len(&self) -> (n: usize) {
        N
    }

    fn get(&self, index: usize) -> (item: &T) {
        &self[index]
    }

    fn get_mut(&mut self, index: usize) -> (item: &mut T) {
        &mut self[index]
    }

    fn get_pair_mut(&mut self, first: usize, second: usize) -> (pair: (&mut T, &mut T)) {
        let items: &mut [T] = self;
        pair_mut(items, first, second)
    }
}

impl<T> SliceOwner for std::vec::Vec<T> {
    type Item = T;

    open spec fn wf(&self) -> bool {
        true
    }

    fn len(&self) -> (n: usize) {
        std::vec::Vec::len(self)
    }

    fn get(&self, index: usize) -> (item: &T) {
        &self[index]
    }

    fn get_mut(&mut self, index: usize) -> (item: &mut T) {
        &mut self[index]
    }

    fn get_pair_mut(&mut self, first: usize, second: usize) -> (pair: (&mut T, &mut T)) {
        pair_mut(self.as_mut_slice(), first, second)
    }
}

impl<T> SliceOwner for Box<[T]> {
    type Item = T;

    open spec fn wf(&self) -> bool {
        true
    }

    fn len(&self) -> (n: usize) {
        let items: &[T] = &**self;
        items.len()
    }

    fn get(&self, index: usize) -> (item: &T) {
        &self[index]
    }

    fn get_mut(&mut self, index: usize) -> (item: &mut T) {
        &mut self[index]
    }

    fn get_pair_mut(&mut self, first: usize, second: usize) -> (pair: (&mut T, &mut T)) {
        let items: &mut [T] = &mut **self;
        pair_mut(items, first, second)
    }
}

} // verus!
