use crate::traits::slice_owner::SliceOwner;
use crate::traits::vec::{reverse_from, Vec, VecUnsized};
use vstd::prelude::*;

verus! {

/// A removal of a range of elements that is under way.
///
/// While the drain lives, the owner holds only the elements before the
/// range. The drain hands out the elements of the range one at a time, from
/// either end, and keeps the tail behind the range until [`Drain::finalize`]
/// puts it back behind what the owner then holds.
pub struct Drain<'a, V: Vec> {
    /// The owner being drained.
    pub vec: &'a mut V,
    /// The elements of the range not handed out yet, the first of them last.
    pub iter: V,
    /// The elements behind the range, to be restored.
    pub tail: V,
}

impl<'a, V: Vec> Drain<'a, V> {
    /// The three parts are well-formed and the tail fits behind the owner.
    pub open spec fn wf(&self) -> bool {
        &&& self.vec.wf()
        &&& self.iter.wf()
        &&& self.tail.wf()
        &&& self.vec@.len() + self.tail@.len() <= V::spec_capacity()
    }

    /// The elements not handed out yet, in the order of the sequence.
    pub open spec fn remaining(&self) -> Seq<V::Item> {
        self.iter@.reverse()
    }

    /// Number of elements not handed out yet.
    pub fn len(&self) -> (n: usize)
        requires
            self.wf(),
        ensures
            n == self.remaining().len(),
    {
        self.iter.len()
    }

    /// Hands out the first element not handed out yet.
    pub fn next(&mut self) -> (item: Option<V::Item>)
        requires
            old(self).wf(),
        ensures
            final(self).wf(),
            *final(self).vec == *old(self).vec,
            *final(final(self).vec) == *final(old(self).vec),
            final(self).tail == old(self).tail,
            old(self).remaining().len() == 0 ==> item is None && final(self).remaining() == old(
                self,
            ).remaining(),
            old(self).remaining().len() > 0 ==> item == Some(old(self).remaining().first())
                && final(self).remaining() == old(self).remaining().drop_first(),
    {
        if self.iter.len() > 0 {
            let item = self.iter.pop_unchecked();
            assert(self.remaining() =~= old(self).remaining().drop_first());
            Some(item)
        } else {
            None
        }
    }

    /// Hands out the last element not handed out yet.
    pub fn next_back(&mut self) -> (item: Option<V::Item>)
        requires
            old(self).wf(),
        ensures
            final(self).wf(),
            *final(self).vec == *old(self).vec,
            *final(final(self).vec) == *final(old(self).vec),
            final(self).tail == old(self).tail,
            old(self).remaining().len() == 0 ==> item is None && final(self).remaining() == old(
                self,
            ).remaining(),
            old(self).remaining().len() > 0 ==> item == Some(old(self).remaining().last())
                && final(self).remaining() == old(self).remaining().drop_last(),
    {
        if self.iter.len() > 0 {
            let item = self.iter.remove_unchecked(0);
            assert(self.remaining() =~= old(self).remaining().drop_last());
            Some(item)
        } else {
            None
        }
    }

    /// Ends the drain: drops the elements that were not handed out, then
    /// moves the tail behind what the owner holds and extends the owner's
    /// length over it.
    pub fn finalize(self)
        requires
            self.wf(),
        ensures
            final(self.vec).wf(),
            final(self.vec)@ == old(self.vec)@ + self.tail@,
    {
        let Drain { vec, iter, tail } = self;
        let mut unyielded = iter;
        unyielded.clear();
        if tail.len() > 0 {
            vec.append_unchecked(tail);
        } else {
            assert(vec@ + tail@ =~= vec@);
        }
    }
}

} // verus!
