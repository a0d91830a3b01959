//! Laws that relate the operations to one another, stated over the
//! sequences that their contracts speak of.
use crate::model::{deduped, drained, kept, no_adjacent_equal, runs, sorted_by, undrained};
use vstd::prelude::*;

verus! {

/// Inserting `value` at `index` and then removing at `index` gives back
/// `value` and the sequence as it was.
pub proof fn lemma_insert_remove_round_trip<T>(s: Seq<T>, index: int, value: T)
    requires
        0 <= index <= s.len(),
    ensures
        s.insert(index, value)[index] == value,
        s.insert(index, value).remove(index) == s,
{
    assert(s.insert(index, value).remove(index) =~= s);
}

/// Pushing `value` and then popping gives back `value` and the sequence as
/// it was.
pub proof fn lemma_push_pop_round_trip<T>(s: Seq<T>, value: T)
    ensures
        s.push(value).len() > 0,
        s.push(value).last() == value,
        s.push(value).drop_last() == s,
{
    assert(s.push(value).drop_last() =~= s);
}

/// What a drain leaves is the sequence without the drained range, and
/// putting the drained elements back at `start` restores the sequence:
/// split what is left at `start`, append the drained elements to the first
/// part, then append the second part.
pub proof fn lemma_drain_restore<T>(s: Seq<T>, start: int, end: int)
    requires
        0 <= start <= end <= s.len(),
    ensures
        undrained(s, start, end).len() == s.len() - (end - start),
        undrained(s, start, end).subrange(0, start) + drained(s, start, end) + undrained(
            s,
            start,
            end,
        ).subrange(start, undrained(s, start, end).len() as int) == s,
{
    let left = undrained(s, start, end);
    assert(left.subrange(0, start) + drained(s, start, end) + left.subrange(
        start,
        left.len() as int,
    ) =~= s);
}

/// Keeping by a predicate that holds of every element changes nothing.
pub proof fn lemma_retain_all<T>(s: Seq<T>, keep: spec_fn(T) -> bool)
    requires
        forall|i: int| 0 <= i < s.len() ==> keep(#[trigger] s[i]),
    ensures
        s.filter(keep) == s,
        kept(s, keep, |x: T| x) == s,
    decreases s.len(),
{
    reveal(Seq::filter);
    if s.len() > 0 {
        lemma_retain_all(s.drop_last(), keep);
        assert(s.drop_last().push(s.last()) =~= s);
    } else {
        assert(s.filter(keep) =~= s);
        assert(kept(s, keep, |x: T| x) =~= s);
    }
}

/// Keeping by a predicate that holds of no element empties the sequence.
pub proof fn lemma_retain_none<T>(s: Seq<T>, keep: spec_fn(T) -> bool, update: spec_fn(T) -> T)
    requires
        forall|i: int| 0 <= i < s.len() ==> !keep(#[trigger] s[i]),
    ensures
        s.filter(keep) == Seq::<T>::empty(),
        kept(s, keep, update) == Seq::<T>::empty(),
    decreases s.len(),
{
    reveal(Seq::filter);
    if s.len() > 0 {
        lemma_retain_none(s.drop_last(), keep, update);
    } else {
        assert(s.filter(keep) =~= Seq::<T>::empty());
    }
}

/// Keeping through shared references is keeping with an update that
/// changes nothing.
pub proof fn lemma_kept_is_filter<T>(s: Seq<T>, keep: spec_fn(T) -> bool, update: spec_fn(T) -> T)
    requires
        forall|i: int| 0 <= i < s.len() ==> update(#[trigger] s[i]) == s[i],
    ensures
        kept(s, keep, update) == s.filter(keep),
    decreases s.len(),
{
    reveal(Seq::filter);
    if s.len() > 0 {
        lemma_kept_is_filter(s.drop_last(), keep, update);
    } else {
        assert(s.filter(keep) =~= Seq::<T>::empty());
    }
}

/// Removing consecutive duplicates never empties a sequence that has an
/// element, and never makes it longer.
pub proof fn lemma_dedup_bounds<T>(
    s: Seq<T>,
    same: spec_fn(T, T) -> bool,
    on_next: spec_fn(T, T) -> T,
    on_prev: spec_fn(T, T) -> T,
)
    requires
        s.len() > 0,
    ensures
        0 < deduped(s, same, on_next, on_prev).len() <= s.len(),
    decreases s.len(),
{
    if s.len() > 1 {
        lemma_dedup_bounds(s.drop_last(), same, on_next, on_prev);
    }
}

/// Removing consecutive duplicates by equality, with a comparison that
/// leaves the elements as they are: what is left ends as the sequence ends,
/// holds no two equal neighbours, holds only elements of the sequence, and
/// has one element for each run of equal elements. Where the sequence was
/// sorted, what is left is sorted too.
pub proof fn lemma_dedup_by_equality<T>(
    s: Seq<T>,
    same: spec_fn(T, T) -> bool,
    on_next: spec_fn(T, T) -> T,
    on_prev: spec_fn(T, T) -> T,
    leq: spec_fn(T, T) -> bool,
)
    requires
        forall|x: T, p: T| #[trigger] same(x, p) == (x == p),
        forall|x: T, p: T| #[trigger] on_next(x, p) == x,
        forall|x: T, p: T| #[trigger] on_prev(x, p) == p,
    ensures
        s.len() > 0 ==> deduped(s, same, on_next, on_prev).len() > 0 && deduped(
            s,
            same,
            on_next,
            on_prev,
        ).last() == s.last(),
        no_adjacent_equal(deduped(s, same, on_next, on_prev)),
        deduped(s, same, on_next, on_prev).len() == runs(s),
        forall|k: int|
            0 <= k < deduped(s, same, on_next, on_prev).len() ==> s.contains(
                #[trigger] deduped(s, same, on_next, on_prev)[k],
            ),
        sorted_by(s, leq) ==> sorted_by(deduped(s, same, on_next, on_prev), leq),
    decreases s.len(),
{
    let d = deduped(s, same, on_next, on_prev);
    if s.len() <= 1 {
        assert forall|k: int| 0 <= k < d.len() implies s.contains(#[trigger] d[k]) by {
            assert(s[k] == d[k]);
        }
    } else {
        let front = s.drop_last();
        lemma_dedup_by_equality(front, same, on_next, on_prev, leq);
        let before = deduped(front, same, on_next, on_prev);
        let x = s.last();
        let p = before.last();
        assert(p == s[s.len() - 2]);
        assert(before.drop_last().push(on_prev(x, p)) =~= before);
        assert forall|k: int| 0 <= k < before.len() implies s.contains(#[trigger] before[k]) by {
            let i = choose|i: int| 0 <= i < front.len() && front[i] == before[k];
            assert(s[i] == before[k]);
        }
        if same(x, p) {
            assert(d == before);
        } else {
            assert(d == before.push(x));
            assert forall|k: int| 0 <= k < d.len() implies s.contains(#[trigger] d[k]) by {
                if k < before.len() {
                    assert(d[k] == before[k]);
                } else {
                    assert(s[s.len() - 1] == d[k]);
                }
            }
        }
        if sorted_by(s, leq) {
            assert(sorted_by(front, leq));
            assert forall|i: int, j: int| 0 <= i < j < d.len() implies leq(d[i], d[j]) by {
                if j < before.len() {
                    assert(leq(before[i], before[j]));
                } else {
                    let at = choose|at: int| 0 <= at < front.len() && front[at] == before[i];
                    assert(leq(s[at], s[s.len() - 1]));
                }
            }
        }
    }
}

} // verus!
