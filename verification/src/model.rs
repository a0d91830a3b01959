//! Sequence-level models of the composite operations.
use vstd::prelude::*;
use vstd::std_specs::cmp::PartialEqSpec;

verus! {

/// What is left of `s` after every element has been visited once, in order:
/// an element `x` stays, as `update(x)`, exactly when `keep(x)`.
pub open spec fn kept<T>(s: Seq<T>, keep: spec_fn(T) -> bool, update: spec_fn(T) -> T) -> Seq<T>
    decreases s.len(),
{
    if s.len() == 0 {
        Seq::empty()
    } else {
        let rest = kept(s.drop_last(), keep, update);
        if keep(s.last()) {
            rest.push(update(s.last()))
        } else {
            rest
        }
    }
}

/// What is left of `s` after removing consecutive duplicates.
///
/// Each element `x` after the first is compared with `p`, the last element
/// kept so far. The comparison may change both: `p` becomes `on_prev(x, p)`
/// and `x` becomes `on_next(x, p)`. When `same(x, p)` the element is
/// dropped, otherwise it is kept behind `p`.
pub open spec fn deduped<T>(
    s: Seq<T>,
    same: spec_fn(T, T) -> bool,
    on_next: spec_fn(T, T) -> T,
    on_prev: spec_fn(T, T) -> T,
) -> Seq<T>
    decreases s.len(),
{
    if s.len() <= 1 {
        s
    } else {
        let before = deduped(s.drop_last(), same, on_next, on_prev);
        let x = s.last();
        let p = before.last();
        let settled = before.drop_last().push(on_prev(x, p));
        if same(x, p) {
            settled
        } else {
            settled.push(on_next(x, p))
        }
    }
}

/// Removal of consecutive elements whose keys are equal. The key of an
/// element `x` is `key_of(x)`; taking the key leaves `update(x)` in its
/// place.
pub open spec fn deduped_by_key<T, K: PartialEq>(
    s: Seq<T>,
    key_of: spec_fn(T) -> K,
    update: spec_fn(T) -> T,
) -> Seq<T> {
    deduped(
        s,
        |x: T, p: T| key_of(x).eq_spec(&key_of(p)),
        |x: T, p: T| update(x),
        |x: T, p: T| update(p),
    )
}

/// The elements that a drain of `start..end` takes out of `s`.
pub open spec fn drained<T>(s: Seq<T>, start: int, end: int) -> Seq<T> {
    s.subrange(start, end)
}

/// What a drain of `start..end` leaves of `s`: the prefix before `start`
/// followed by the tail from `end` on.
pub open spec fn undrained<T>(s: Seq<T>, start: int, end: int) -> Seq<T> {
    s.subrange(0, start) + s.subrange(end, s.len() as int)
}

/// The number of maximal runs of equal consecutive elements in `s`.
pub open spec fn runs<T>(s: Seq<T>) -> nat
    decreases s.len(),
{
    if s.len() == 0 {
        0
    } else if s.len() == 1 {
        1
    } else if s[s.len() - 1] == s[s.len() - 2] {
        runs(s.drop_last())
    } else {
        runs(s.drop_last()) + 1
    }
}

/// Every element of `s` is related by `leq` to every element behind it.
pub open spec fn sorted_by<T>(s: Seq<T>, leq: spec_fn(T, T) -> bool) -> bool {
    forall|i: int, j: int| 0 <= i < j < s.len() ==> leq(s[i], s[j])
}

/// No two neighbours in `s` are equal.
pub open spec fn no_adjacent_equal<T>(s: Seq<T>) -> bool {
    forall|i: int| 0 <= i < s.len() - 1 ==> s[i] != #[trigger] s[i + 1]
}

/// The predicate `f`, called on a shared reference, answers as `keep` says.
pub open spec fn answers<T, F: FnMut(&T) -> bool>(f: F, keep: spec_fn(T) -> bool) -> bool {
    forall|x: T, b: bool| #[trigger] call_ensures(f, (&x,), b) ==> b == keep(x)
}

} // verus!
