use no_std_collections::{IntoIter, StackVec};
use std::cell::Cell;
use std::rc::Rc;

fn filled<const N: usize>(items: &[i32]) -> StackVec<i32, N> {
    let mut v: StackVec<i32, N> = StackVec::new();
    for &item in items {
        v.push(item);
    }
    v
}

fn contents<T: Clone, const N: usize>(v: &StackVec<T, N>) -> Vec<T> {
    let mut out = Vec::new();
    for i in 0..v.len() {
        out.push(v.get(i).clone());
    }
    out
}

struct Counted {
    id: i32,
    drops: Rc<Cell<usize>>,
}

impl Drop for Counted {
    fn drop(&mut self) {
        self.drops.set(self.drops.get() + 1);
    }
}

fn counted<const N: usize>(ids: &[i32], drops: &Rc<Cell<usize>>) -> StackVec<Counted, N> {
    let mut v: StackVec<Counted, N> = StackVec::new();
    for &id in ids {
        v.push(Counted { id, drops: drops.clone() });
    }
    v
}

fn ids<const N: usize>(v: &StackVec<Counted, N>) -> Vec<i32> {
    let mut out = Vec::new();
    for i in 0..v.len() {
        out.push(v.get(i).id);
    }
    out
}

#[test]
fn new_is_empty() {
    let v: StackVec<i32, 4> = StackVec::new();
    assert_eq!(v.len(), 0);
    let d: StackVec<i32, 4> = StackVec::default();
    assert_eq!(d.len(), 0);
}

#[test]
fn capacity_is_static_bound() {
    assert_eq!(StackVec::<i32, 4>::capacity(), 4);
    assert_eq!(StackVec::<u8, 0>::capacity(), 0);
    assert_eq!(StackVec::<[u64; 3], 17>::capacity(), 17);
}

#[test]
fn capacity_of_zero_sized_elements_is_unbounded() {
    assert_eq!(StackVec::<(), 4>::capacity(), usize::MAX);
}

#[test]
fn zero_sized_elements_exceed_slot_count() {
    let mut v: StackVec<(), 2> = StackVec::new();
    for _ in 0..10 {
        v.push(());
    }
    assert_eq!(v.len(), 10);
    v.insert(3, ());
    assert_eq!(v.len(), 11);
    assert_eq!(v.remove(0), ());
    assert_eq!(v.swap_remove(4), ());
    assert_eq!(v.len(), 9);
    let tail = v.split_off(4);
    assert_eq!(v.len(), 4);
    assert_eq!(tail.len(), 5);
    v.append(tail);
    assert_eq!(v.len(), 9);
    let mut it = v.into_iter();
    assert_eq!(it.len(), 9);
    assert_eq!(it.next(), Some(()));
    assert_eq!(it.next_back(), Some(()));
    assert_eq!(it.len(), 7);
}

#[test]
fn zero_sized_array_moves_into_sequence() {
    let v: StackVec<(), 3> = StackVec::from_array([(), (), ()]);
    assert_eq!(v.len(), 3);
}

#[test]
fn insert_into_fixed_backing_fills_capacity() {
    let mut v: StackVec<i32, 4> = filled(&[1, 2, 3]);
    v.insert(1, 9);
    assert_eq!(contents(&v), vec![1, 9, 2, 3]);
    assert_eq!(v.len(), 4);
    // The sequence is at its static capacity: a further push is outside
    // what the backing accepts.
    assert_eq!(v.len(), StackVec::<i32, 4>::capacity());
}

#[test]
fn split_off_two_of_five() {
    let mut v: StackVec<i32, 8> = filled(&[1, 2, 3, 4, 5]);
    let tail = v.split_off(2);
    assert_eq!(contents(&v), vec![1, 2]);
    assert_eq!(contents(&tail), vec![3, 4, 5]);
}

#[test]
fn split_off_at_ends() {
    let mut v: StackVec<i32, 4> = filled(&[1, 2, 3]);
    let none = v.split_off(3);
    assert_eq!(none.len(), 0);
    assert_eq!(contents(&v), vec![1, 2, 3]);
    let all = v.split_off_unchecked(0);
    assert_eq!(v.len(), 0);
    assert_eq!(contents(&all), vec![1, 2, 3]);
}

#[test]
fn abandoned_drain_restores_tail() {
    let drops = Rc::new(Cell::new(0));
    let mut v: StackVec<Counted, 8> = counted(&[1, 2, 3, 4, 5], &drops);
    let mut drain = v.drain(1..3);
    let first = drain.next().unwrap();
    assert_eq!(first.id, 2);
    assert_eq!(drops.get(), 0);
    drain.finalize();
    // The element 3 was never handed out: it is dropped, once.
    assert_eq!(drops.get(), 1);
    assert_eq!(ids(&v), vec![1, 4, 5]);
    drop(first);
    assert_eq!(drops.get(), 2);
    drop(v);
    assert_eq!(drops.get(), 5);
}

#[test]
fn drain_hands_out_range_from_both_ends() {
    let mut v: StackVec<i32, 8> = filled(&[10, 11, 12, 13, 14, 15]);
    let mut drain = v.drain(1..5);
    assert_eq!(drain.len(), 4);
    assert_eq!(drain.next(), Some(11));
    assert_eq!(drain.next_back(), Some(14));
    assert_eq!(drain.next_back(), Some(13));
    assert_eq!(drain.next(), Some(12));
    assert_eq!(drain.next(), None);
    assert_eq!(drain.next_back(), None);
    assert_eq!(drain.len(), 0);
    drain.finalize();
    assert_eq!(contents(&v), vec![10, 15]);
}

#[test]
fn drain_of_empty_range_changes_nothing() {
    let mut v: StackVec<i32, 4> = filled(&[1, 2, 3]);
    let mut drain = v.drain(2..2);
    assert_eq!(drain.next(), None);
    drain.finalize();
    assert_eq!(contents(&v), vec![1, 2, 3]);
}

#[test]
fn drain_of_everything_empties() {
    let mut v: StackVec<i32, 4> = filled(&[1, 2, 3]);
    let mut drain = v.drain(0..3);
    assert_eq!(drain.next(), Some(1));
    assert_eq!(drain.next(), Some(2));
    assert_eq!(drain.next(), Some(3));
    drain.finalize();
    assert_eq!(v.len(), 0);
}

#[test]
fn drained_elements_put_back_restore_sequence() {
    let original = [1, 2, 3, 4, 5, 6];
    for start in 0..=original.len() {
        for end in start..=original.len() {
            let mut v: StackVec<i32, 8> = filled(&original);
            let mut taken: StackVec<i32, 8> = StackVec::new();
            let mut drain = v.drain(start..end);
            while let Some(item) = drain.next() {
                taken.push(item);
            }
            drain.finalize();
            assert_eq!(v.len(), original.len() - (end - start));
            let tail = v.split_off(start);
            v.append(taken);
            v.append(tail);
            assert_eq!(contents(&v), original.to_vec());
        }
    }
}

#[test]
fn insert_then_remove_round_trip() {
    let original = [4, 8, 15, 16];
    for index in 0..=original.len() {
        let mut v: StackVec<i32, 5> = filled(&original);
        v.insert(index, 99);
        assert_eq!(*v.get(index), 99);
        assert_eq!(v.len(), 5);
        assert_eq!(v.remove(index), 99);
        assert_eq!(contents(&v), original.to_vec());
    }
}

#[test]
fn insert_at_length_is_push() {
    let mut v: StackVec<i32, 4> = filled(&[1, 2]);
    v.insert(2, 3);
    assert_eq!(contents(&v), vec![1, 2, 3]);
    v.insert_unchecked(0, 0);
    assert_eq!(contents(&v), vec![0, 1, 2, 3]);
}

#[test]
fn push_then_pop_round_trip() {
    let mut v: StackVec<i32, 4> = filled(&[1, 2, 3]);
    v.push(7);
    assert_eq!(v.len(), 4);
    assert_eq!(v.pop(), Some(7));
    assert_eq!(contents(&v), vec![1, 2, 3]);
    v.push_unchecked(8);
    assert_eq!(v.pop_unchecked(), 8);
    assert_eq!(contents(&v), vec![1, 2, 3]);
}

#[test]
fn pop_on_empty_is_none() {
    let mut v: StackVec<i32, 4> = StackVec::new();
    assert_eq!(v.pop(), None);
    assert_eq!(v.len(), 0);
}

#[test]
fn remove_shifts_suffix_left() {
    let mut v: StackVec<i32, 8> = filled(&[1, 2, 3, 4, 5]);
    assert_eq!(v.remove(1), 2);
    assert_eq!(contents(&v), vec![1, 3, 4, 5]);
    assert_eq!(v.remove_unchecked(3), 5);
    assert_eq!(contents(&v), vec![1, 3, 4]);
    assert_eq!(v.remove(0), 1);
    assert_eq!(contents(&v), vec![3, 4]);
}

#[test]
fn swap_remove_moves_last_into_place() {
    let mut v: StackVec<i32, 8> = filled(&[1, 2, 3, 4, 5]);
    assert_eq!(v.swap_remove(1), 2);
    assert_eq!(contents(&v), vec![1, 5, 3, 4]);
    assert_eq!(v.swap_remove_unchecked(3), 4);
    assert_eq!(contents(&v), vec![1, 5, 3]);
}

#[test]
fn truncate_drops_suffix() {
    let drops = Rc::new(Cell::new(0));
    let mut v: StackVec<Counted, 8> = counted(&[1, 2, 3, 4, 5], &drops);
    v.truncate(7);
    assert_eq!(ids(&v), vec![1, 2, 3, 4, 5]);
    assert_eq!(drops.get(), 0);
    v.truncate(5);
    assert_eq!(v.len(), 5);
    v.truncate(2);
    assert_eq!(ids(&v), vec![1, 2]);
    assert_eq!(drops.get(), 3);
    v.truncate_unchecked(1);
    assert_eq!(ids(&v), vec![1]);
    assert_eq!(drops.get(), 4);
}

#[test]
fn clear_drops_everything() {
    let drops = Rc::new(Cell::new(0));
    let mut v: StackVec<Counted, 4> = counted(&[1, 2, 3], &drops);
    v.clear();
    assert_eq!(v.len(), 0);
    assert_eq!(drops.get(), 3);
    drop(v);
    assert_eq!(drops.get(), 3);
}

#[test]
fn retain_true_keeps_everything() {
    let drops = Rc::new(Cell::new(0));
    let mut v: StackVec<Counted, 8> = counted(&[1, 2, 3, 4], &drops);
    v.retain(|_| true);
    assert_eq!(ids(&v), vec![1, 2, 3, 4]);
    assert_eq!(drops.get(), 0);
}

#[test]
fn retain_false_drops_each_element_once() {
    let drops = Rc::new(Cell::new(0));
    let mut v: StackVec<Counted, 8> = counted(&[1, 2, 3, 4], &drops);
    v.retain(|_| false);
    assert_eq!(v.len(), 0);
    assert_eq!(drops.get(), 4);
    drop(v);
    assert_eq!(drops.get(), 4);
}

#[test]
fn retain_keeps_matching_in_order() {
    let mut v: StackVec<i32, 8> = filled(&[1, 2, 3, 4, 5, 6]);
    let mut seen = Vec::new();
    v.retain(|x| {
        seen.push(*x);
        *x % 2 == 0
    });
    assert_eq!(contents(&v), vec![2, 4, 6]);
    assert_eq!(seen, vec![1, 2, 3, 4, 5, 6]);
}

#[test]
fn retain_mut_keeps_updated_elements() {
    let mut v: StackVec<i32, 8> = filled(&[1, 2, 3, 4, 5]);
    v.retain_mut(|x| {
        let keep = *x % 2 == 1;
        *x *= 10;
        keep
    });
    assert_eq!(contents(&v), vec![10, 30, 50]);
}

#[test]
fn dedup_by_equality_on_sorted() {
    let mut v: StackVec<i32, 16> = filled(&[1, 1, 2, 3, 3, 3, 4, 5, 5]);
    v.dedup_by(|a, b| a == b);
    assert_eq!(contents(&v), vec![1, 2, 3, 4, 5]);
    assert_eq!(v.len(), 5);
}

#[test]
fn dedup_by_keeps_separated_repeats() {
    let mut v: StackVec<i32, 8> = filled(&[1, 1, 2, 1, 1]);
    v.dedup_by(|a, b| a == b);
    assert_eq!(contents(&v), vec![1, 2, 1]);
}

#[test]
fn dedup_by_on_short_sequences() {
    let mut empty: StackVec<i32, 4> = StackVec::new();
    empty.dedup_by(|a, b| a == b);
    assert_eq!(empty.len(), 0);
    let mut one: StackVec<i32, 4> = filled(&[7]);
    one.dedup_by(|a, b| a == b);
    assert_eq!(contents(&one), vec![7]);
    let mut all: StackVec<i32, 4> = filled(&[7, 7, 7, 7]);
    all.dedup_by(|a, b| a == b);
    assert_eq!(contents(&all), vec![7]);
}

#[test]
fn dedup_by_compares_with_last_kept_and_may_update_it() {
    // Each dropped element is added onto the one that stays.
    let mut v: StackVec<(i32, i32), 8> = StackVec::new();
    for pair in [(1, 1), (1, 2), (2, 5), (2, 7), (2, 1), (3, 4)] {
        v.push(pair);
    }
    v.dedup_by(|next, kept| {
        if next.0 == kept.0 {
            kept.1 += next.1;
            true
        } else {
            false
        }
    });
    assert_eq!(contents(&v), vec![(1, 3), (2, 13), (3, 4)]);
}

#[test]
fn dedup_by_drops_duplicates_once() {
    let drops = Rc::new(Cell::new(0));
    let mut v: StackVec<Counted, 8> = counted(&[1, 1, 2, 2, 2, 3], &drops);
    v.dedup_by(|a, b| a.id == b.id);
    assert_eq!(ids(&v), vec![1, 2, 3]);
    assert_eq!(drops.get(), 3);
    drop(v);
    assert_eq!(drops.get(), 6);
}

#[test]
fn dedup_by_key_uses_key_equality() {
    let mut v: StackVec<i32, 8> = filled(&[10, 11, 20, 21, 22, 30, 12]);
    v.dedup_by_key(|x| *x / 10);
    assert_eq!(contents(&v), vec![10, 20, 30, 12]);
}

#[test]
fn resize_grows_with_clones_and_shrinks() {
    let mut v: StackVec<String, 6> = StackVec::new();
    v.push("a".to_string());
    v.resize(4, "z".to_string());
    assert_eq!(contents(&v), vec!["a", "z", "z", "z"]);
    v.resize(4, "q".to_string());
    assert_eq!(contents(&v), vec!["a", "z", "z", "z"]);
    v.resize(2, "q".to_string());
    assert_eq!(contents(&v), vec!["a", "z"]);
    v.resize(0, "q".to_string());
    assert_eq!(v.len(), 0);
}

#[test]
fn resize_consumes_value_for_last_slot() {
    struct CountsClones(Rc<Cell<usize>>);
    impl Clone for CountsClones {
        fn clone(&self) -> Self {
            self.0.set(self.0.get() + 1);
            CountsClones(self.0.clone())
        }
    }
    let clones = Rc::new(Cell::new(0));
    let mut v: StackVec<CountsClones, 8> = StackVec::new();
    v.resize(5, CountsClones(clones.clone()));
    assert_eq!(v.len(), 5);
    assert_eq!(clones.get(), 4);
}

#[test]
fn resize_with_calls_in_order() {
    let mut v: StackVec<i32, 8> = filled(&[1, 2]);
    let mut next = 10;
    v.resize_with(5, || {
        next += 1;
        next
    });
    assert_eq!(contents(&v), vec![1, 2, 11, 12, 13]);
    v.resize_with(1, || 0);
    assert_eq!(contents(&v), vec![1]);
}

#[test]
fn extend_from_slice_appends_clones() {
    let mut v: StackVec<i32, 8> = filled(&[1, 2]);
    v.extend_from_slice(&[3, 4, 5]);
    assert_eq!(contents(&v), vec![1, 2, 3, 4, 5]);
    v.extend_from_slice(&[]);
    assert_eq!(contents(&v), vec![1, 2, 3, 4, 5]);
    v.extend_from_slice_unchecked(&[6]);
    assert_eq!(contents(&v), vec![1, 2, 3, 4, 5, 6]);
}

#[test]
fn extend_from_within_appends_subrange() {
    let mut v: StackVec<i32, 8> = filled(&[1, 2, 3, 4]);
    v.extend_from_within(1..3);
    assert_eq!(contents(&v), vec![1, 2, 3, 4, 2, 3]);
    v.extend_from_within(2..2);
    assert_eq!(contents(&v), vec![1, 2, 3, 4, 2, 3]);
}

#[test]
fn append_relocates_in_order() {
    let drops = Rc::new(Cell::new(0));
    let mut a: StackVec<Counted, 8> = counted(&[1, 2], &drops);
    let b: StackVec<Counted, 4> = counted(&[3, 4, 5], &drops);
    a.append(b);
    assert_eq!(ids(&a), vec![1, 2, 3, 4, 5]);
    assert_eq!(drops.get(), 0);
    let c: Vec<Counted> = vec![Counted { id: 6, drops: drops.clone() }];
    a.append_unchecked(c);
    assert_eq!(ids(&a), vec![1, 2, 3, 4, 5, 6]);
    assert_eq!(drops.get(), 0);
    drop(a);
    assert_eq!(drops.get(), 6);
}

#[test]
fn from_array_holds_all_elements() {
    let v: StackVec<i32, 3> = StackVec::from_array([7, 8, 9]);
    assert_eq!(contents(&v), vec![7, 8, 9]);
    assert_eq!(v.len(), 3);
}

#[test]
fn from_slice_clones_shorter_source() {
    let v: StackVec<String, 4> = StackVec::from_slice(&["x".to_string(), "y".to_string()]);
    assert_eq!(contents(&v), vec!["x", "y"]);
}

#[test]
fn from_vec_and_boxed_slice_relocate() {
    let v: StackVec<i32, 4> = StackVec::from_vec(vec![1, 2, 3]);
    assert_eq!(contents(&v), vec![1, 2, 3]);
    let b: StackVec<i32, 4> = StackVec::from_boxed_slice(vec![4, 5].into_boxed_slice());
    assert_eq!(contents(&b), vec![4, 5]);
}

#[test]
fn from_str_holds_bytes() {
    let v: StackVec<u8, 8> = StackVec::from_str("héllo");
    assert_eq!(contents(&v), "héllo".as_bytes().to_vec());
    assert_eq!(v.len(), 6);
}

#[test]
fn get_mut_updates_in_place() {
    let mut v: StackVec<i32, 4> = filled(&[1, 2, 3]);
    *v.get_mut(1) = 20;
    assert_eq!(contents(&v), vec![1, 20, 3]);
}

#[test]
fn clone_copies_elements() {
    let v: StackVec<String, 4> = StackVec::from_slice(&["a".to_string(), "b".to_string()]);
    let mut w = v.clone();
    w.push("c".to_string());
    assert_eq!(contents(&v), vec!["a", "b"]);
    assert_eq!(contents(&w), vec!["a", "b", "c"]);
}

#[test]
fn into_iter_hands_out_from_both_ends() {
    let v: StackVec<i32, 8> = filled(&[1, 2, 3, 4, 5]);
    let mut it = IntoIter::new(v);
    assert_eq!(it.len(), 5);
    assert_eq!(it.next(), Some(1));
    assert_eq!(it.next_back(), Some(5));
    assert_eq!(it.next_back(), Some(4));
    assert_eq!(it.next(), Some(2));
    assert_eq!(it.len(), 1);
    assert_eq!(it.next(), Some(3));
    assert_eq!(it.next(), None);
    assert_eq!(it.next_back(), None);
    assert_eq!(it.len(), 0);
}

#[test]
fn into_iter_drops_rest_once() {
    let drops = Rc::new(Cell::new(0));
    let v: StackVec<Counted, 8> = counted(&[1, 2, 3, 4], &drops);
    let mut it = v.into_iter();
    let first = it.next().unwrap();
    assert_eq!(first.id, 1);
    drop(it);
    assert_eq!(drops.get(), 3);
    drop(first);
    assert_eq!(drops.get(), 4);
}

#[test]
fn into_iter_clone_and_default() {
    let v: StackVec<i32, 4> = filled(&[1, 2, 3]);
    let mut it = v.into_iter();
    assert_eq!(it.next(), Some(1));
    let mut copy = it.clone();
    assert_eq!(copy.next(), Some(2));
    assert_eq!(copy.next(), Some(3));
    assert_eq!(copy.next(), None);
    assert_eq!(it.len(), 2);
    let mut none: IntoIter<i32, 4> = IntoIter::default();
    assert_eq!(none.len(), 0);
    assert_eq!(none.next(), None);
}

#[test]
fn spare_slots_written_then_claimed() {
    let mut v: StackVec<i32, 5> = filled(&[1, 2]);
    {
        let spare = v.spare_capacity_mut();
        assert_eq!(spare.len(), 3);
        assert!(spare.iter().all(|slot| slot.is_none()));
        spare[0] = Some(7);
        spare[1] = Some(8);
    }
    v.set_len(4);
    assert_eq!(contents(&v), vec![1, 2, 7, 8]);
    assert_eq!(v.spare_capacity_mut().len(), 1);
    v.push(9);
    assert_eq!(v.spare_capacity_mut().len(), 0);
    assert_eq!(contents(&v), vec![1, 2, 7, 8, 9]);
}

#[test]
fn zero_sized_elements_have_no_spare_slots() {
    let mut v: StackVec<(), 3> = StackVec::new();
    v.push(());
    assert_eq!(v.spare_capacity_mut().len(), 0);
    v.set_len(1);
    assert_eq!(v.len(), 1);
}
