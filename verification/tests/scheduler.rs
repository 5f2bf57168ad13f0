use kurv::scheduler::{GrainArena, INTERNAL_GRAIN_CAPACITY, MAX_BLOCK_SPAWNS};

#[test]
fn expiry_finds_overdue_grains_when_time_skips_wheel_buckets() {
    let mut arena = GrainArena::<2, 4>::default();
    let handle = arena.admit_grain(42, 5).expect("grain");
    assert_eq!(arena.expire_one(8), Some((handle, 42)));
}

#[test]
fn arena_admission_and_release_reuse_free_slots_without_stealing() {
    let mut arena = GrainArena::<2, 8>::default();
    let first = arena.admit_grain(10, 20).expect("first slot");
    let second = arena.admit_grain(20, 30).expect("second slot");
    assert!(arena.admit_grain(30, 40).is_none());
    assert_eq!(arena.value(first), Some(10));
    assert_eq!(arena.release(first), Some(10));
    let reused = arena.admit_grain(30, 40).expect("released slot");
    assert_eq!(reused.index(), first.index());
    assert_ne!(reused, first);
    assert_eq!(arena.value(first), None);
    assert_eq!(arena.value(second), Some(20));
}

#[test]
fn expiry_is_deadline_ordered_and_ignores_future_wheel_collisions() {
    let mut arena = GrainArena::<4, 4>::default();
    let late = arena.admit_grain(20, 9).expect("late");
    let early = arena.admit_grain(10, 5).expect("early");
    assert_eq!(arena.expire_one(4), None);
    assert_eq!(arena.expire_one(5), Some((early, 10)));
    assert_eq!(arena.expire_one(8), None);
    assert_eq!(arena.expire_one(9), Some((late, 20)));
    assert_eq!(arena.active_count(), 0);
}

#[test]
fn fresh_arena_hands_out_slots_in_index_order() {
    let mut arena = GrainArena::<3, 2>::new();
    assert_eq!(arena.capacity(), 3);
    assert_eq!(arena.active_count(), 0);
    let a = arena.admit_grain(1, 0).expect("a");
    let b = arena.admit_grain(2, 0).expect("b");
    let c = arena.admit_grain(3, 0).expect("c");
    assert_eq!((a.index(), b.index(), c.index()), (0, 1, 2));
    assert_eq!(arena.active_count(), 3);
    assert!(arena.admit_grain(4, 0).is_none());
}

#[test]
fn released_slot_is_reused_first() {
    let mut arena = GrainArena::<3, 2>::new();
    let a = arena.admit_grain(1, 0).expect("a");
    let b = arena.admit_grain(2, 1).expect("b");
    assert_eq!(arena.release(b), Some(2));
    assert_eq!(arena.release(b), None);
    let again = arena.admit_grain(5, 1).expect("again");
    assert_eq!(again.index(), b.index());
    assert_eq!(arena.value(a), Some(1));
    assert_eq!(arena.value(again), Some(5));
    assert_eq!(arena.value(b), None);
}

#[test]
fn arena_without_buckets_admits_nothing() {
    let mut arena = GrainArena::<2, 0>::new();
    assert!(arena.admit_grain(1, 1).is_none());
    assert_eq!(arena.expire_one(u64::MAX), None);
    assert_eq!(arena.active_count(), 0);
}

#[test]
fn zero_capacity_arena_admits_nothing() {
    let mut arena = GrainArena::<0, 4>::default();
    assert_eq!(arena.capacity(), 0);
    assert!(arena.admit_grain(1, 1).is_none());
}

#[test]
fn expiry_scans_buckets_in_order_and_heads_first() {
    let mut arena = GrainArena::<4, 2>::new();
    // Deadlines 3 and 1 fall into bucket 1, deadline 2 into bucket 0.
    let odd_old = arena.admit_grain(30, 3).expect("odd old");
    let even = arena.admit_grain(20, 2).expect("even");
    let odd_new = arena.admit_grain(10, 1).expect("odd new");
    assert_eq!(arena.expire_one(10), Some((even, 20)));
    assert_eq!(arena.expire_one(10), Some((odd_new, 10)));
    assert_eq!(arena.expire_one(10), Some((odd_old, 30)));
    assert_eq!(arena.expire_one(10), None);
}

#[test]
fn middle_of_a_bucket_list_can_be_released() {
    let mut arena = GrainArena::<4, 1>::new();
    let a = arena.admit_grain(1, 7).expect("a");
    let b = arena.admit_grain(2, 7).expect("b");
    let c = arena.admit_grain(3, 7).expect("c");
    assert_eq!(arena.release(b), Some(2));
    assert_eq!(arena.expire_one(7), Some((c, 3)));
    assert_eq!(arena.expire_one(7), Some((a, 1)));
    assert_eq!(arena.expire_one(7), None);
}

#[test]
fn generations_change_on_every_reuse() {
    let mut arena = GrainArena::<1, 1>::new();
    let mut previous = arena.admit_grain(0, 0).expect("first");
    for round in 1..5u32 {
        assert_eq!(arena.release(previous), Some(round - 1));
        let next = arena.admit_grain(round, 0).expect("reuse");
        assert_eq!(next.index(), 0);
        assert_ne!(next, previous);
        previous = next;
    }
}

#[test]
fn scheduler_capacities() {
    assert_eq!(INTERNAL_GRAIN_CAPACITY, 64);
    assert_eq!(MAX_BLOCK_SPAWNS, 256);
    let arena = GrainArena::<INTERNAL_GRAIN_CAPACITY, 8>::default();
    assert_eq!(arena.capacity(), 64);
}
