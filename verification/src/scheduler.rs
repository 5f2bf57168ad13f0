//! Fixed-capacity grain admission with expiry buckets.
//!
//! The arena is deterministic control-plane logic: admission pops a free list,
//! release pushes it back, and each admitted grain is threaded onto the
//! doubly-linked list of the bucket that its deadline falls into. Neither
//! admission nor release scans the active set.
use vstd::prelude::*;

verus! {

/// Grain capacity used by the renderer's internal arena.
pub const INTERNAL_GRAIN_CAPACITY: usize = 64;

/// Largest number of grain onsets one block can report.
pub const MAX_BLOCK_SPAWNS: usize = 256;

/// Link value that marks the end of a list.
pub const EMPTY: u16 = 65535u16;

/// A generation-tagged reference to one arena slot.
#[derive(Clone, Copy, Debug, PartialEq, Eq, Structural)]
pub struct GrainHandle {
    index: u16,
    generation: u32,
}

impl View for GrainHandle {
    /// The slot index and the generation the handle was issued for.
    type V = (int, u32);

    closed spec fn view(&self) -> (int, u32) {
        (self.index as int, self.generation)
    }
}

impl GrainHandle {
    /// Handles with the same slot and generation are the same handle.
    pub proof fn lemma_view_determines(a: GrainHandle, b: GrainHandle)
        requires
            a@ == b@,
        ensures
            a == b,
    {
    }

    /// Slot index of the handle.
    #[must_use]
    pub fn index(self) -> (r: usize)
        ensures
            r == self@.0,
    {
        self.index as usize
    }
}

#[derive(Clone, Copy, Debug)]
struct Slot {
    value: u32,
    active: bool,
    generation: u32,
    deadline: u64,
    free_next: u16,
    bucket_prev: u16,
    bucket_next: u16,
    bucket: u16,
}

/// What callers can observe of one slot.
pub struct SlotState {
    pub active: bool,
    pub generation: u32,
    pub value: u32,
    pub deadline: u64,
}

/// The observable state of an arena: every slot, the free list in pop order,
/// and for each bucket its expiry list in scan order.
pub struct ArenaView {
    pub slots: Seq<SlotState>,
    pub free: Seq<int>,
    pub buckets: Seq<Seq<int>>,
}

/// The link stored for position `k` of a list: the slot index there, or
/// `EMPTY` past either end.
pub open spec fn link_at(s: Seq<int>, k: int) -> u16 {
    if 0 <= k < s.len() {
        s[k] as u16
    } else {
        EMPTY
    }
}

/// Generation given to a slot when it is admitted again.
pub open spec fn next_generation(g: u32) -> u32 {
    if g == u32::MAX {
        1
    } else {
        (g + 1) as u32
    }
}

/// Expiry bucket of a deadline.
pub open spec fn deadline_bucket(deadline: u64, buckets: usize) -> int {
    ((deadline as usize) % buckets) as int
}

/// Whether a handle designates a live grain.
pub open spec fn handle_is_live(v: ArenaView, h: (int, u32)) -> bool {
    &&& 0 <= h.0 < v.slots.len()
    &&& v.slots[h.0].active
    &&& v.slots[h.0].generation == h.1
}

/// The state after admitting `value` into the slot at the head of the free list.
pub open spec fn admitted(v: ArenaView, value: u32, deadline: u64, buckets: usize) -> ArenaView {
    let i = v.free[0];
    let b = deadline_bucket(deadline, buckets);
    ArenaView {
        slots: v.slots.update(
            i,
            SlotState {
                active: true,
                generation: next_generation(v.slots[i].generation),
                value,
                deadline,
            },
        ),
        free: v.free.drop_first(),
        buckets: v.buckets.update(b, seq![i] + v.buckets[b]),
    }
}

/// The state after releasing the live slot `i`: it leaves its bucket list and
/// becomes the head of the free list; its generation is kept.
pub open spec fn released(v: ArenaView, i: int, buckets: usize) -> ArenaView {
    let b = deadline_bucket(v.slots[i].deadline, buckets);
    let k = v.buckets[b].index_of(i);
    ArenaView {
        slots: v.slots.update(
            i,
            SlotState {
                active: false,
                generation: v.slots[i].generation,
                value: v.slots[i].value,
                deadline: v.slots[i].deadline,
            },
        ),
        free: seq![i] + v.free,
        buckets: v.buckets.update(b, v.buckets[b].remove(k)),
    }
}

/// Position `k` of bucket `b` holds the first overdue grain in scan order:
/// buckets in index order, each from its head.
pub open spec fn first_overdue(v: ArenaView, now: u64, b: int, k: int) -> bool {
    &&& 0 <= b < v.buckets.len()
    &&& 0 <= k < v.buckets[b].len()
    &&& v.slots[v.buckets[b][k]].deadline <= now
    &&& forall|bb: int, kk: int|
        0 <= bb < b && 0 <= kk < v.buckets[bb].len() ==> v.slots[#[trigger] v.buckets[bb][kk]].deadline
            > now
    &&& forall|kk: int| 0 <= kk < k ==> v.slots[#[trigger] v.buckets[b][kk]].deadline > now
}

/// Some live grain's deadline is at or before `now`.
pub open spec fn has_overdue(v: ArenaView, now: u64) -> bool {
    exists|i: int| 0 <= i < v.slots.len() && #[trigger] v.slots[i].active && v.slots[i].deadline <= now
}

/// The live slots of a view.
pub open spec fn live_slots(v: ArenaView) -> Set<int> {
    Set::new(|i: int| 0 <= i < v.slots.len() && v.slots[i].active)
}

/// What every reachable arena state satisfies, stated over its view: the free
/// list holds exactly the free slots, once each; every live slot sits on the
/// list of its deadline's bucket and every listed slot is live; the number of
/// live slots is the capacity minus the free list's length.
pub open spec fn arena_view_ok(v: ArenaView, capacity: usize, buckets: usize) -> bool {
    &&& v.slots.len() == capacity
    &&& v.buckets.len() == buckets
    &&& v.free.no_duplicates()
    &&& forall|k: int| 0 <= k < v.free.len() ==> 0 <= #[trigger] v.free[k] < capacity
    &&& forall|i: int| 0 <= i < capacity ==> (!#[trigger] v.slots[i].active <==> v.free.contains(i))
    &&& forall|i: int|
        0 <= i < capacity && #[trigger] v.slots[i].active ==> {
            &&& 0 <= deadline_bucket(v.slots[i].deadline, buckets) < buckets
            &&& v.buckets[deadline_bucket(v.slots[i].deadline, buckets)].contains(i)
        }
    &&& forall|b: int, k: int|
        0 <= b < buckets && 0 <= k < v.buckets[b].len() ==> {
            &&& 0 <= #[trigger] v.buckets[b][k] < capacity
            &&& v.slots[v.buckets[b][k]].active
            &&& deadline_bucket(v.slots[v.buckets[b][k]].deadline, buckets) == b
        }
    &&& forall|b: int| 0 <= b < buckets ==> (#[trigger] v.buckets[b]).no_duplicates()
    &&& live_slots(v).len() + v.free.len() == capacity
}

/// The state of a freshly built arena.
pub open spec fn initial_view(capacity: usize, buckets: usize) -> ArenaView {
    ArenaView {
        slots: Seq::new(
            capacity as nat,
            |i: int| SlotState { active: false, generation: 0, value: 0, deadline: 0 },
        ),
        free: Seq::new(capacity as nat, |i: int| i),
        buckets: Seq::new(buckets as nat, |b: int| Seq::<int>::empty()),
    }
}

/// A duplicate-free list of indices below `cap` that misses index `i` is
/// shorter than `cap`.
proof fn lemma_list_missing_index_is_short(list: Seq<int>, cap: int, i: int)
    requires
        list.no_duplicates(),
        forall|k: int| 0 <= k < list.len() ==> 0 <= #[trigger] list[k] < cap,
        0 <= i < cap,
        !list.contains(i),
    ensures
        list.len() < cap,
{
    list.unique_seq_to_set();
    let range = vstd::set_lib::set_int_range(0, cap).remove(i);
    vstd::set_lib::lemma_int_range(0, cap);
    vstd::set::axiom_set_remove_len(vstd::set_lib::set_int_range(0, cap), i);
    assert forall|x: int| list.to_set().contains(x) implies range.contains(x) by {
        let k = choose|k: int| 0 <= k < list.len() && list[k] == x;
    }
    vstd::set_lib::lemma_len_subset(list.to_set(), range);
}

/// Fixed-capacity grain metadata arena.
pub struct GrainArena<const CAPACITY: usize, const BUCKETS: usize> {
    slots: Vec<Slot>,
    bucket_heads: Vec<u16>,
    free_head: u16,
    active_count: usize,
    free_order: Ghost<Seq<int>>,
    bucket_order: Ghost<Seq<Seq<int>>>,
}

impl<const CAPACITY: usize, const BUCKETS: usize> View for GrainArena<CAPACITY, BUCKETS> {
    type V = ArenaView;

    closed spec fn view(&self) -> ArenaView {
        ArenaView {
            slots: Seq::new(
                self.slots@.len(),
                |i: int|
                    SlotState {
                        active: self.slots@[i].active,
                        generation: self.slots@[i].generation,
                        value: self.slots@[i].value,
                        deadline: self.slots@[i].deadline,
                    },
            ),
            free: self.free_order@,
            buckets: self.bucket_order@,
        }
    }
}

impl<const CAPACITY: usize, const BUCKETS: usize> GrainArena<CAPACITY, BUCKETS> {
    spec fn free_entry_ok(&self, k: int) -> bool {
        let i = self.free_order@[k];
        &&& 0 <= i < CAPACITY
        &&& !self.slots@[i].active
        &&& self.slots@[i].free_next == link_at(self.free_order@, k + 1)
    }

    spec fn bucket_entry_ok(&self, b: int, k: int) -> bool {
        let s = self.bucket_order@[b];
        let i = s[k];
        &&& 0 <= i < CAPACITY
        &&& self.slots@[i].active
        &&& self.slots@[i].bucket == b
        &&& self.slots@[i].bucket_next == link_at(s, k + 1)
        &&& self.slots@[i].bucket_prev == link_at(s, k - 1)
    }

    spec fn slot_ok(&self, i: int) -> bool {
        let slot = self.slots@[i];
        &&& !slot.active ==> self.free_order@.contains(i)
        &&& slot.active ==> {
            &&& slot.bucket < BUCKETS
            &&& slot.bucket as int == deadline_bucket(slot.deadline, BUCKETS)
            &&& self.bucket_order@[slot.bucket as int].contains(i)
        }
    }

    /// The arena's internal invariant.
    pub closed spec fn wf(&self) -> bool {
        &&& CAPACITY <= 65535
        &&& BUCKETS <= 65535
        &&& self.slots@.len() == CAPACITY
        &&& self.bucket_heads@.len() == BUCKETS
        &&& self.bucket_order@.len() == BUCKETS
        &&& self.free_order@.len() + self.active_count == CAPACITY
        &&& self.free_order@.no_duplicates()
        &&& self.free_head == link_at(self.free_order@, 0)
        &&& forall|k: int| 0 <= k < self.free_order@.len() ==> #[trigger] self.free_entry_ok(k)
        &&& forall|b: int|
            0 <= b < BUCKETS ==> {
                &&& self.bucket_heads@[b] == link_at(#[trigger] self.bucket_order@[b], 0)
                &&& self.bucket_order@[b].no_duplicates()
            }
        &&& forall|b: int, k: int|
            0 <= b < BUCKETS && 0 <= k < self.bucket_order@[b].len() ==> #[trigger] self.bucket_entry_ok(b, k)
        &&& forall|i: int| 0 <= i < CAPACITY ==> #[trigger] self.slot_ok(i)
    }

    /// The arena invariant, seen from outside: see `arena_view_ok`.
    pub proof fn lemma_view_ok(&self)
        requires
            self.wf(),
        ensures
            arena_view_ok(self@, CAPACITY, BUCKETS),
    {
        let v = self@;
        assert forall|k: int| 0 <= k < v.free.len() implies 0 <= #[trigger] v.free[k] < CAPACITY by {
            assert(self.free_entry_ok(k));
        }
        assert forall|i: int| 0 <= i < CAPACITY implies (!#[trigger] v.slots[i].active <==> v.free.contains(i)) by {
            assert(self.slot_ok(i));
            if v.free.contains(i) {
                let k = choose|k: int| 0 <= k < v.free.len() && v.free[k] == i;
                assert(self.free_entry_ok(k));
            }
        }
        assert forall|i: int| 0 <= i < CAPACITY && #[trigger] v.slots[i].active implies {
            &&& 0 <= deadline_bucket(v.slots[i].deadline, BUCKETS) < BUCKETS
            &&& v.buckets[deadline_bucket(v.slots[i].deadline, BUCKETS)].contains(i)
        } by {
            assert(self.slot_ok(i));
        }
        assert forall|b: int, k: int| 0 <= b < BUCKETS && 0 <= k < v.buckets[b].len() implies {
            &&& 0 <= #[trigger] v.buckets[b][k] < CAPACITY
            &&& v.slots[v.buckets[b][k]].active
            &&& deadline_bucket(v.slots[v.buckets[b][k]].deadline, BUCKETS) == b
        } by {
            assert(self.bucket_entry_ok(b, k));
            assert(self.slot_ok(v.buckets[b][k]));
        }
        assert forall|b: int| 0 <= b < BUCKETS implies (#[trigger] v.buckets[b]).no_duplicates() by {
            assert(self.bucket_order@[b].no_duplicates());
        }
        let live = live_slots(v);
        let free = v.free.to_set();
        let range = vstd::set_lib::set_int_range(0, CAPACITY as int);
        v.free.unique_seq_to_set();
        vstd::set_lib::lemma_int_range(0, CAPACITY as int);
        assert(live.subset_of(range));
        vstd::set_lib::lemma_len_subset(live, range);
        assert(free.subset_of(range)) by {
            assert forall|x: int| free.contains(x) implies range.contains(x) by {
                let k = choose|k: int| 0 <= k < v.free.len() && v.free[k] == x;
                assert(self.free_entry_ok(k));
            }
        }
        vstd::set_lib::lemma_len_subset(free, range);
        assert(live.disjoint(free));
        assert(live + free =~= range);
        vstd::set_lib::lemma_set_disjoint_lens(live, free);
    }

    /// A fresh arena: every slot free, in index order, and every bucket empty.
    pub fn new() -> (r: Self)
        requires
            CAPACITY <= 65535,
            BUCKETS <= 65535,
        ensures
            r.wf(),
            r@ == initial_view(CAPACITY, BUCKETS),
    {
        let mut slots: Vec<Slot> = Vec::new();
        let mut index: usize = 0;
        while index < CAPACITY
            invariant
                CAPACITY <= 65535,
                index <= CAPACITY,
                slots@.len() == index,
                forall|j: int|
                    0 <= j < index ==> {
                        let s = #[trigger] slots@[j];
                        &&& !s.active
                        &&& s.generation == 0
                        &&& s.value == 0
                        &&& s.deadline == 0
                        &&& s.free_next == (if j + 1 < CAPACITY { (j + 1) as u16 } else { EMPTY })
                    },
            decreases CAPACITY - index,
        {
            let free_next = if index + 1 < CAPACITY {
                (index + 1) as u16
            } else {
                EMPTY
            };
            slots.push(
                Slot {
                    value: 0,
                    active: false,
                    generation: 0,
                    deadline: 0,
                    free_next,
                    bucket_prev: EMPTY,
                    bucket_next: EMPTY,
                    bucket: 0,
                },
            );
            index += 1;
        }
        let mut bucket_heads: Vec<u16> = Vec::new();
        let mut b: usize = 0;
        while b < BUCKETS
            invariant
                b <= BUCKETS,
                bucket_heads@.len() == b,
                forall|j: int| 0 <= j < b ==> bucket_heads@[j] == EMPTY,
            decreases BUCKETS - b,
        {
            bucket_heads.push(EMPTY);
            b += 1;
        }
        let ghost free_seq = Seq::new(CAPACITY as nat, |i: int| i);
        let ghost bucket_seq = Seq::new(BUCKETS as nat, |j: int| Seq::<int>::empty());
        let r = GrainArena {
            slots,
            bucket_heads,
            free_head: if CAPACITY == 0 {
                EMPTY
            } else {
                0
            },
            active_count: 0,
            free_order: Ghost(free_seq),
            bucket_order: Ghost(bucket_seq),
        };
        assert forall|k: int| 0 <= k < r.free_order@.len() implies #[trigger] r.free_entry_ok(k) by {
            assert(r.slots@[k].free_next == link_at(free_seq, k + 1));
        }
        assert forall|i: int| 0 <= i < CAPACITY implies #[trigger] r.slot_ok(i) by {
            assert(free_seq[i] == i);
        }
        assert(r@.slots =~= initial_view(CAPACITY, BUCKETS).slots);
        r
    }

    /// Number of slots.
    #[must_use]
    pub fn capacity(&self) -> (r: usize)
        ensures
            r == CAPACITY,
    {
        CAPACITY
    }

    /// Number of live grains: the slots that are not on the free list.
    #[must_use]
    pub fn active_count(&self) -> (r: usize)
        requires
            self.wf(),
        ensures
            r == CAPACITY - self@.free.len(),
            r == live_slots(self@).len(),
    {
        proof {
            self.lemma_view_ok();
        }
        self.active_count
    }

    /// Admit a grain into the slot at the head of the free list and thread it
    /// onto the front of its deadline's bucket. Refused when every slot is
    /// live or there is no bucket.
    #[must_use]
    pub fn admit_grain(&mut self, value: u32, deadline: u64) -> (r: Option<GrainHandle>)
        requires
            old(self).wf(),
        ensures
            final(self).wf(),
            (old(self)@.free.len() == 0 || BUCKETS == 0) ==> r is None && final(self)@ == old(self)@,
            (old(self)@.free.len() > 0 && BUCKETS > 0) ==> {
                &&& r matches Some(h) && h@ == (
                    old(self)@.free[0],
                    next_generation(old(self)@.slots[old(self)@.free[0]].generation),
                )
                &&& final(self)@ == admitted(old(self)@, value, deadline, BUCKETS)
            },
    {
        if self.free_head == EMPTY || BUCKETS == 0 {
            proof {
                if BUCKETS > 0 && self.free_order@.len() > 0 {
                    assert(self.free_entry_ok(0));
                }
            }
            return None;
        }
        let ghost old_free = self.free_order@;
        let ghost old_buckets = self.bucket_order@;
        let ghost old_slots = self.slots@;
        proof {
            assert(old_free.len() > 0);
            assert(self.free_entry_ok(0));
        }
        let index = self.free_head as usize;
        let old_slot = self.slots[index];
        let next_free = old_slot.free_next;
        let generation = if old_slot.generation == u32::MAX {
            1u32
        } else {
            old_slot.generation + 1
        };
        let bucket = (#[verifier::truncate] (deadline as usize) % BUCKETS) as u16;
        let bucket_next = self.bucket_heads[bucket as usize];
        let ghost b = bucket as int;
        let ghost s = old_buckets[b];
        proof {
            assert(bucket_next == link_at(s, 0));
            if s.len() > 0 {
                assert(self.bucket_entry_ok(b, 0));
            }
        }
        self.free_head = next_free;
        self.slots.set(
            index,
            Slot {
                value,
                active: true,
                generation,
                deadline,
                free_next: EMPTY,
                bucket_prev: EMPTY,
                bucket_next,
                bucket,
            },
        );
        if bucket_next != EMPTY {
            let mut head = self.slots[bucket_next as usize];
            head.bucket_prev = index as u16;
            self.slots.set(bucket_next as usize, head);
        }
        self.bucket_heads.set(bucket as usize, index as u16);
        self.active_count = self.active_count + 1;
        let ghost new_s = seq![index as int] + s;
        self.free_order = Ghost(old_free.drop_first());
        self.bucket_order = Ghost(old_buckets.update(b, new_s));
        proof {
            let i = index as int;
            assert(!s.contains(i)) by {
                if s.contains(i) {
                    let k = choose|k: int| 0 <= k < s.len() && s[k] == i;
                    assert(old(self).bucket_entry_ok(b, k));
                }
            }
            assert forall|k: int| 0 <= k < self.free_order@.len() implies #[trigger] self.free_entry_ok(k) by {
                assert(old(self).free_entry_ok(k + 1));
                assert(old_free[k + 1] != old_free[0]);
                if s.len() > 0 {
                    assert(old(self).bucket_entry_ok(b, 0));
                }
            }
            assert forall|bb: int|
                0 <= bb < BUCKETS implies {
                    &&& self.bucket_heads@[bb] == link_at(#[trigger] self.bucket_order@[bb], 0)
                    &&& self.bucket_order@[bb].no_duplicates()
                } by {
                if bb == b {
                    assert(new_s[0] == i);
                    assert forall|x: int, y: int|
                        0 <= x < new_s.len() && 0 <= y < new_s.len() && x != y implies new_s[x] != new_s[y] by {
                        if x > 0 && y > 0 {
                            assert(new_s[x] == s[x - 1]);
                            assert(new_s[y] == s[y - 1]);
                        } else if x == 0 {
                            assert(new_s[y] == s[y - 1]);
                        } else {
                            assert(new_s[x] == s[x - 1]);
                        }
                    }
                }
            }
            assert forall|bb: int, k: int|
                0 <= bb < BUCKETS && 0 <= k < self.bucket_order@[bb].len() implies #[trigger] self.bucket_entry_ok(bb, k) by {
                if bb == b {
                    if k == 0 {
                        assert(link_at(new_s, 1) == link_at(s, 0));
                    } else {
                        assert(new_s[k] == s[k - 1]);
                        assert(old(self).bucket_entry_ok(b, k - 1));
                        assert(link_at(new_s, k + 1) == link_at(s, k));
                        if k >= 2 {
                            assert(link_at(new_s, k - 1) == link_at(s, k - 2));
                        }
                        if k == 1 {
                            assert(link_at(new_s, 0) == index as u16);
                        }
                    }
                } else {
                    assert(old(self).bucket_entry_ok(bb, k));
                    let j = old_buckets[bb][k];
                    if s.len() > 0 {
                        assert(old(self).bucket_entry_ok(b, 0));
                    }
                }
            }
            assert forall|j: int| 0 <= j < CAPACITY implies #[trigger] self.slot_ok(j) by {
                assert(old(self).slot_ok(j));
                if j == i {
                    assert(new_s[0] == i);
                } else {
                    if !self.slots@[j].active {
                        let k = choose|k: int| 0 <= k < old_free.len() && old_free[k] == j;
                        assert(k != 0);
                        assert(self.free_order@[k - 1] == j);
                    } else {
                        let bj = self.slots@[j].bucket as int;
                        if bj == b {
                            let k = choose|k: int| 0 <= k < s.len() && s[k] == j;
                            assert(new_s[k + 1] == j);
                        }
                    }
                }
            }
            let v = admitted(old(self)@, value, deadline, BUCKETS);
            assert(self@.slots =~= v.slots);
            assert(self@.buckets =~= v.buckets);
        }
        Some(GrainHandle { index: index as u16, generation })
    }

    /// Take a live slot off its bucket list and push it onto the free list.
    fn remove_active(&mut self, index: usize) -> (value: u32)
        requires
            old(self).wf(),
            index < CAPACITY,
            old(self)@.slots[index as int].active,
        ensures
            final(self).wf(),
            value == old(self)@.slots[index as int].value,
            final(self)@ == released(old(self)@, index as int, BUCKETS),
    {
        let ghost i = index as int;
        let ghost old_free = self.free_order@;
        let ghost old_buckets = self.bucket_order@;
        let slot = self.slots[index];
        let ghost b = slot.bucket as int;
        let ghost s = old_buckets[b];
        let ghost k = s.index_of(i);
        proof {
            assert(!old_free.contains(i)) by {
                if old_free.contains(i) {
                    let kk = choose|kk: int| 0 <= kk < old_free.len() && old_free[kk] == i;
                    assert(self.free_entry_ok(kk));
                }
            }
            assert forall|kk: int| 0 <= kk < old_free.len() implies 0 <= #[trigger] old_free[kk] < CAPACITY by {
                assert(self.free_entry_ok(kk));
            }
            lemma_list_missing_index_is_short(old_free, CAPACITY as int, i);
            assert(self.slot_ok(i));
            assert(s.contains(i));
            assert(0 <= k < s.len() && s[k] == i);
            assert(self.bucket_entry_ok(b, k));
            if k > 0 {
                assert(self.bucket_entry_ok(b, k - 1));
            }
            if k + 1 < s.len() {
                assert(self.bucket_entry_ok(b, k + 1));
            }
        }
        if slot.bucket_prev == EMPTY {
            self.bucket_heads.set(slot.bucket as usize, slot.bucket_next);
        } else {
            let mut prev = self.slots[slot.bucket_prev as usize];
            prev.bucket_next = slot.bucket_next;
            self.slots.set(slot.bucket_prev as usize, prev);
        }
        if slot.bucket_next != EMPTY {
            let mut next = self.slots[slot.bucket_next as usize];
            next.bucket_prev = slot.bucket_prev;
            self.slots.set(slot.bucket_next as usize, next);
        }
        let mut freed = slot;
        freed.bucket_prev = EMPTY;
        freed.bucket_next = EMPTY;
        freed.active = false;
        freed.free_next = self.free_head;
        self.slots.set(index, freed);
        self.active_count = self.active_count - 1;
        self.free_head = index as u16;
        let ghost new_s = s.remove(k);
        let ghost new_free = seq![i] + old_free;
        self.free_order = Ghost(new_free);
        self.bucket_order = Ghost(old_buckets.update(b, new_s));
        proof {
            assert forall|kk: int| 0 <= kk < new_free.len() implies #[trigger] self.free_entry_ok(kk) by {
                if kk > 0 {
                    assert(new_free[kk] == old_free[kk - 1]);
                    assert(old(self).free_entry_ok(kk - 1));
                    assert(link_at(new_free, kk + 1) == link_at(old_free, kk));
                    let j = old_free[kk - 1];
                    if k > 0 {
                        assert(old(self).bucket_entry_ok(b, k - 1));
                    }
                    if k + 1 < s.len() {
                        assert(old(self).bucket_entry_ok(b, k + 1));
                    }
                } else {
                    assert(link_at(new_free, 1) == link_at(old_free, 0));
                }
            }
            assert forall|x: int, y: int|
                0 <= x < new_free.len() && 0 <= y < new_free.len() && x != y implies new_free[x] != new_free[y] by {
                if x > 0 && y > 0 {
                    assert(new_free[x] == old_free[x - 1]);
                    assert(new_free[y] == old_free[y - 1]);
                } else if x == 0 {
                    assert(new_free[y] == old_free[y - 1]);
                } else {
                    assert(new_free[x] == old_free[x - 1]);
                }
            }
            assert forall|bb: int|
                0 <= bb < BUCKETS implies {
                    &&& self.bucket_heads@[bb] == link_at(#[trigger] self.bucket_order@[bb], 0)
                    &&& self.bucket_order@[bb].no_duplicates()
                } by {
                if bb == b {
                    assert forall|x: int, y: int|
                        0 <= x < new_s.len() && 0 <= y < new_s.len() && x != y implies new_s[x] != new_s[y] by {
                        let xo = if x < k { x } else { x + 1 };
                        let yo = if y < k { y } else { y + 1 };
                        assert(new_s[x] == s[xo]);
                        assert(new_s[y] == s[yo]);
                    }
                    if k == 0 {
                        assert(link_at(new_s, 0) == link_at(s, 1));
                    } else {
                        assert(new_s[0] == s[0]);
                    }
                }
            }
            assert forall|bb: int, kk: int|
                0 <= bb < BUCKETS && 0 <= kk < self.bucket_order@[bb].len() implies #[trigger] self.bucket_entry_ok(bb, kk) by {
                if bb == b {
                    let ko = if kk < k { kk } else { kk + 1 };
                    assert(new_s[kk] == s[ko]);
                    assert(old(self).bucket_entry_ok(b, ko));
                    assert(ko != k);
                    if kk + 1 < k {
                        assert(link_at(new_s, kk + 1) == link_at(s, kk + 1));
                    } else if kk + 1 == k {
                        assert(link_at(new_s, kk + 1) == link_at(s, k + 1));
                    } else {
                        assert(link_at(new_s, kk + 1) == link_at(s, kk + 2));
                    }
                    if kk < k {
                        assert(link_at(new_s, kk - 1) == link_at(s, kk - 1));
                    } else if kk == k {
                        assert(link_at(new_s, kk - 1) == link_at(s, k - 1));
                    } else {
                        assert(link_at(new_s, kk - 1) == link_at(s, kk));
                    }
                    if k > 0 {
                        assert(old(self).bucket_entry_ok(b, k - 1));
                    }
                    if k + 1 < s.len() {
                        assert(old(self).bucket_entry_ok(b, k + 1));
                    }
                } else {
                    assert(old(self).bucket_entry_ok(bb, kk));
                    if k > 0 {
                        assert(old(self).bucket_entry_ok(b, k - 1));
                    }
                    if k + 1 < s.len() {
                        assert(old(self).bucket_entry_ok(b, k + 1));
                    }
                }
            }
            assert forall|j: int| 0 <= j < CAPACITY implies #[trigger] self.slot_ok(j) by {
                assert(old(self).slot_ok(j));
                if j == i {
                    assert(new_free[0] == i);
                } else if !self.slots@[j].active {
                    let kk = choose|kk: int| 0 <= kk < old_free.len() && old_free[kk] == j;
                    assert(new_free[kk + 1] == j);
                } else {
                    let bj = self.slots@[j].bucket as int;
                    if bj == b {
                        let kk = choose|kk: int| 0 <= kk < s.len() && s[kk] == j;
                        assert(kk != k);
                        if kk < k {
                            assert(new_s[kk] == j);
                        } else {
                            assert(new_s[kk - 1] == j);
                        }
                    }
                }
            }
            let v = released(old(self)@, i, BUCKETS);
            assert(self@.slots =~= v.slots);
            assert(self@.buckets =~= v.buckets);
        }
        slot.value
    }

    /// Release a live grain. A stale or foreign handle changes nothing.
    pub fn release(&mut self, handle: GrainHandle) -> (r: Option<u32>)
        requires
            old(self).wf(),
        ensures
            final(self).wf(),
            handle_is_live(old(self)@, handle@) ==> {
                &&& r == Some(old(self)@.slots[handle@.0].value)
                &&& final(self)@ == released(old(self)@, handle@.0, BUCKETS)
            },
            !handle_is_live(old(self)@, handle@) ==> r is None && final(self)@ == old(self)@,
    {
        let index = handle.index as usize;
        if index >= CAPACITY || !self.slots[index].active || self.slots[index].generation
            != handle.generation {
            return None;
        }
        let value = self.remove_active(index);
        Some(value)
    }

    /// Release and return one grain whose deadline is at or before `now`: the
    /// first one met when the buckets are scanned in index order, each from
    /// its head. The scan goes by bucket rather than by tick, so a jump in
    /// time cannot strand an overdue grain.
    pub fn expire_one(&mut self, now: u64) -> (r: Option<(GrainHandle, u32)>)
        requires
            old(self).wf(),
        ensures
            final(self).wf(),
            r is None <==> !has_overdue(old(self)@, now),
            r is None ==> final(self)@ == old(self)@,
            r matches Some((h, value)) ==> exists|b: int, k: int|
                {
                    &&& #[trigger] first_overdue(old(self)@, now, b, k)
                    &&& h@ == (
                        old(self)@.buckets[b][k],
                        old(self)@.slots[old(self)@.buckets[b][k]].generation,
                    )
                    &&& value == old(self)@.slots[old(self)@.buckets[b][k]].value
                    &&& final(self)@ == released(old(self)@, old(self)@.buckets[b][k], BUCKETS)
                },
    {
        let mut bucket: usize = 0;
        while bucket < BUCKETS
            invariant
                *self == *old(self),
                self.wf(),
                bucket <= BUCKETS,
                forall|bb: int, kk: int|
                    0 <= bb < bucket && 0 <= kk < self.bucket_order@[bb].len() ==> self.slots@[#[trigger] self.bucket_order@[bb][kk]].deadline > now,
            decreases BUCKETS - bucket,
        {
            let mut cursor = self.bucket_heads[bucket];
            let ghost s = self.bucket_order@[bucket as int];
            let ghost mut k: int = 0;
            while cursor != EMPTY
                invariant
                    *self == *old(self),
                    self.wf(),
                    bucket < BUCKETS,
                    s == self.bucket_order@[bucket as int],
                    0 <= k <= s.len(),
                    cursor == link_at(s, k),
                    forall|bb: int, kk: int|
                        0 <= bb < bucket && 0 <= kk < self.bucket_order@[bb].len() ==> self.slots@[#[trigger] self.bucket_order@[bb][kk]].deadline > now,
                    forall|kk: int| 0 <= kk < k ==> self.slots@[#[trigger] s[kk]].deadline > now,
                decreases s.len() - k,
            {
                proof {
                    assert(k < s.len());
                    assert(self.bucket_entry_ok(bucket as int, k));
                }
                let index = cursor as usize;
                let slot = self.slots[index];
                let next = slot.bucket_next;
                if slot.deadline <= now {
                    let handle = GrainHandle { index: cursor, generation: slot.generation };
                    proof {
                        let v = self@;
                        assert forall|bb: int, kk: int|
                            0 <= bb < bucket && 0 <= kk < v.buckets[bb].len() implies v.slots[#[trigger] v.buckets[bb][kk]].deadline > now by {
                            assert(self.bucket_entry_ok(bb, kk));
                        }
                        assert forall|kk: int| 0 <= kk < k implies v.slots[#[trigger] v.buckets[bucket as int][kk]].deadline > now by {
                            assert(self.bucket_entry_ok(bucket as int, kk));
                        }
                        assert(first_overdue(self@, now, bucket as int, k));
                        assert(self@.slots[index as int].active);
                        assert(has_overdue(self@, now));
                    }
                    let value = self.remove_active(index);
                    return Some((handle, value));
                }
                cursor = next;
                proof {
                    k = k + 1;
                }
            }
            proof {
                if k < s.len() {
                    assert(self.bucket_entry_ok(bucket as int, k));
                }
            }
            bucket += 1;
        }
        proof {
            assert forall|i: int| 0 <= i < self@.slots.len() && #[trigger] self@.slots[i].active implies self@.slots[i].deadline > now by {
                assert(self.slot_ok(i));
                let b = self.slots@[i].bucket as int;
                let kk = choose|kk: int| 0 <= kk < self.bucket_order@[b].len() && self.bucket_order@[b][kk] == i;
                assert(self.slots@[self.bucket_order@[b][kk]].deadline > now);
            }
        }
        None
    }

    /// The value of a live grain, or `None` for a stale or foreign handle.
    #[must_use]
    pub fn value(&self, handle: GrainHandle) -> (r: Option<u32>)
        requires
            self.wf(),
        ensures
            r == (if handle_is_live(self@, handle@) {
                Some(self@.slots[handle@.0].value)
            } else {
                None
            }),
    {
        let index = handle.index as usize;
        if index < self.slots.len() {
            let slot = self.slots[index];
            if slot.active && slot.generation == handle.generation {
                return Some(slot.value);
            }
        }
        None
    }
}

impl<const CAPACITY: usize, const BUCKETS: usize> Default for GrainArena<CAPACITY, BUCKETS> {
    /// A fresh arena. Capacities beyond the 16-bit link space build an arena
    /// that satisfies no invariant, so that no operation can be called on it.
    fn default() -> (r: Self)
        ensures
            CAPACITY <= 65535 && BUCKETS <= 65535 ==> r.wf() && r@ == initial_view(
                CAPACITY,
                BUCKETS,
            ),
    {
        if CAPACITY <= 65535 && BUCKETS <= 65535 {
            Self::new()
        } else {
            GrainArena {
                slots: Vec::new(),
                bucket_heads: Vec::new(),
                free_head: EMPTY,
                active_count: 0,
                free_order: Ghost(Seq::empty()),
                bucket_order: Ghost(Seq::empty()),
            }
        }
    }
}

/// A new generation never equals the one it replaces, and is never zero: a
/// handle kept across a release and a new admission of its slot goes stale.
pub proof fn lemma_next_generation_is_fresh(g: u32)
    ensures
        next_generation(g) != g,
        next_generation(g) >= 1,
{
}

/// After an admission, the returned handle is live and reads back the value.
pub proof fn lemma_admitted_reads_back(v: ArenaView, value: u32, deadline: u64, capacity: usize, buckets: usize)
    requires
        arena_view_ok(v, capacity, buckets),
        v.free.len() > 0,
        buckets > 0,
    ensures
        ({
            let i = v.free[0];
            let after = admitted(v, value, deadline, buckets);
            &&& handle_is_live(after, (i, next_generation(v.slots[i].generation)))
            &&& after.slots[i].value == value
            &&& after.slots[i].deadline == deadline
        }),
{
    assert(0 <= v.free[0] < capacity);
}

/// Admitting a grain leaves every other slot's state unchanged.
pub proof fn lemma_admitted_keeps_other_slots(v: ArenaView, value: u32, deadline: u64, capacity: usize, buckets: usize, j: int)
    requires
        arena_view_ok(v, capacity, buckets),
        v.free.len() > 0,
        buckets > 0,
        0 <= j < capacity,
        j != v.free[0],
    ensures
        admitted(v, value, deadline, buckets).slots[j] == v.slots[j],
{
}

/// After a release, every handle to the released slot is stale, and the slot
/// is the next one an admission takes; other slots keep their state.
pub proof fn lemma_released_is_stale(v: ArenaView, i: int, g: u32, capacity: usize, buckets: usize, j: int)
    requires
        arena_view_ok(v, capacity, buckets),
        0 <= i < capacity,
        v.slots[i].active,
        0 <= j < capacity,
        j != i,
    ensures
        !handle_is_live(released(v, i, buckets), (i, g)),
        released(v, i, buckets).free[0] == i,
        released(v, i, buckets).slots[j] == v.slots[j],
{
}

} // verus!
