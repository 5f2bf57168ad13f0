//! Slot bookkeeping of the realtime grain layers: which layers are live, in
//! what order they are rendered, how they age and when they expire.
use vstd::prelude::*;
use crate::artifact::GRAIN_LAYERS;

verus! {

/// The lifetime of one grain layer, in host frames.
#[derive(Clone, Copy, Debug, PartialEq, Eq, Structural)]
pub struct LaneState {
    pub active: bool,
    pub age: u32,
    pub length: u32,
}

/// The observable state of the layer bank: every layer, and the live layers
/// in render order.
pub struct LanesView {
    pub layers: Seq<LaneState>,
    pub order: Seq<int>,
}

/// The bank is consistent: the render order lists every live layer once and
/// nothing else.
pub open spec fn lanes_ok(v: LanesView) -> bool {
    &&& v.layers.len() == GRAIN_LAYERS
    &&& v.order.len() <= GRAIN_LAYERS
    &&& v.order.no_duplicates()
    &&& forall|k: int| 0 <= k < v.order.len() ==> 0 <= #[trigger] v.order[k] < GRAIN_LAYERS
    &&& forall|k: int| 0 <= k < v.order.len() ==> v.layers[#[trigger] v.order[k]].active
    &&& forall|i: int| 0 <= i < GRAIN_LAYERS && #[trigger] v.layers[i].active ==> v.order.contains(i)
}

/// `u32` sum saturating at `u32::MAX`.
pub open spec fn saturating_inc(x: u32) -> u32 {
    if x == u32::MAX {
        x
    } else {
        (x + 1) as u32
    }
}

/// A live layer whose next frame reaches its length expires.
pub open spec fn expires(l: LaneState) -> bool {
    saturating_inc(l.age) >= l.length
}

/// A live layer one frame older; it stays live while its age is below its
/// length.
pub open spec fn aged(l: LaneState) -> LaneState {
    LaneState { active: !expires(l), age: saturating_inc(l.age), length: l.length }
}

/// The render order after expiry: walking the order from position `i`, an
/// expiring layer is replaced by the last entry, which is examined next.
pub open spec fn swept(order: Seq<int>, layers: Seq<LaneState>, i: int) -> Seq<int>
    decreases order.len() - i,
{
    if i < 0 || i >= order.len() {
        order
    } else if expires(layers[order[i]]) {
        swept(order.update(i, order.last()).drop_last(), layers, i)
    } else {
        swept(order, layers, i + 1)
    }
}

/// The first layer at or after `i` that is not live (the layer count if none).
pub open spec fn first_free_from(layers: Seq<LaneState>, i: int) -> int
    decreases layers.len() - i,
{
    if i < 0 || i >= layers.len() {
        layers.len() as int
    } else if !layers[i].active {
        i
    } else {
        first_free_from(layers, i + 1)
    }
}

/// Lifetimes and render order of the realtime grain layers.
pub struct GrainLanes {
    layers: Vec<LaneState>,
    order: Vec<usize>,
}

impl View for GrainLanes {
    type V = LanesView;

    closed spec fn view(&self) -> LanesView {
        LanesView { layers: self.layers@, order: self.order@.map_values(|i: usize| i as int) }
    }
}

proof fn lemma_first_free_from(layers: Seq<LaneState>, i: int)
    requires
        0 <= i <= layers.len(),
    ensures
        i <= first_free_from(layers, i) <= layers.len(),
        first_free_from(layers, i) < layers.len() ==> !layers[first_free_from(layers, i)].active,
        forall|j: int| i <= j < first_free_from(layers, i) ==> #[trigger] layers[j].active,
    decreases layers.len() - i,
{
    if i < layers.len() && layers[i].active {
        lemma_first_free_from(layers, i + 1);
    }
}

impl GrainLanes {
    /// The bank's invariant.
    pub open spec fn wf(&self) -> bool {
        lanes_ok(self@)
    }

    /// A bank with every layer idle.
    pub fn new() -> (r: Self)
        ensures
            r.wf(),
            r@.order.len() == 0,
            r@.layers == Seq::new(
                GRAIN_LAYERS as nat,
                |i: int| LaneState { active: false, age: 0, length: 0 },
            ),
    {
        let mut layers: Vec<LaneState> = Vec::new();
        let mut i: usize = 0;
        while i < GRAIN_LAYERS
            invariant
                i <= GRAIN_LAYERS,
                layers@ == Seq::new(i as nat, |j: int| LaneState { active: false, age: 0, length: 0 }),
            decreases GRAIN_LAYERS - i,
        {
            layers.push(LaneState { active: false, age: 0, length: 0 });
            proof {
                assert(layers@ =~= Seq::new((i + 1) as nat, |j: int| LaneState { active: false, age: 0, length: 0 }));
            }
            i += 1;
        }
        let r = GrainLanes { layers, order: Vec::new() };
        proof {
            assert(r@.order =~= Seq::<int>::empty());
        }
        r
    }

    /// Number of live layers.
    pub fn active_count(&self) -> (r: usize)
        requires
            self.wf(),
        ensures
            r == self@.order.len(),
    {
        self.order.len()
    }

    /// The layer rendered at position `k` of the render order.
    pub fn active_layer(&self, k: usize) -> (r: usize)
        requires
            self.wf(),
            k < self@.order.len(),
        ensures
            r == self@.order[k as int],
            r < GRAIN_LAYERS,
    {
        self.order[k]
    }

    /// The lifetime of layer `index`.
    pub fn layer(&self, index: usize) -> (r: LaneState)
        requires
            self.wf(),
            index < GRAIN_LAYERS,
        ensures
            r == self@.layers[index as int],
    {
        self.layers[index]
    }

    /// Start a grain of `length` frames in the first idle layer, appending it
    /// to the render order; `None` when every layer is live.
    pub fn admit_layer(&mut self, length: u32) -> (r: Option<usize>)
        requires
            old(self).wf(),
        ensures
            final(self).wf(),
            old(self)@.order.len() == GRAIN_LAYERS ==> r is None && final(self)@ == old(self)@,
            old(self)@.order.len() < GRAIN_LAYERS ==> {
                let i = first_free_from(old(self)@.layers, 0);
                &&& r == Some(i as usize)
                &&& i < GRAIN_LAYERS
                &&& final(self)@.layers == old(self)@.layers.update(
                    i,
                    LaneState { active: true, age: 0, length },
                )
                &&& final(self)@.order == old(self)@.order.push(i)
            },
    {
        let ghost old_view = self@;
        if self.order.len() >= GRAIN_LAYERS {
            return None;
        }
        proof {
            lemma_first_free_from(old_view.layers, 0);
            if first_free_from(old_view.layers, 0) == GRAIN_LAYERS {
                // Every layer is live, so the order would list them all.
                assert forall|j: int| 0 <= j < GRAIN_LAYERS implies old_view.order.contains(j) by {
                    assert(old_view.layers[j].active);
                }
                lemma_distinct_cover(old_view.order, GRAIN_LAYERS as int);
            }
        }
        let mut index: usize = 0;
        while index < GRAIN_LAYERS && self.layers[index].active
            invariant
                index <= GRAIN_LAYERS,
                self@ == old_view,
                self.layers@.len() == GRAIN_LAYERS,
                first_free_from(old_view.layers, 0) == first_free_from(old_view.layers, index as int),
            decreases GRAIN_LAYERS - index,
        {
            index += 1;
        }
        proof {
            lemma_first_free_from(old_view.layers, index as int);
        }
        self.layers.set(index, LaneState { active: true, age: 0, length });
        self.order.push(index);
        proof {
            let v = self@;
            assert(v.order =~= old_view.order.push(index as int));
            assert(!old_view.order.contains(index as int)) by {
                if old_view.order.contains(index as int) {
                    let k = choose|k: int| 0 <= k < old_view.order.len() && old_view.order[k] == index as int;
                    assert(old_view.layers[old_view.order[k]].active);
                }
            }
            assert forall|k: int| 0 <= k < v.order.len() implies v.layers[#[trigger] v.order[k]].active by {
                if k < old_view.order.len() {
                    assert(old_view.layers[old_view.order[k]].active);
                }
            }
            assert forall|i: int| 0 <= i < GRAIN_LAYERS && #[trigger] v.layers[i].active implies v.order.contains(i) by {
                if i == index {
                    assert(v.order[v.order.len() - 1] == i);
                } else {
                    assert(old_view.order.contains(i));
                    let k = choose|k: int| 0 <= k < old_view.order.len() && old_view.order[k] == i;
                    assert(v.order[k] == i);
                }
            }
        }
        Some(index)
    }

    /// Restart a live layer as a new grain of `length` frames; its place in
    /// the render order is kept.
    pub fn restart_layer(&mut self, index: usize, length: u32)
        requires
            old(self).wf(),
            index < GRAIN_LAYERS,
            old(self)@.layers[index as int].active,
        ensures
            final(self).wf(),
            final(self)@.layers == old(self)@.layers.update(
                index as int,
                LaneState { active: true, age: 0, length },
            ),
            final(self)@.order == old(self)@.order,
    {
        self.layers.set(index, LaneState { active: true, age: 0, length });
        proof {
            let v = self@;
            assert forall|k: int| 0 <= k < v.order.len() implies v.layers[#[trigger] v.order[k]].active by {
                assert(old(self)@.layers[old(self)@.order[k]].active);
            }
            assert forall|i: int| 0 <= i < GRAIN_LAYERS && #[trigger] v.layers[i].active implies v.order.contains(i) by {
                assert(old(self)@.layers[i].active);
            }
        }
    }

    /// Age every live layer by one frame; a layer whose age reaches its
    /// length goes idle and leaves the render order, its place taken by the
    /// last entry.
    pub fn age_and_expire(&mut self)
        requires
            old(self).wf(),
        ensures
            final(self).wf(),
            forall|i: int|
                0 <= i < GRAIN_LAYERS ==> #[trigger] final(self)@.layers[i] == if old(self)@.layers[i].active {
                    aged(old(self)@.layers[i])
                } else {
                    old(self)@.layers[i]
                },
            final(self)@.order == swept(old(self)@.order, old(self)@.layers, 0),
    {
        let ghost old_view = self@;
        let ghost old_layers = old_view.layers;
        let mut active: usize = 0;
        while active < self.order.len()
            invariant
                self.layers@.len() == GRAIN_LAYERS,
                self.order@.len() <= GRAIN_LAYERS,
                active <= self.order@.len(),
                lanes_ok(old_view),
                old_layers == old_view.layers,
                swept(self@.order, old_layers, active as int) == swept(old_view.order, old_layers, 0),
                self@.order.no_duplicates(),
                forall|k: int| 0 <= k < self@.order.len() ==> 0 <= #[trigger] self@.order[k] < GRAIN_LAYERS
                    && old_layers[self@.order[k]].active,
                forall|k: int| active <= k < self@.order.len() ==> self@.layers[#[trigger] self@.order[k]] == old_layers[self@.order[k]],
                forall|k: int| 0 <= k < active ==> !expires(old_layers[#[trigger] self@.order[k]])
                    && self@.layers[self@.order[k]] == aged(old_layers[self@.order[k]]),
                forall|j: int| 0 <= j < GRAIN_LAYERS && !#[trigger] old_layers[j].active ==> self@.layers[j] == old_layers[j],
                forall|j: int| 0 <= j < GRAIN_LAYERS && #[trigger] old_layers[j].active && !self@.order.contains(j)
                    ==> self@.layers[j] == aged(old_layers[j]) && expires(old_layers[j]),
            decreases self.order@.len() - active,
        {
            let ghost before = self@;
            let index = self.order[active];
            let layer = self.layers[index];
            let age = layer.age.saturating_add(1);
            proof {
                assert(before.order[active as int] == index as int);
                assert(before.layers[index as int] == old_layers[index as int]);
            }
            if age >= layer.length {
                self.layers.set(index, LaneState { active: false, age, length: layer.length });
                let last = self.order.len() - 1;
                let moved = self.order[last];
                self.order.set(active, moved);
                self.order.pop();
                proof {
                    let after = self@;
                    let bo = before.order;
                    assert(after.order =~= bo.update(active as int, bo.last()).drop_last());
                    assert(swept(bo, old_layers, active as int) == swept(after.order, old_layers, active as int));
                    assert forall|x: int, y: int| 0 <= x < y < after.order.len() implies after.order[x] != after.order[y] by {
                        let xo = if x == active { bo.len() - 1 } else { x };
                        let yo = if y == active { bo.len() - 1 } else { y };
                        assert(after.order[x] == bo[xo]);
                        assert(after.order[y] == bo[yo]);
                    }
                    assert forall|k: int| 0 <= k < after.order.len() implies 0 <= #[trigger] after.order[k] < GRAIN_LAYERS
                        && old_layers[after.order[k]].active by {
                        if k == active {
                            assert(after.order[k] == bo[bo.len() - 1]);
                        } else {
                            assert(after.order[k] == bo[k]);
                        }
                    }
                    assert forall|k: int| active <= k < after.order.len() implies after.layers[#[trigger] after.order[k]] == old_layers[after.order[k]] by {
                        let ko = if k == active { bo.len() - 1 } else { k };
                        assert(after.order[k] == bo[ko]);
                        assert(bo[ko] != index as int);
                    }
                    assert forall|k: int| 0 <= k < active implies !expires(old_layers[#[trigger] after.order[k]])
                        && after.layers[after.order[k]] == aged(old_layers[after.order[k]]) by {
                        assert(after.order[k] == bo[k]);
                        assert(bo[k] != index as int);
                    }
                    assert forall|j: int| 0 <= j < GRAIN_LAYERS && #[trigger] old_layers[j].active && !after.order.contains(j)
                        implies after.layers[j] == aged(old_layers[j]) && expires(old_layers[j]) by {
                        if j != index as int {
                            if bo.contains(j) {
                                let k = choose|k: int| 0 <= k < bo.len() && bo[k] == j;
                                if k == bo.len() - 1 {
                                    if active < bo.len() - 1 {
                                        assert(after.order[active as int] == j);
                                    }
                                } else {
                                    assert(k != active);
                                    assert(after.order[k] == j);
                                }
                            }
                        }
                    }
                }
            } else {
                self.layers.set(index, LaneState { active: true, age, length: layer.length });
                proof {
                    let after = self@;
                    assert(after.order == before.order);
                    assert forall|k: int| active + 1 <= k < after.order.len() implies after.layers[#[trigger] after.order[k]] == old_layers[after.order[k]] by {
                        assert(before.order[k] != index as int);
                    }
                    assert forall|k: int| 0 <= k < active + 1 implies !expires(old_layers[#[trigger] after.order[k]])
                        && after.layers[after.order[k]] == aged(old_layers[after.order[k]]) by {
                        if k < active {
                            assert(before.order[k] != index as int);
                        }
                    }
                    assert forall|j: int| 0 <= j < GRAIN_LAYERS && #[trigger] old_layers[j].active && !after.order.contains(j)
                        implies after.layers[j] == aged(old_layers[j]) && expires(old_layers[j]) by {
                        if j == index as int {
                            assert(after.order[active as int] == j);
                        }
                    }
                }
                active += 1;
            }
        }
        proof {
            let v = self@;
            assert(swept(v.order, old_layers, active as int) == v.order);
            assert forall|i: int| 0 <= i < GRAIN_LAYERS && #[trigger] v.layers[i].active implies v.order.contains(i) by {
                if !old_layers[i].active {
                } else if !v.order.contains(i) {
                }
            }
            assert forall|i: int| 0 <= i < GRAIN_LAYERS implies #[trigger] v.layers[i] == if old_layers[i].active {
                aged(old_layers[i])
            } else {
                old_layers[i]
            } by {
                if old_layers[i].active && v.order.contains(i) {
                    let k = choose|k: int| 0 <= k < v.order.len() && v.order[k] == i;
                    assert(!expires(old_layers[v.order[k]]));
                }
            }
            assert forall|k: int| 0 <= k < v.order.len() implies v.layers[#[trigger] v.order[k]].active by {
                assert(!expires(old_layers[v.order[k]]));
            }
        }
    }
}

/// A duplicate-free list that holds every index below `n` has at least `n`
/// entries.
proof fn lemma_distinct_cover(list: Seq<int>, n: int)
    requires
        n >= 0,
        list.no_duplicates(),
        forall|j: int| 0 <= j < n ==> list.contains(j),
    ensures
        list.len() >= n,
{
    list.unique_seq_to_set();
    let range = vstd::set_lib::set_int_range(0, n);
    vstd::set_lib::lemma_int_range(0, n);
    assert(range.subset_of(list.to_set()));
    vstd::set_lib::lemma_len_subset(range, list.to_set());
}

/// A live layer keeps living exactly while its age stays below its length,
/// and an idle layer is never aged.
pub proof fn lemma_aging_expires_at_length(l: LaneState)
    requires
        l.age < u32::MAX,
    ensures
        aged(l).age == l.age + 1,
        aged(l).active <==> l.age + 1 < l.length,
        aged(l).length == l.length,
{
}

} // verus!
