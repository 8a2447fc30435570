//! Per-core slab shards: each core owns its own connection slots, and the
//! manager places connections on the core asked for or the least loaded one.
use vstd::prelude::*;
use crate::conn::{ConnState, ConnV, slot_view};
use super::numa::NumaInfo;

verus! {

/// One core's connection slots.
pub struct SlabShard<S> {
    pub core_id: usize,
    pub numa_node: usize,
    slots: Vec<Option<ConnState<S>>>,
    free_list: Vec<usize>,
    allocated: usize,
    capacity: usize,
}

/// A shard as the contracts see it.
pub struct ShardV<S> {
    pub core_id: usize,
    pub numa_node: usize,
    pub slots: Seq<Option<ConnV<S>>>,
    /// Free slots; the last one is handed out next.
    pub free: Seq<usize>,
    /// Slots handed out and not given back (wrapping, as an atomic counter does).
    pub allocated: usize,
    pub capacity: nat,
}

/// `x + 1`, wrapping.
pub open spec fn inc_usize(x: usize) -> usize {
    if x == usize::MAX { 0 } else { (x + 1) as usize }
}

/// `x - 1`, wrapping.
pub open spec fn dec_usize(x: usize) -> usize {
    if x == 0 { usize::MAX } else { (x - 1) as usize }
}

impl<S> SlabShard<S> {
    /// The shard's slots, free stack and counter.
    pub closed spec fn view(&self) -> ShardV<S> {
        ShardV {
            core_id: self.core_id,
            numa_node: self.numa_node,
            slots: self.slots@.map_values(|o: Option<ConnState<S>>| slot_view(o)),
            free: self.free_list@,
            allocated: self.allocated,
            capacity: self.capacity as nat,
        }
    }

    /// A slot per unit of capacity, and only those on the free stack.
    pub closed spec fn wf(&self) -> bool {
        &&& self.slots@.len() == self.capacity
        &&& forall|k: int| 0 <= k < self.free_list@.len() ==> #[trigger] self.free_list@[k] < self.capacity
    }

    /// A shard for a core on a node, with `capacity` empty slots, slot 0 handed out first.
    pub fn new(core_id: usize, numa_node: usize, capacity: usize) -> (s: Self)
        ensures
            s.wf(),
            s@ == (ShardV {
                core_id,
                numa_node,
                slots: Seq::new(capacity as nat, |i: int| None::<ConnV<S>>),
                free: crate::conn::initial_free(capacity as nat),
                allocated: 0,
                capacity: capacity as nat,
            }),
    {
        let mut slots: Vec<Option<ConnState<S>>> = Vec::new();
        let mut free_list: Vec<usize> = Vec::new();
        let mut i: usize = 0;
        while i < capacity
            invariant
                i <= capacity,
                slots@.len() == i,
                forall|k: int| 0 <= k < i ==> #[trigger] slots@[k] is None,
                free_list@ == crate::conn::initial_free(capacity as nat).take(i as int),
            decreases capacity - i,
        {
            slots.push(None);
            free_list.push(capacity - 1 - i);
            i = i + 1;
            assert(free_list@ =~= crate::conn::initial_free(capacity as nat).take(i as int));
        }
        assert(crate::conn::initial_free(capacity as nat).take(i as int) =~= crate::conn::initial_free(capacity as nat));
        let s = SlabShard { core_id, numa_node, slots, free_list, allocated: 0, capacity };
        assert(s@.slots =~= Seq::new(capacity as nat, |i: int| None::<ConnV<S>>));
        s
    }

    /// Hands out the next free slot (counting it), or `None` when none is free.
    pub fn allocate(&mut self) -> (res: Option<usize>)
        requires
            old(self).wf(),
        ensures
            final(self).wf(),
            old(self)@.free.len() == 0 ==> res is None && final(self)@ == old(self)@,
            old(self)@.free.len() > 0 ==> res == Some(old(self)@.free.last())
                && final(self)@ == allocated_shard(old(self)@),
    {
        match self.free_list.pop() {
            Some(idx) => {
                self.allocated = self.allocated.wrapping_add(1);
                Some(idx)
            },
            None => None,
        }
    }

    /// Gives slot `slot_idx` back: emptied, on the free stack, counted off; slots
    /// past the capacity are ignored.
    pub fn deallocate(&mut self, slot_idx: usize)
        requires
            old(self).wf(),
        ensures
            final(self).wf(),
            final(self)@ == if slot_idx < old(self)@.capacity {
                deallocated_shard(old(self)@, slot_idx)
            } else {
                old(self)@
            },
    {
        if slot_idx < self.capacity {
            self.slots.set(slot_idx, None);
            assert(self@.slots =~= old(self)@.slots.update(slot_idx as int, None));
            self.free_list.push(slot_idx);
            self.allocated = self.allocated.wrapping_sub(1);
        }
    }

    /// Puts a connection in slot `slot_idx`; `false` (the connection dropped) past the capacity.
    pub fn insert(&mut self, slot_idx: usize, conn: ConnState<S>) -> (ok: bool)
        requires
            old(self).wf(),
        ensures
            final(self).wf(),
            ok == (slot_idx < old(self)@.capacity),
            final(self)@ == if ok {
                ShardV { slots: old(self)@.slots.update(slot_idx as int, Some(conn@)), ..old(self)@ }
            } else {
                old(self)@
            },
    {
        if slot_idx < self.capacity {
            let ghost cv = conn@;
            self.slots.set(slot_idx, Some(conn));
            assert(self@.slots =~= old(self)@.slots.update(slot_idx as int, Some(cv)));
            true
        } else {
            false
        }
    }

    /// The connection in slot `slot_idx`, if the slot exists and is occupied.
    pub fn get(&self, slot_idx: usize) -> (res: Option<&ConnState<S>>)
        ensures
            if slot_idx < self@.slots.len() && self@.slots[slot_idx as int] is Some {
                res matches Some(c) && c@ == self@.slots[slot_idx as int]->0
            } else {
                res is None
            },
    {
        if slot_idx < self.slots.len() {
            assert(self@.slots[slot_idx as int] == slot_view(self.slots@[slot_idx as int]));
            match &self.slots[slot_idx] {
                Some(c) => Some(c),
                None => None,
            }
        } else {
            None
        }
    }

    /// The connection in slot `slot_idx`, if the slot exists and is occupied, to change in place.
    pub fn get_mut(&mut self, slot_idx: usize) -> (res: Option<&mut ConnState<S>>)
        ensures
            if slot_idx < old(self)@.slots.len() && old(self)@.slots[slot_idx as int] is Some {
                res matches Some(c) && c@ == old(self)@.slots[slot_idx as int]->0 && final(self)@ == (ShardV {
                    slots: old(self)@.slots.update(slot_idx as int, Some(final(c)@)),
                    ..old(self)@
                })
            } else {
                res is None && *final(self) == *old(self)
            },
            final(self).wf() == old(self).wf(),
    {
        if slot_idx < self.slots.len() && self.slots[slot_idx].is_some() {
            let ghost v = self.slots@;
            assert(self@.slots[slot_idx as int] == slot_view(v[slot_idx as int]));
            let r = self.slots[slot_idx].as_mut();
            proof {
                let c = r->0;
                assert(v.update(slot_idx as int, Some(*final(c))).map_values(|o: Option<ConnState<S>>| slot_view(o))
                    =~= v.map_values(|o: Option<ConnState<S>>| slot_view(o)).update(slot_idx as int, Some(final(c)@)));
            }
            r
        } else {
            None
        }
    }

    /// The allocation counter.
    pub fn len(&self) -> (n: usize)
        ensures
            n == self@.allocated,
    {
        self.allocated
    }

    /// Whether the allocation counter is zero.
    pub fn is_empty(&self) -> (b: bool)
        ensures
            b == (self@.allocated == 0),
    {
        self.allocated == 0
    }

    /// The number of slots.
    pub fn capacity(&self) -> (n: usize)
        ensures
            n == self@.capacity,
    {
        self.capacity
    }
}

/// The shards of every core, laid out by NUMA node.
pub struct ShardedSlabManager<S> {
    shards: Vec<SlabShard<S>>,
    num_shards: usize,
    numa_info: NumaInfo,
    capacity_per_shard: usize,
}

/// The sum of the shards' allocation counters.
pub open spec fn total_of<S>(s: Seq<ShardV<S>>) -> nat
    decreases s.len(),
{
    if s.len() == 0 { 0 } else { total_of(s.drop_last()) + s.last().allocated as nat }
}

/// The index of the first shard, among the first `n`, with the smallest counter
/// (0 when there is none).
pub open spec fn least_loaded_in<S>(s: Seq<ShardV<S>>, n: int) -> int
    decreases n,
{
    if n <= 1 {
        0
    } else {
        let k = least_loaded_in(s, n - 1);
        if s[n - 1].allocated < s[k].allocated { n - 1 } else { k }
    }
}

/// The index of the first shard, among the first `n`, on `node` with the smallest
/// counter, if any shard is on that node.
pub open spec fn least_loaded_on<S>(s: Seq<ShardV<S>>, node: usize, n: int) -> Option<int>
    decreases n,
{
    if n <= 0 {
        None
    } else {
        let r = least_loaded_on(s, node, n - 1);
        if s[n - 1].numa_node != node {
            r
        } else {
            match r {
                None => Some(n - 1),
                Some(k) => if s[n - 1].allocated < s[k].allocated { Some(n - 1) } else { Some(k) },
            }
        }
    }
}

proof fn lemma_least_loaded_range<S>(s: Seq<ShardV<S>>, n: int)
    requires
        n >= 1,
    ensures
        0 <= least_loaded_in(s, n) < n,
    decreases n,
{
    if n > 1 {
        lemma_least_loaded_range(s, n - 1);
    }
}

proof fn lemma_least_loaded_on_range<S>(s: Seq<ShardV<S>>, node: usize, n: int)
    ensures
        least_loaded_on(s, node, n) matches Some(k) ==> 0 <= k < n && s[k].numa_node == node,
    decreases n,
{
    if n > 0 {
        lemma_least_loaded_on_range(s, node, n - 1);
    }
}

impl<S> ShardedSlabManager<S> {
    /// The shards, by core id.
    pub closed spec fn shards(&self) -> Seq<ShardV<S>> {
        shard_views(self.shards@)
    }

    /// Every shard is well formed, and there are `num_shards` of them.
    pub closed spec fn wf(&self) -> bool {
        &&& self.shards@.len() == self.num_shards
        &&& forall|i: int| 0 <= i < self.shards@.len() ==> (#[trigger] self.shards@[i]).wf()
    }

    /// The NUMA layout the shards follow.
    pub closed spec fn layout(&self) -> NumaInfo {
        self.numa_info
    }

    /// A manager of `num_shards` shards of `capacity_per_shard` slots each; shard
    /// `c` belongs to core `c` and sits on that core's node in `numa_info`.
    pub fn with_numa(num_shards: usize, capacity_per_shard: usize, numa_info: NumaInfo) -> (m: Self)
        ensures
            m.wf(),
            m.layout() == numa_info,
            m.shards().len() == num_shards,
            forall|c: int| 0 <= c < num_shards ==> #[trigger] m.shards()[c] == (ShardV {
                core_id: c as usize,
                numa_node: if c < numa_info.node_map().len() { numa_info.node_map()[c] } else { 0 },
                slots: Seq::new(capacity_per_shard as nat, |i: int| None::<ConnV<S>>),
                free: crate::conn::initial_free(capacity_per_shard as nat),
                allocated: 0,
                capacity: capacity_per_shard as nat,
            }),
    {
        let mut shards: Vec<SlabShard<S>> = Vec::new();
        let mut c: usize = 0;
        while c < num_shards
            invariant
                c <= num_shards,
                shards@.len() == c,
                forall|i: int| 0 <= i < c ==> (#[trigger] shards@[i]).wf(),
                forall|i: int| 0 <= i < c ==> #[trigger] shards@[i]@ == (ShardV {
                    core_id: i as usize,
                    numa_node: if i < numa_info.node_map().len() { numa_info.node_map()[i] } else { 0 },
                    slots: Seq::new(capacity_per_shard as nat, |j: int| None::<ConnV<S>>),
                    free: crate::conn::initial_free(capacity_per_shard as nat),
                    allocated: 0,
                    capacity: capacity_per_shard as nat,
                }),
            decreases num_shards - c,
        {
            let node = numa_info.node_for_core(c);
            shards.push(SlabShard::new(c, node, capacity_per_shard));
            c = c + 1;
        }
        let m = ShardedSlabManager { shards, num_shards, numa_info, capacity_per_shard };
        assert forall|c: int| 0 <= c < num_shards implies #[trigger] m.shards()[c] == m.shards@[c]@ by {}
        m
    }

    /// The shard of a core, if there is one.
    pub fn get_shard(&self, core_id: usize) -> (res: Option<&SlabShard<S>>)
        ensures
            if core_id < self.shards().len() {
                res matches Some(s) && s@ == self.shards()[core_id as int]
            } else {
                res is None
            },
    {
        if core_id < self.shards.len() {
            Some(&self.shards[core_id])
        } else {
            None
        }
    }

    /// The shard of a core, if there is one, to change in place.
    pub fn get_shard_mut(&mut self, core_id: usize) -> (res: Option<&mut SlabShard<S>>)
        requires
            old(self).wf(),
        ensures
            if core_id < old(self).shards().len() {
                res matches Some(s) && s@ == old(self).shards()[core_id as int] && s.wf()
                    && final(self).shards() == old(self).shards().update(core_id as int, final(s)@)
                    && (final(s).wf() ==> final(self).wf())
                    && final(self).layout() == old(self).layout()
            } else {
                res is None && *final(self) == *old(self)
            },
    {
        if core_id < self.shards.len() {
            proof { lemma_shards_update(self.shards@); }
            let r = vstd::std_specs::vec::vec_index_mut(&mut self.shards, core_id);
            Some(r)
        } else {
            None
        }
    }

    /// Stores a connection on a core's shard: the slot is allocated and filled,
    /// and (core, slot) returned; `None` (the connection dropped) for an unknown
    /// core or a full shard.
    pub fn allocate(&mut self, core_id: usize, conn: ConnState<S>) -> (res: Option<(usize, usize)>)
        requires
            old(self).wf(),
        ensures
            final(self).wf(),
            final(self).layout() == old(self).layout(),
            if core_id < old(self).shards().len() && old(self).shards()[core_id as int].free.len() > 0 {
                let s = old(self).shards()[core_id as int];
                let slot = s.free.last();
                &&& res == Some((core_id, slot))
                &&& final(self).shards() == old(self).shards().update(core_id as int, ShardV {
                    slots: s.slots.update(slot as int, Some(conn@)),
                    free: s.free.drop_last(),
                    allocated: inc_usize(s.allocated),
                    ..s
                })
            } else {
                res is None && final(self).shards() == old(self).shards()
            },
    {
        if core_id >= self.shards.len() {
            return None;
        }
        assert(self.shards@[core_id as int].wf());
        proof { lemma_shards_update(self.shards@); }
        let shard = vstd::std_specs::vec::vec_index_mut(&mut self.shards, core_id);
        match shard.allocate() {
            Some(slot_idx) => {
                shard.insert(slot_idx, conn);
                Some((core_id, slot_idx))
            },
            None => None,
        }
    }

    /// Gives back a slot on a core's shard (see `SlabShard::deallocate`); unknown
    /// cores are ignored.
    pub fn deallocate(&mut self, core_id: usize, slot_idx: usize)
        requires
            old(self).wf(),
        ensures
            final(self).wf(),
            final(self).layout() == old(self).layout(),
            final(self).shards() == if core_id < old(self).shards().len() {
                let s = old(self).shards()[core_id as int];
                old(self).shards().update(core_id as int, if slot_idx < s.capacity {
                    ShardV {
                        slots: s.slots.update(slot_idx as int, None),
                        free: s.free.push(slot_idx),
                        allocated: dec_usize(s.allocated),
                        ..s
                    }
                } else {
                    s
                })
            } else {
                old(self).shards()
            },
    {
        if core_id < self.shards.len() {
            assert(self.shards@[core_id as int].wf());
            proof { lemma_shards_update(self.shards@); }
            let shard = vstd::std_specs::vec::vec_index_mut(&mut self.shards, core_id);
            shard.deallocate(slot_idx);
        }
    }

    /// The connection in a core's slot, if there is one.
    pub fn get(&self, core_id: usize, slot_idx: usize) -> (res: Option<&ConnState<S>>)
        ensures
            if core_id < self.shards().len() && slot_idx < self.shards()[core_id as int].slots.len()
                && self.shards()[core_id as int].slots[slot_idx as int] is Some {
                res matches Some(c) && c@ == self.shards()[core_id as int].slots[slot_idx as int]->0
            } else {
                res is None
            },
    {
        if core_id < self.shards.len() {
            self.shards[core_id].get(slot_idx)
        } else {
            None
        }
    }

    /// The connection in a core's slot, if there is one, to change in place.
    pub fn get_mut(&mut self, core_id: usize, slot_idx: usize) -> (res: Option<&mut ConnState<S>>)
        requires
            old(self).wf(),
        ensures
            final(self).wf(),
            final(self).layout() == old(self).layout(),
            if core_id < old(self).shards().len() && slot_idx < old(self).shards()[core_id as int].slots.len()
                && old(self).shards()[core_id as int].slots[slot_idx as int] is Some {
                let s = old(self).shards()[core_id as int];
                res matches Some(c) && c@ == s.slots[slot_idx as int]->0 && final(self).shards()
                    == old(self).shards().update(core_id as int, ShardV {
                        slots: s.slots.update(slot_idx as int, Some(final(c)@)),
                        ..s
                    })
            } else {
                res is None && final(self).shards() == old(self).shards()
            },
    {
        if core_id < self.shards.len() {
            assert(self.shards@[core_id as int].wf());
            proof { lemma_shards_update(self.shards@); }
            let shard = vstd::std_specs::vec::vec_index_mut(&mut self.shards, core_id);
            shard.get_mut(slot_idx)
        } else {
            None
        }
    }

    /// The sum of the shards' allocation counters.
    pub fn total_allocated(&self) -> (n: usize)
        requires
            total_of(self.shards()) <= usize::MAX,
        ensures
            n == total_of(self.shards()),
    {
        let mut n: usize = 0;
        let mut i: usize = 0;
        while i < self.shards.len()
            invariant
                i <= self.shards@.len(),
                total_of(self.shards()) <= usize::MAX,
                n == total_of(self.shards().take(i as int)),
            decreases self.shards@.len() - i,
        {
            proof {
                let t = self.shards().take(i + 1);
                assert(t.drop_last() =~= self.shards().take(i as int));
                lemma_total_prefix(self.shards(), i + 1);
            }
            n = n + self.shards[i].len();
            i = i + 1;
        }
        assert(self.shards().take(i as int) =~= self.shards());
        n
    }

    /// The number of shards.
    pub fn num_shards(&self) -> (n: usize)
        requires
            self.wf(),
        ensures
            n == self.shards().len(),
    {
        self.num_shards
    }

    /// The NUMA layout.
    pub fn numa_info(&self) -> (info: &NumaInfo)
        ensures
            *info == self.layout(),
    {
        &self.numa_info
    }

    /// The core whose shard has the smallest counter, the first such one (0 when
    /// there are no shards).
    pub fn least_loaded_core(&self) -> (core: usize)
        ensures
            core == least_loaded_in(self.shards(), self.shards().len() as int),
    {
        if self.shards.len() == 0 {
            return 0;
        }
        let mut best: usize = 0;
        let mut i: usize = 1;
        while i < self.shards.len()
            invariant
                1 <= i <= self.shards@.len(),
                best == least_loaded_in(self.shards(), i as int),
                best < i,
            decreases self.shards@.len() - i,
        {
            proof { lemma_least_loaded_range(self.shards(), i as int); }
            if self.shards[i].len() < self.shards[best].len() {
                best = i;
            }
            i = i + 1;
        }
        best
    }

    /// The core on `numa_node` whose shard has the smallest counter, the first such
    /// one, if any shard is on that node.
    pub fn least_loaded_core_on_node(&self, numa_node: usize) -> (core: Option<usize>)
        ensures
            match least_loaded_on(self.shards(), numa_node, self.shards().len() as int) {
                Some(k) => core == Some(k as usize),
                None => core is None,
            },
    {
        let mut best: Option<usize> = None;
        let mut i: usize = 0;
        while i < self.shards.len()
            invariant
                i <= self.shards@.len(),
                match least_loaded_on(self.shards(), numa_node, i as int) {
                    Some(k) => best == Some(k as usize) && k < i,
                    None => best is None,
                },
            decreases self.shards@.len() - i,
        {
            proof { lemma_least_loaded_on_range(self.shards(), numa_node, i as int); }
            if self.shards[i].numa_node == numa_node {
                best = match best {
                    None => Some(i),
                    Some(k) => if self.shards[i].len() < self.shards[k].len() { Some(i) } else { Some(k) },
                };
            }
            i = i + 1;
        }
        best
    }
}

/// The shards by their views.
pub open spec fn shard_views<S>(v: Seq<SlabShard<S>>) -> Seq<ShardV<S>> {
    v.map_values(|s: SlabShard<S>| s@)
}

proof fn lemma_shards_update<S>(v: Seq<SlabShard<S>>)
    ensures
        forall|i: int, x: SlabShard<S>| 0 <= i < v.len() ==> #[trigger] shard_views(v.update(i, x))
            == shard_views(v).update(i, x@),
        forall|i: int| 0 <= i < v.len() ==> #[trigger] shard_views(v).update(i, v[i]@) == shard_views(v),
{
    assert forall|i: int, x: SlabShard<S>| 0 <= i < v.len() implies #[trigger] shard_views(v.update(i, x))
        == shard_views(v).update(i, x@) by {
        assert(shard_views(v.update(i, x)) =~= shard_views(v).update(i, x@));
    }
    assert forall|i: int| 0 <= i < v.len() implies #[trigger] shard_views(v).update(i, v[i]@) == shard_views(v) by {
        assert(shard_views(v).update(i, v[i]@) =~= shard_views(v));
    }
}

proof fn lemma_total_prefix<S>(s: Seq<ShardV<S>>, k: int)
    requires
        0 <= k <= s.len(),
    ensures
        total_of(s.take(k)) <= total_of(s),
    decreases s.len() - k,
{
    if k < s.len() {
        lemma_total_prefix(s, k + 1);
        assert(s.take(k + 1).drop_last() =~= s.take(k));
    } else {
        assert(s.take(k) =~= s);
    }
}

/// The shard after `allocate` hands out its next free slot.
pub open spec fn allocated_shard<S>(v: ShardV<S>) -> ShardV<S> {
    ShardV { free: v.free.drop_last(), allocated: inc_usize(v.allocated), ..v }
}

/// The shard after `deallocate` gives slot `slot` (within the capacity) back.
pub open spec fn deallocated_shard<S>(v: ShardV<S>, slot: usize) -> ShardV<S> {
    ShardV { slots: v.slots.update(slot as int, None), free: v.free.push(slot), allocated: dec_usize(v.allocated), ..v }
}

/// Giving back the slot just handed out, unused, undoes the allocation: the
/// free stack and the counter are as before.
pub proof fn law_deallocate_undoes_allocate<S>(v: ShardV<S>)
    requires
        v.free.len() > 0,
        v.free.last() < v.capacity,
        v.slots.len() == v.capacity,
        v.slots[v.free.last() as int] is None,
    ensures
        deallocated_shard(allocated_shard(v), v.free.last()) == v,
{
    let a = allocated_shard(v);
    let d = deallocated_shard(a, v.free.last());
    assert(d.free =~= v.free);
    assert(d.slots =~= v.slots);
}

} // verus!
