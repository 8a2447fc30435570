//! Connection identifiers, per-connection state and the connection slab.
//!
//! The state is generic over the stream type `S` that carries the bytes: the
//! library never reads or writes the stream itself.
use vstd::prelude::*;
use bytes::BytesMut;
use std::time::Instant;
use crate::buf::{bytes_mut_view, bm_with_capacity, bm_clear};
use crate::clock::instant_now;

verus! {

/// Index of a connection in the slab.
#[derive(Debug, Copy, Clone, PartialEq, Eq, Hash, Structural)]
pub struct ConnId(pub usize);

/// Where a connection is in its request/response cycle.
#[derive(Debug, Clone, Copy, PartialEq, Eq, Structural)]
pub enum ConnLifecycle {
    WaitingForRequest,
    Parsing,
    Routed,
    Processing,
    Sending,
    Closed,
}

/// The handler a request was routed to.
#[derive(Debug, Clone, Copy, PartialEq, Eq, Structural)]
pub struct RouteId(pub usize);

/// The state of one connection.
pub struct ConnState<S> {
    pub read_buf: BytesMut,
    pub write_buf: BytesMut,
    pub state: ConnLifecycle,
    pub route_id: Option<RouteId>,
    pub request_method: Option<String>,
    pub request_path: Option<String>,
    pub created_at: Instant,
    pub stream: Option<S>,
    /// Bytes of `write_buf` already sent.
    pub bytes_written: usize,
}

/// A connection state as the contracts see it: buffers and strings by their contents.
pub struct ConnV<S> {
    pub read_buf: Seq<u8>,
    pub write_buf: Seq<u8>,
    pub state: ConnLifecycle,
    pub route_id: Option<RouteId>,
    pub request_method: Option<Seq<char>>,
    pub request_path: Option<Seq<char>>,
    pub created_at: Instant,
    pub stream: Option<S>,
    pub bytes_written: usize,
}

/// An optional string by its contents.
pub open spec fn opt_text(s: Option<String>) -> Option<Seq<char>> {
    match s {
        Some(t) => Some(t@),
        None => None,
    }
}

impl<S> ConnState<S> {
    /// The state, with buffers and strings taken by their contents.
    pub open spec fn view(&self) -> ConnV<S> {
        ConnV {
            read_buf: bytes_mut_view(self.read_buf),
            write_buf: bytes_mut_view(self.write_buf),
            state: self.state,
            route_id: self.route_id,
            request_method: opt_text(self.request_method),
            request_path: opt_text(self.request_path),
            created_at: self.created_at,
            stream: self.stream,
            bytes_written: self.bytes_written,
        }
    }
}

/// A slot by its connection's view.
pub open spec fn slot_view<S>(o: Option<ConnState<S>>) -> Option<ConnV<S>> {
    match o {
        Some(c) => Some(c@),
        None => None,
    }
}

/// A connection state as it is when fresh or reset: empty buffers, waiting for a
/// request, nothing parsed or routed, nothing written.
pub open spec fn is_fresh<S>(c: ConnV<S>) -> bool {
    &&& c.read_buf == Seq::<u8>::empty()
    &&& c.write_buf == Seq::<u8>::empty()
    &&& c.state == ConnLifecycle::WaitingForRequest
    &&& c.route_id is None
    &&& c.request_method is None
    &&& c.request_path is None
    &&& c.bytes_written == 0
}

impl<S> ConnState<S> {
    /// A fresh connection on `stream`, created now.
    pub fn new(stream: S) -> (c: Self)
        ensures
            is_fresh(c@),
            c.stream == Some(stream),
    {
        ConnState {
            read_buf: bm_with_capacity(4096),
            write_buf: bm_with_capacity(4096),
            state: ConnLifecycle::WaitingForRequest,
            route_id: None,
            request_method: None,
            request_path: None,
            created_at: instant_now(),
            stream: Some(stream),
            bytes_written: 0,
        }
    }

    /// Makes the state fresh again, without a stream, created now.
    pub fn reset(&mut self)
        ensures
            is_fresh(final(self)@),
            final(self).stream is None,
    {
        bm_clear(&mut self.read_buf);
        bm_clear(&mut self.write_buf);
        self.state = ConnLifecycle::WaitingForRequest;
        self.route_id = None;
        self.request_method = None;
        self.request_path = None;
        self.created_at = instant_now();
        self.stream = None;
        self.bytes_written = 0;
    }
}

/// Fixed storage for connections: a slot per connection id, and a stack of free slots.
pub struct ConnSlab<S> {
    slots: Vec<Option<ConnState<S>>>,
    free_list: Vec<usize>,
    capacity: usize,
}

/// A slab as the contracts see it.
pub struct SlabV<S> {
    pub slots: Seq<Option<ConnV<S>>>,
    /// Free slots; the last one is handed out next.
    pub free: Seq<usize>,
    pub capacity: nat,
}

/// The free stack of a new slab: every slot, highest first, so that slot 0 is handed out first.
pub open spec fn initial_free(capacity: nat) -> Seq<usize> {
    Seq::new(capacity, |i: int| (capacity - 1 - i) as usize)
}

/// A slab whose free stack is exactly its empty slots, each once.
pub open spec fn healthy<S>(v: SlabV<S>) -> bool {
    &&& v.capacity <= usize::MAX
    &&& v.slots.len() == v.capacity
    &&& v.free.no_duplicates()
    &&& forall|k: int| 0 <= k < v.free.len() ==> (#[trigger] v.free[k]) < v.capacity && v.slots[v.free[k] as int] is None
    &&& forall|i: int| 0 <= i < v.capacity && (#[trigger] v.slots[i]) is None ==> v.free.contains(i as usize)
}

impl<S> ConnSlab<S> {
    /// The slab's slots, free stack and capacity.
    pub closed spec fn view(&self) -> SlabV<S> {
        SlabV {
            slots: self.slots@.map_values(|o: Option<ConnState<S>>| slot_view(o)),
            free: self.free_list@,
            capacity: self.capacity as nat,
        }
    }

    /// The slots are as many as the capacity, and every free slot is one of them.
    pub closed spec fn wf(&self) -> bool {
        &&& self.slots@.len() == self.capacity
        &&& forall|k: int| 0 <= k < self.free_list@.len() ==> #[trigger] self.free_list@[k] < self.capacity
    }

    /// A well-formed slab has a slot per unit of capacity, and only those on its free stack.
    pub proof fn lemma_wf(&self)
        requires
            self.wf(),
        ensures
            self@.slots.len() == self@.capacity,
            forall|k: int| 0 <= k < self@.free.len() ==> #[trigger] self@.free[k] < self@.capacity,
    {
    }

    /// A slab of `capacity` empty slots.
    pub fn new(capacity: usize) -> (s: Self)
        ensures
            s.wf(),
            s@.capacity == capacity,
            s@.slots == Seq::new(capacity as nat, |i: int| None::<ConnV<S>>),
            s@.free == initial_free(capacity as nat),
    {
        let mut slots: Vec<Option<ConnState<S>>> = Vec::with_capacity(capacity);
        let mut free_list: Vec<usize> = Vec::with_capacity(capacity);
        let mut i: usize = 0;
        while i < capacity
            invariant
                i <= capacity,
                slots@ == Seq::new(i as nat, |k: int| None::<ConnState<S>>),
                free_list@ == initial_free(capacity as nat).take(i as int),
            decreases capacity - i,
        {
            slots.push(None);
            free_list.push(capacity - 1 - i);
            i = i + 1;
            assert(slots@ =~= Seq::new(i as nat, |k: int| None::<ConnState<S>>));
            assert(free_list@ =~= initial_free(capacity as nat).take(i as int));
        }
        assert(initial_free(capacity as nat).take(i as int) =~= initial_free(capacity as nat));
        let s = ConnSlab { slots, free_list, capacity };
        assert(s@.slots =~= Seq::new(capacity as nat, |i: int| None::<ConnV<S>>));
        s
    }

    /// Stores a connection in the next free slot and returns its id; with no free
    /// slot the connection is dropped and `None` returned.
    pub fn insert(&mut self, conn: ConnState<S>) -> (res: Option<ConnId>)
        requires
            old(self).wf(),
        ensures
            final(self).wf(),
            old(self)@.free.len() == 0 ==> res is None && final(self)@ == old(self)@,
            old(self)@.free.len() > 0 ==> ({
                let idx = old(self)@.free.last();
                &&& res == Some(ConnId(idx))
                &&& final(self)@ == (SlabV {
                    slots: old(self)@.slots.update(idx as int, Some(conn@)),
                    free: old(self)@.free.drop_last(),
                    capacity: old(self)@.capacity,
                })
            }),
    {
        match self.free_list.pop() {
            Some(idx) => {
                assert(old(self)@.free[old(self)@.free.len() - 1] == idx);
                let ghost v = self.slots@;
                let ghost cv = conn@;
                self.slots.set(idx, Some(conn));
                assert(self@.slots =~= old(self)@.slots.update(idx as int, Some(cv)));
                Some(ConnId(idx))
            },
            None => None,
        }
    }

    /// The connection in slot `id`, if the slot exists and is occupied.
    pub fn get(&self, id: ConnId) -> (res: Option<&ConnState<S>>)
        ensures
            if id.0 < self@.slots.len() && self@.slots[id.0 as int] is Some {
                res matches Some(c) && c@ == self@.slots[id.0 as int]->0
            } else {
                res is None
            },
    {
        if id.0 < self.slots.len() {
            assert(self@.slots[id.0 as int] == slot_view(self.slots@[id.0 as int]));
            match &self.slots[id.0] {
                Some(c) => Some(c),
                None => None,
            }
        } else {
            None
        }
    }

    /// The connection in slot `id`, if the slot exists and is occupied, to change in place.
    pub fn get_mut(&mut self, id: ConnId) -> (res: Option<&mut ConnState<S>>)
        ensures
            if id.0 < old(self)@.slots.len() && old(self)@.slots[id.0 as int] is Some {
                res matches Some(c) && c@ == old(self)@.slots[id.0 as int]->0 && final(self)@ == (SlabV {
                    slots: old(self)@.slots.update(id.0 as int, Some(final(c)@)),
                    ..old(self)@
                })
            } else {
                res is None && *final(self) == *old(self)
            },
            final(self).wf() == old(self).wf(),
    {
        if id.0 < self.slots.len() && self.slots[id.0].is_some() {
            let ghost v = self.slots@;
            assert(self@.slots[id.0 as int] == slot_view(v[id.0 as int]));
            let r = self.slots[id.0].as_mut();
            proof {
                let c = r->0;
                assert(v.update(id.0 as int, Some(*final(c))).map_values(|o: Option<ConnState<S>>| slot_view(o))
                    =~= v.map_values(|o: Option<ConnState<S>>| slot_view(o)).update(id.0 as int, Some(final(c)@)));
            }
            r
        } else {
            None
        }
    }

    /// Empties slot `id` and puts it on the free stack; ids past the capacity are
    /// ignored. (An already free slot goes on the stack again.)
    pub fn remove(&mut self, id: ConnId)
        requires
            old(self).wf(),
        ensures
            final(self).wf(),
            final(self)@ == if id.0 < old(self)@.capacity {
                SlabV {
                    slots: old(self)@.slots.update(id.0 as int, None),
                    free: old(self)@.free.push(id.0),
                    capacity: old(self)@.capacity,
                }
            } else {
                old(self)@
            },
    {
        if id.0 < self.capacity {
            let ghost v = self.slots@;
            self.slots.set(id.0, None);
            assert(self@.slots =~= old(self)@.slots.update(id.0 as int, None));
            self.free_list.push(id.0);
        }
    }

    /// The number of free slots.
    pub fn vacant_count(&self) -> (n: usize)
        ensures
            n == self@.free.len(),
    {
        self.free_list.len()
    }

    /// The number of slots not on the free stack.
    pub fn active_count(&self) -> (n: usize)
        requires
            self@.free.len() <= self@.capacity,
        ensures
            n == self@.capacity - self@.free.len(),
    {
        self.capacity - self.free_list.len()
    }
}

/// The number of live connections in `slots`.
pub open spec fn occupied_count<S>(slots: Seq<Option<ConnV<S>>>) -> nat
    decreases slots.len(),
{
    if slots.len() == 0 {
        0
    } else {
        occupied_count(slots.drop_last()) + if slots.last() is Some { 1nat } else { 0nat }
    }
}

/// The ids of the empty slots.
pub open spec fn empty_ids<S>(slots: Seq<Option<ConnV<S>>>) -> Set<usize> {
    Set::new(|i: usize| i < slots.len() && slots[i as int] is None)
}

proof fn lemma_empty_ids_count<S>(slots: Seq<Option<ConnV<S>>>)
    requires
        slots.len() <= usize::MAX,
    ensures
        empty_ids(slots).finite(),
        empty_ids(slots).len() + occupied_count(slots) == slots.len(),
    decreases slots.len(),
{
    if slots.len() == 0 {
        assert(empty_ids(slots) =~= Set::<usize>::empty());
    } else {
        let r = slots.drop_last();
        let n = (slots.len() - 1) as usize;
        lemma_empty_ids_count(r);
        assert(!empty_ids(r).contains(n));
        if slots.last() is None {
            assert(empty_ids(slots) =~= empty_ids(r).insert(n));
        } else {
            assert(empty_ids(slots) =~= empty_ids(r));
        }
    }
}

/// In a healthy slab the slots off the free stack are exactly the live
/// connections: `active_count` counts them.
pub proof fn law_active_counts_live<S>(v: SlabV<S>)
    requires
        healthy(v),
    ensures
        v.free.len() <= v.capacity,
        v.capacity - v.free.len() == occupied_count(v.slots),
{
    v.free.unique_seq_to_set();
    lemma_empty_ids_count(v.slots);
    assert forall|x: usize| v.free.to_set().contains(x) <==> empty_ids(v.slots).contains(x) by {
        if v.free.contains(x) {
            let k = choose|k: int| 0 <= k < v.free.len() && v.free[k] == x;
            assert(v.free[k] < v.capacity);
        }
        if empty_ids(v.slots).contains(x) {
            assert(v.slots[x as int] is None);
        }
    }
    assert(v.free.to_set() =~= empty_ids(v.slots));
}

/// A new slab is healthy: every slot empty and on the free stack once.
pub proof fn law_new_slab_healthy<S>(capacity: nat)
    requires
        capacity <= usize::MAX,
    ensures
        healthy(SlabV { slots: Seq::new(capacity, |i: int| None::<ConnV<S>>), free: initial_free(capacity), capacity }),
{
    let v = SlabV { slots: Seq::new(capacity, |i: int| None::<ConnV<S>>), free: initial_free(capacity), capacity };
    assert forall|i: int| 0 <= i < capacity && (#[trigger] v.slots[i]) is None implies v.free.contains(i as usize) by {
        assert(v.free[capacity - 1 - i] == i as usize);
    }
    assert forall|a: int, b: int| 0 <= a < v.free.len() && 0 <= b < v.free.len() && a != b implies
        v.free[a] != v.free[b] by {
    }
}

/// In a healthy slab the slot an insert hands out is empty: no live connection is
/// overwritten.
pub proof fn law_insert_takes_empty_slot<S>(v: SlabV<S>)
    requires
        healthy(v),
        v.free.len() > 0,
    ensures
        v.slots[v.free.last() as int] is None,
{
    assert(v.free.last() == v.free[v.free.len() - 1]);
}

/// Inserting into a healthy slab keeps it healthy.
pub proof fn law_insert_keeps_healthy<S>(v: SlabV<S>, conn: ConnV<S>)
    requires
        healthy(v),
        v.free.len() > 0,
    ensures
        healthy(SlabV {
            slots: v.slots.update(v.free.last() as int, Some(conn)),
            free: v.free.drop_last(),
            capacity: v.capacity,
        }),
{
    let n = v.free.len() - 1;
    let idx = v.free[n];
    let w = SlabV { slots: v.slots.update(idx as int, Some(conn)), free: v.free.drop_last(), capacity: v.capacity };
    assert forall|k: int| 0 <= k < w.free.len() implies (#[trigger] w.free[k]) < w.capacity
        && w.slots[w.free[k] as int] is None by {
        assert(v.free[k] != v.free[n]);
    }
    assert forall|i: int| 0 <= i < w.capacity && (#[trigger] w.slots[i]) is None implies w.free.contains(i as usize) by {
        assert(i != idx);
        assert(v.slots[i] is None);
        let j = choose|j: int| 0 <= j < v.free.len() && v.free[j] == i as usize;
        assert(j != n);
        assert(w.free[j] == i as usize);
    }
}

/// Removing an occupied connection from a healthy slab keeps it healthy. (Removing
/// an id whose slot is already free puts it on the free stack twice.)
pub proof fn law_remove_keeps_healthy<S>(v: SlabV<S>, id: ConnId)
    requires
        healthy(v),
        id.0 < v.capacity,
        v.slots[id.0 as int] is Some,
    ensures
        healthy(SlabV { slots: v.slots.update(id.0 as int, None), free: v.free.push(id.0), capacity: v.capacity }),
{
    let w = SlabV { slots: v.slots.update(id.0 as int, None), free: v.free.push(id.0), capacity: v.capacity };
    assert forall|k: int| 0 <= k < v.free.len() implies #[trigger] v.free[k] != id.0 by {
        assert(v.slots[v.free[k] as int] is None);
    }
    assert forall|a: int, b: int| 0 <= a < w.free.len() && 0 <= b < w.free.len() && a != b implies
        w.free[a] != w.free[b] by {
        if a < v.free.len() && b < v.free.len() {
            assert(v.free[a] != v.free[b]);
        } else if a < v.free.len() {
            assert(v.free[a] != id.0);
        } else {
            assert(v.free[b] != id.0);
        }
    }
    assert forall|k: int| 0 <= k < w.free.len() implies (#[trigger] w.free[k]) < w.capacity
        && w.slots[w.free[k] as int] is None by {
        if k < v.free.len() {
            assert(w.free[k] == v.free[k]);
            assert(v.free[k] != id.0);
        }
    }
    assert forall|i: int| 0 <= i < w.capacity && (#[trigger] w.slots[i]) is None implies w.free.contains(i as usize) by {
        if i == id.0 {
            assert(w.free[v.free.len() as int] == id.0);
        } else {
            assert(v.slots[i] is None);
            let j = choose|j: int| 0 <= j < v.free.len() && v.free[j] == i as usize;
            assert(w.free[j] == i as usize);
        }
    }
}

} // verus!
