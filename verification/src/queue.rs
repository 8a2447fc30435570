//! Bounded ring buffer for passing connection ids between pipeline stages.
//!
//! One slot is always left unused, so a queue made with capacity `n` holds
//! at most `n - 1` ids. A slot holding `usize::MAX` reads back as "nothing":
//! popping it consumes the slot and yields `None`.
use vstd::prelude::*;
use crate::conn::ConnId;

verus! {

/// A bounded ring buffer of connection ids.
pub struct RingQueue {
    buffer: Vec<usize>,
    capacity: usize,
    head: usize,
    tail: usize,
}

/// Contents after a push onto a queue holding `contents` (a full queue is left as it is).
pub open spec fn after_push(contents: Seq<usize>, capacity: nat, id: usize) -> Seq<usize> {
    if contents.len() + 1 >= capacity { contents } else { contents.push(id) }
}

/// Whether a push onto a queue holding `contents` is refused.
pub open spec fn push_refused(contents: Seq<usize>, capacity: nat) -> bool {
    contents.len() + 1 >= capacity
}

/// Contents after a pop.
pub open spec fn after_pop(contents: Seq<usize>) -> Seq<usize> {
    if contents.len() == 0 { contents } else { contents.drop_first() }
}

/// What a pop returns.
pub open spec fn popped(contents: Seq<usize>) -> Option<ConnId> {
    if contents.len() == 0 || contents[0] == usize::MAX { None } else { Some(ConnId(contents[0])) }
}

/// An index one lap past the end of the ring comes back to the start.
pub open spec fn wrap(j: int, capacity: int) -> int {
    if j < capacity { j } else { j - capacity }
}

proof fn lemma_mod_step(x: int, m: int)
    requires
        0 <= x < m,
    ensures
        (x + 1) % m == if x + 1 == m { 0 } else { x + 1 },
{
    if x + 1 == m {
        vstd::arithmetic::div_mod::lemma_mod_self_0(m);
    } else {
        vstd::arithmetic::div_mod::lemma_small_mod((x + 1) as nat, m as nat);
    }
}

impl RingQueue {
    /// Number of ids held, computed from the two indices.
    pub closed spec fn spec_len(&self) -> nat {
        if self.tail >= self.head {
            (self.tail - self.head) as nat
        } else {
            (self.capacity - self.head + self.tail) as nat
        }
    }

    /// The ids held, oldest first.
    pub closed spec fn view(&self) -> Seq<usize> {
        Seq::new(self.spec_len(), |i: int| self.buffer@[wrap(self.head + i, self.capacity as int)])
    }

    /// The capacity the queue was made with.
    pub closed spec fn spec_capacity(&self) -> nat {
        self.capacity as nat
    }

    /// The ring's indices stay inside the buffer.
    pub closed spec fn wf(&self) -> bool {
        &&& self.buffer@.len() == self.capacity
        &&& if self.capacity == 0 { self.head == 0 && self.tail == 0 } else {
            self.head < self.capacity && self.tail < self.capacity
        }
    }

    proof fn lemma_len_bound(&self)
        requires
            self.wf(),
        ensures
            self.capacity > 0 ==> self.spec_len() < self.capacity,
            self.view().len() == self.spec_len(),
    {
    }

    /// A queue holds fewer ids than its capacity (one slot always stays unused),
    /// and a queue of capacity 0 holds none.
    pub proof fn law_len_below_capacity(&self)
        requires
            self.wf(),
        ensures
            self.spec_capacity() > 0 ==> self.view().len() < self.spec_capacity(),
            self.spec_capacity() == 0 ==> self.view().len() == 0,
    {
        self.lemma_len_bound();
    }

    /// Creates a queue with the given capacity; it holds nothing.
    pub fn new(capacity: usize) -> (q: Self)
        ensures
            q.wf(),
            q.view() == Seq::<usize>::empty(),
            q.spec_capacity() == capacity,
    {
        let mut buffer: Vec<usize> = Vec::with_capacity(capacity);
        let mut i: usize = 0;
        while i < capacity
            invariant
                i <= capacity,
                buffer@.len() == i,
            decreases capacity - i,
        {
            buffer.push(usize::MAX);
            i = i + 1;
        }
        let q = RingQueue { buffer, capacity, head: 0, tail: 0 };
        assert(q.view() =~= Seq::<usize>::empty());
        q
    }

    /// Pushes an id; a full queue refuses it and hands it back.
    pub fn push(&mut self, id: ConnId) -> (res: Result<(), ConnId>)
        requires
            old(self).wf(),
            old(self).spec_capacity() > 0,
        ensures
            final(self).wf(),
            final(self).spec_capacity() == old(self).spec_capacity(),
            final(self).view() == after_push(old(self).view(), old(self).spec_capacity(), id.0),
            res == if push_refused(old(self).view(), old(self).spec_capacity()) {
                Err::<(), ConnId>(id)
            } else {
                Ok::<(), ConnId>(())
            },
    {
        proof { self.lemma_len_bound(); }
        let tail = self.tail;
        proof { lemma_mod_step(tail as int, self.capacity as int); }
        let next_tail = (tail + 1) % self.capacity;
        if next_tail == self.head {
            return Err(id);
        }
        let ghost old_view = self.view();
        self.buffer.set(tail, id.0);
        self.tail = next_tail;
        proof {
            self.lemma_len_bound();
            assert(self.spec_len() == old_view.len() + 1);
            assert forall|i: int| 0 <= i < self.spec_len() implies
                #[trigger] self.view()[i] == old_view.push(id.0)[i] by {
            }
            assert(self.view() =~= old_view.push(id.0));
        }
        Ok(())
    }

    /// Pops the oldest id; `None` when empty, or when the slot held `usize::MAX`.
    pub fn pop(&mut self) -> (res: Option<ConnId>)
        requires
            old(self).wf(),
        ensures
            final(self).wf(),
            final(self).spec_capacity() == old(self).spec_capacity(),
            final(self).view() == after_pop(old(self).view()),
            res == popped(old(self).view()),
    {
        proof { self.lemma_len_bound(); }
        let head = self.head;
        if head == self.tail {
            return None;
        }
        let ghost old_view = self.view();
        let value = self.buffer[head];
        proof { lemma_mod_step(head as int, self.capacity as int); }
        let next_head = (head + 1) % self.capacity;
        self.head = next_head;
        proof {
            assert(old_view[0] == value);
            assert(self.spec_len() == old_view.len() - 1);
            assert forall|i: int| 0 <= i < self.spec_len() implies
                #[trigger] self.view()[i] == old_view.drop_first()[i] by {
            }
            assert(self.view() =~= old_view.drop_first());
        }
        if value == usize::MAX {
            None
        } else {
            Some(ConnId(value))
        }
    }

    /// Number of ids held.
    pub fn len(&self) -> (n: usize)
        requires
            self.wf(),
        ensures
            n == self.view().len(),
    {
        let head = self.head;
        let tail = self.tail;
        if tail >= head {
            tail - head
        } else {
            self.capacity - head + tail
        }
    }

    /// Whether the queue holds nothing.
    pub fn is_empty(&self) -> (b: bool)
        requires
            self.wf(),
        ensures
            b == (self.view().len() == 0),
    {
        self.len() == 0
    }
}

/// The contents after pushing `ids` in order onto a queue holding `c`.
pub open spec fn push_all(c: Seq<usize>, capacity: nat, ids: Seq<usize>) -> Seq<usize>
    decreases ids.len(),
{
    if ids.len() == 0 { c } else { after_push(push_all(c, capacity, ids.drop_last()), capacity, ids.last()) }
}

/// What `n` pops in a row return from a queue holding `c`.
pub open spec fn pop_all(c: Seq<usize>, n: nat) -> Seq<Option<ConnId>>
    decreases n,
{
    if n == 0 { Seq::empty() } else { seq![popped(c)] + pop_all(after_pop(c), (n - 1) as nat) }
}

/// Ids come out in the order they went in: pushing fewer ids than the capacity
/// onto an empty queue and then popping as many times gives the same ids back,
/// in order, and leaves the queue empty.
pub proof fn law_fifo(capacity: nat, ids: Seq<usize>)
    requires
        ids.len() + 1 < capacity,
        forall|i: int| 0 <= i < ids.len() ==> #[trigger] ids[i] != usize::MAX,
    ensures
        push_all(Seq::empty(), capacity, ids) == ids,
        pop_all(ids, ids.len()) == ids.map_values(|id: usize| Some(ConnId(id))),
{
    lemma_push_all(capacity, ids);
    lemma_pop_all(ids);
}

proof fn lemma_push_all(capacity: nat, ids: Seq<usize>)
    requires
        ids.len() + 1 < capacity,
    ensures
        push_all(Seq::empty(), capacity, ids) == ids,
    decreases ids.len(),
{
    if ids.len() > 0 {
        lemma_push_all(capacity, ids.drop_last());
        assert(ids.drop_last().push(ids.last()) =~= ids);
    }
}

proof fn lemma_pop_all(ids: Seq<usize>)
    requires
        forall|i: int| 0 <= i < ids.len() ==> #[trigger] ids[i] != usize::MAX,
    ensures
        pop_all(ids, ids.len()) == ids.map_values(|id: usize| Some(ConnId(id))),
    decreases ids.len(),
{
    if ids.len() > 0 {
        let rest = ids.drop_first();
        assert forall|i: int| 0 <= i < rest.len() implies #[trigger] rest[i] != usize::MAX by {
            assert(rest[i] == ids[i + 1]);
        }
        lemma_pop_all(rest);
        assert(pop_all(ids, ids.len()) =~= ids.map_values(|id: usize| Some(ConnId(id))));
    } else {
        assert(pop_all(ids, 0) =~= ids.map_values(|id: usize| Some(ConnId(id))));
    }
}

/// A queue made with capacity `n` holds at most `n - 1` ids: a push onto a queue
/// holding `n - 1` is refused and leaves it unchanged, and pushes never grow it
/// past that.
pub proof fn law_capacity(contents: Seq<usize>, capacity: nat, id: usize)
    requires
        capacity > 0,
        contents.len() < capacity,
    ensures
        after_push(contents, capacity, id).len() < capacity,
        contents.len() + 1 == capacity ==> push_refused(contents, capacity)
            && after_push(contents, capacity, id) == contents,
{
}

/// Pushing then popping on a non-empty queue with room is popping then pushing:
/// the id pushed waits behind the ones already held.
pub proof fn law_push_pop_commute(contents: Seq<usize>, capacity: nat, id: usize)
    requires
        contents.len() > 0,
        !push_refused(contents, capacity),
    ensures
        popped(after_push(contents, capacity, id)) == popped(contents),
        after_pop(after_push(contents, capacity, id)) == after_push(after_pop(contents), capacity, id),
{
    assert(contents.push(id).drop_first() =~= contents.drop_first().push(id));
}

} // verus!
