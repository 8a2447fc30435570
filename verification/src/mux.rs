//! Batched I/O bookkeeping: operations are queued, then flushed into a table of
//! pending operations, each under a fresh token.
//!
//! In this compatibility form no completion is ever reported: the stages do
//! their I/O themselves.
use vstd::prelude::*;
use std::collections::HashMap;
use bytes::{Bytes, BytesMut};
use crate::buf::{bytes_view, b_as_slice};
use crate::conn::ConnId;

verus! {

broadcast use vstd::std_specs::hash::group_hash_axioms;

#[verifier::external_type_specification]
#[verifier::external_body]
pub struct ExIoError(std::io::Error);

/// A raw file descriptor.
pub type RawFd = i32;

/// A completed I/O operation.
#[derive(Debug)]
pub enum IoEvent {
    Accepted { fd: RawFd },
    ReadComplete { conn_id: ConnId, bytes: usize },
    ReadError { conn_id: ConnId, errno: i32 },
    WriteComplete { conn_id: ConnId, bytes: usize },
    WriteError { conn_id: ConnId, errno: i32 },
}

/// An operation handed to the kernel and not yet completed.
#[derive(Debug, Clone, Copy, PartialEq, Eq, Structural)]
pub enum PendingOp {
    Accept { listener_fd: RawFd },
    Read { conn_id: ConnId },
    Write { conn_id: ConnId, total_bytes: usize },
}

/// The I/O multiplexer.
pub struct IoMultiplexer {
    pending_ops: HashMap<u64, PendingOp>,
    next_token: u64,
    queued_accepts: Vec<RawFd>,
    queued_reads: Vec<(ConnId, RawFd)>,
    queued_writes: Vec<(ConnId, RawFd, usize)>,
}

/// A multiplexer as the contracts see it.
pub struct MuxV {
    /// Pending operations, by token.
    pub pending: Map<u64, PendingOp>,
    pub next_token: u64,
    pub queued_accepts: Seq<RawFd>,
    pub queued_reads: Seq<(ConnId, RawFd)>,
    pub queued_writes: Seq<(ConnId, RawFd, usize)>,
}

/// The operations a flush registers, in order: accepts, then reads, then writes.
pub open spec fn flushed_ops(m: MuxV) -> Seq<PendingOp> {
    m.queued_accepts.map_values(|fd: RawFd| PendingOp::Accept { listener_fd: fd })
        + m.queued_reads.map_values(|r: (ConnId, RawFd)| PendingOp::Read { conn_id: r.0 })
        + m.queued_writes.map_values(|w: (ConnId, RawFd, usize)| PendingOp::Write { conn_id: w.0, total_bytes: w.2 })
}

/// Operations given consecutive tokens from `first`.
pub open spec fn with_tokens(ops: Seq<PendingOp>, first: u64) -> Map<u64, PendingOp> {
    Map::new(|k: u64| first <= k < first + ops.len(), |k: u64| ops[k - first])
}

/// Every pending token is below `next`.
pub open spec fn tokens_fresh(p: Map<u64, PendingOp>, next: u64) -> bool {
    forall|k: u64| #[trigger] p.contains_key(k) ==> k < next
}

impl IoMultiplexer {
    /// The multiplexer's queues and pending operations.
    pub closed spec fn view(&self) -> MuxV {
        MuxV {
            pending: self.pending_ops@,
            next_token: self.next_token,
            queued_accepts: self.queued_accepts@,
            queued_reads: self.queued_reads@,
            queued_writes: self.queued_writes@,
        }
    }

    /// Every pending token is below the next one.
    pub closed spec fn wf(&self) -> bool {
        tokens_fresh(self.pending_ops@, self.next_token)
    }

    /// A multiplexer with nothing queued or pending (the ring size is not used).
    pub fn new(_ring_size: usize) -> (res: Result<Self, std::io::Error>)
        ensures
            res matches Ok(m) && m.wf() && m@ == (MuxV {
                pending: Map::empty(),
                next_token: 0,
                queued_accepts: Seq::empty(),
                queued_reads: Seq::empty(),
                queued_writes: Seq::empty(),
            }),
    {
        Ok(IoMultiplexer {
            pending_ops: HashMap::new(),
            next_token: 0,
            queued_accepts: Vec::new(),
            queued_reads: Vec::new(),
            queued_writes: Vec::new(),
        })
    }

    /// Queues an accept on a listening socket.
    pub fn queue_accept(&mut self, listener_fd: RawFd)
        ensures
            final(self).wf() == old(self).wf(),
            final(self)@ == (MuxV { queued_accepts: old(self)@.queued_accepts.push(listener_fd), ..old(self)@ }),
    {
        self.queued_accepts.push(listener_fd);
    }

    /// Queues a read for a connection (the buffer is not used here).
    pub fn queue_read(&mut self, conn_id: ConnId, fd: RawFd, _buf: &mut BytesMut)
        ensures
            final(self).wf() == old(self).wf(),
            final(self)@ == (MuxV { queued_reads: old(self)@.queued_reads.push((conn_id, fd)), ..old(self)@ }),
    {
        self.queued_reads.push((conn_id, fd));
    }

    /// Queues a write of `buf` for a connection (only its length is kept).
    pub fn queue_write(&mut self, conn_id: ConnId, fd: RawFd, buf: &Bytes)
        ensures
            final(self).wf() == old(self).wf(),
            final(self)@ == (MuxV {
                queued_writes: old(self)@.queued_writes.push((conn_id, fd, bytes_view(*buf).len() as usize)),
                ..old(self)@
            }),
    {
        let len = b_as_slice(buf).len();
        self.queued_writes.push((conn_id, fd, len));
    }

    /// Registers every queued operation as pending, each under the next token
    /// (see `flushed_ops`), empties the queues, and returns how many there were.
    pub fn flush(&mut self) -> (res: Result<usize, std::io::Error>)
        requires
            old(self).wf(),
            old(self)@.next_token + flushed_ops(old(self)@).len() <= u64::MAX,
            flushed_ops(old(self)@).len() <= usize::MAX,
        ensures
            final(self).wf(),
            res matches Ok(n) && n == flushed_ops(old(self)@).len(),
            final(self)@ == (MuxV {
                pending: old(self)@.pending.union_prefer_right(with_tokens(flushed_ops(old(self)@), old(self)@.next_token)),
                next_token: (old(self)@.next_token + flushed_ops(old(self)@).len()) as u64,
                queued_accepts: Seq::empty(),
                queued_reads: Seq::empty(),
                queued_writes: Seq::empty(),
            }),
    {
        let ghost ops = flushed_ops(self@);
        let ghost p0 = self.pending_ops@;
        let ghost t0 = self.next_token;
        let na = self.queued_accepts.len();
        let nr = self.queued_reads.len();
        let nw = self.queued_writes.len();
        let count = na + nr + nw;
        let mut k: usize = 0;
        while k < count
            invariant
                count == ops.len(),
                na == self.queued_accepts@.len(),
                nr == self.queued_reads@.len(),
                nw == self.queued_writes@.len(),
                ops == flushed_ops(self@),
                k <= count,
                t0 + count <= u64::MAX,
                self.next_token == t0 + k,
                self.pending_ops@ == p0.union_prefer_right(with_tokens(ops.take(k as int), t0)),
                tokens_fresh(p0, t0),
                tokens_fresh(self.pending_ops@, self.next_token),
            decreases count - k,
        {
            let op = if k < na {
                PendingOp::Accept { listener_fd: self.queued_accepts[k] }
            } else if k < na + nr {
                PendingOp::Read { conn_id: self.queued_reads[k - na].0 }
            } else {
                let w = self.queued_writes[k - na - nr];
                PendingOp::Write { conn_id: w.0, total_bytes: w.2 }
            };
            assert(op == ops[k as int]);
            let token = self.next_token;
            let _ = self.pending_ops.insert(token, op);
            self.next_token = self.next_token + 1;
            k = k + 1;
            assert(self.pending_ops@ =~= p0.union_prefer_right(with_tokens(ops.take(k as int), t0)));
        }
        assert(ops.take(k as int) =~= ops);
        self.queued_accepts.clear();
        self.queued_reads.clear();
        self.queued_writes.clear();
        Ok(count)
    }

    /// Completed operations: none in this form.
    pub fn poll(&mut self) -> (events: Vec<IoEvent>)
        ensures
            events@ == Seq::<IoEvent>::empty(),
            final(self)@ == old(self)@,
            final(self).wf() == old(self).wf(),
    {
        Vec::new()
    }

    /// Whether any operation is pending.
    pub fn has_pending(&self) -> (b: bool)
        ensures
            b == (self@.pending.len() > 0),
    {
        self.pending_ops.len() > 0
    }

    /// The number of pending operations.
    pub fn pending_count(&self) -> (n: usize)
        ensures
            n == self@.pending.len(),
    {
        self.pending_ops.len()
    }
}

impl Default for IoMultiplexer {
    /// A multiplexer with nothing queued or pending.
    fn default() -> (m: Self)
        ensures
            m.wf(),
            m@ == (MuxV {
                pending: Map::empty(),
                next_token: 0,
                queued_accepts: Seq::empty(),
                queued_reads: Seq::empty(),
                queued_writes: Seq::empty(),
            }),
    {
        match IoMultiplexer::new(256) {
            Ok(m) => m,
            Err(_) => IoMultiplexer {
                pending_ops: HashMap::new(),
                next_token: 0,
                queued_accepts: Vec::new(),
                queued_reads: Vec::new(),
                queued_writes: Vec::new(),
            },
        }
    }
}

} // verus!
