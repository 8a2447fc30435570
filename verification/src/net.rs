//! The decisions of non-blocking socket reads and writes. The caller performs
//! each `read`, `write` or `peek` call and hands its outcome here; these
//! functions say whether to call again, stop, or fail.

use vstd::prelude::*;

verus! {

/// What one `read`, `write` or `peek` call on a non-blocking socket gave.
#[derive(Debug, Clone, Copy, PartialEq, Eq, Structural)]
pub enum IoOutcome {
    /// This many bytes (more than zero) were moved.
    Moved(usize),
    /// The call moved nothing: the peer closed (read), or the socket took nothing (write).
    Zero,
    /// The call would block: nothing more for now.
    WouldBlock,
    /// The connection was reset by the peer.
    Reset,
    /// Any other error.
    Failed,
}

/// What a read loop does next.
#[derive(Debug, Clone, Copy, PartialEq, Eq, Structural)]
pub enum ReadStep {
    /// Keep reading; this many bytes so far.
    Again(usize),
    /// Stop: this many bytes were read in all.
    Done(usize),
    /// The peer closed the connection.
    Closed,
    /// The read failed.
    Failed,
}

/// What a write loop does next.
#[derive(Debug, Clone, Copy, PartialEq, Eq, Structural)]
pub enum WriteStep {
    /// Keep writing; this many bytes so far.
    Again(usize),
    /// Stop: this many bytes were written in all.
    Done(usize),
    /// The socket took nothing.
    WriteZero,
    /// The write failed.
    Failed,
}

/// The read loop's decision after one read: bytes keep it going, a read of
/// nothing means the peer closed, blocking ends it with the total so far.
pub open spec fn read_step_spec(total: usize, outcome: IoOutcome) -> ReadStep {
    match outcome {
        IoOutcome::Moved(n) => ReadStep::Again((total + n) as usize),
        IoOutcome::Zero => ReadStep::Closed,
        IoOutcome::WouldBlock => ReadStep::Done(total),
        IoOutcome::Reset | IoOutcome::Failed => ReadStep::Failed,
    }
}

/// Decides what a read loop does after a read that gave `outcome`, with `total`
/// bytes read before it.
pub fn read_step(total: usize, outcome: IoOutcome) -> (step: ReadStep)
    requires
        outcome matches IoOutcome::Moved(n) ==> total + n <= usize::MAX,
    ensures
        step == read_step_spec(total, outcome),
{
    match outcome {
        IoOutcome::Moved(n) => ReadStep::Again(total + n),
        IoOutcome::Zero => ReadStep::Closed,
        IoOutcome::WouldBlock => ReadStep::Done(total),
        IoOutcome::Reset | IoOutcome::Failed => ReadStep::Failed,
    }
}

/// The write loop's decision after one write of the `len` pending bytes: once
/// all are written it stops, blocking stops it with the total so far, a write of
/// nothing is an error.
pub open spec fn write_step_spec(total: usize, len: usize, outcome: IoOutcome) -> WriteStep {
    match outcome {
        IoOutcome::Moved(n) => if total + n >= len {
            WriteStep::Done((total + n) as usize)
        } else {
            WriteStep::Again((total + n) as usize)
        },
        IoOutcome::Zero => WriteStep::WriteZero,
        IoOutcome::WouldBlock => WriteStep::Done(total),
        IoOutcome::Reset | IoOutcome::Failed => WriteStep::Failed,
    }
}

/// Decides what a write loop over `len` pending bytes does after a write that
/// gave `outcome`, with `total` bytes written before it.
pub fn write_step(total: usize, len: usize, outcome: IoOutcome) -> (step: WriteStep)
    requires
        outcome matches IoOutcome::Moved(n) ==> total + n <= usize::MAX,
    ensures
        step == write_step_spec(total, len, outcome),
{
    match outcome {
        IoOutcome::Moved(n) => {
            let t = total + n;
            if t >= len {
                WriteStep::Done(t)
            } else {
                WriteStep::Again(t)
            }
        },
        IoOutcome::Zero => WriteStep::WriteZero,
        IoOutcome::WouldBlock => WriteStep::Done(total),
        IoOutcome::Reset | IoOutcome::Failed => WriteStep::Failed,
    }
}

/// Whether a one-byte peek shows the connection closed: a peek of nothing, or a
/// reset.
pub fn peek_closed(outcome: IoOutcome) -> (closed: bool)
    ensures
        closed == (outcome is Zero || outcome is Reset),
{
    match outcome {
        IoOutcome::Zero | IoOutcome::Reset => true,
        _ => false,
    }
}

/// Once a write loop stops, it never sends more than was pending: each write
/// moves at most what remains.
pub proof fn law_write_stops_at_len(total: usize, len: usize, n: usize)
    requires
        total < len,
        0 < n <= len - total,
    ensures
        write_step_spec(total, len, IoOutcome::Moved(n)) matches WriteStep::Done(t) ==> t == len,
        write_step_spec(total, len, IoOutcome::Moved(n)) matches WriteStep::Again(t) ==> total < t < len,
{
}

} // verus!
