//! HTTP/2 stream state machine (RFC 7540, section 5.1) and per-stream buffers.
use vstd::prelude::*;
use bytes::BytesMut;
use crate::buf::{bytes_mut_view, bm_new};
use super::hpack::headers_view;
use crate::num::add_saturating_i32;

verus! {

/// HTTP/2 stream states.
#[derive(Debug, Clone, Copy, PartialEq, Eq, Structural)]
pub enum StreamState {
    Idle,
    ReservedLocal,
    ReservedRemote,
    Open,
    HalfClosedLocal,
    HalfClosedRemote,
    Closed,
}

/// An HTTP/2 stream.
#[derive(Debug)]
pub struct Stream {
    pub id: u32,
    pub state: StreamState,
    pub request_headers: Vec<(String, String)>,
    pub response_headers: Vec<(String, String)>,
    pub request_body: BytesMut,
    pub response_body: BytesMut,
    pub send_window: i32,
    pub recv_window: i32,
    pub weight: u8,
    pub dependency: u32,
    pub exclusive: bool,
}

/// A stream as the contracts see it: headers as text pairs, bodies as byte sequences.
pub struct StreamV {
    pub id: u32,
    pub state: StreamState,
    pub request_headers: Seq<(Seq<char>, Seq<char>)>,
    pub response_headers: Seq<(Seq<char>, Seq<char>)>,
    pub request_body: Seq<u8>,
    pub response_body: Seq<u8>,
    pub send_window: i32,
    pub recv_window: i32,
    pub weight: u8,
    pub dependency: u32,
    pub exclusive: bool,
}

/// A new idle stream: no headers, empty bodies, both windows at the given size.
pub open spec fn new_stream_v(id: u32, initial_window_size: i32) -> StreamV {
    StreamV {
        id,
        state: StreamState::Idle,
        request_headers: Seq::empty(),
        response_headers: Seq::empty(),
        request_body: Seq::empty(),
        response_body: Seq::empty(),
        send_window: initial_window_size,
        recv_window: initial_window_size,
        weight: 16,
        dependency: 0,
        exclusive: false,
    }
}

/// State after the peer's END_STREAM.
pub open spec fn after_half_close_remote(s: StreamState) -> StreamState {
    match s {
        StreamState::Open => StreamState::HalfClosedRemote,
        StreamState::HalfClosedLocal => StreamState::Closed,
        _ => s,
    }
}

/// State after our END_STREAM.
pub open spec fn after_half_close_local(s: StreamState) -> StreamState {
    match s {
        StreamState::Open => StreamState::HalfClosedLocal,
        StreamState::HalfClosedRemote => StreamState::Closed,
        _ => s,
    }
}

/// State after HEADERS opens the stream.
pub open spec fn after_open(s: StreamState) -> StreamState {
    if s == StreamState::Idle { StreamState::Open } else { s }
}

/// Whether a stream in this state may send DATA.
pub open spec fn state_can_send(s: StreamState) -> bool {
    s == StreamState::Open || s == StreamState::HalfClosedRemote
}

/// Whether a stream in this state may receive DATA.
pub open spec fn state_can_receive(s: StreamState) -> bool {
    s == StreamState::Open || s == StreamState::HalfClosedLocal
}

/// `x + y` clamped to the range of `i32`.
pub open spec fn sat_add_i32(x: i32, y: i32) -> i32 {
    if x + y > i32::MAX { i32::MAX } else if x + y < i32::MIN { i32::MIN } else { (x + y) as i32 }
}

/// Everything but the state and the two windows is unchanged.
pub open spec fn same_but_state_windows(a: Stream, b: Stream) -> bool {
    &&& a.id == b.id
    &&& a.request_headers@ == b.request_headers@
    &&& a.response_headers@ == b.response_headers@
    &&& bytes_mut_view(a.request_body) == bytes_mut_view(b.request_body)
    &&& bytes_mut_view(a.response_body) == bytes_mut_view(b.response_body)
    &&& a.weight == b.weight
    &&& a.dependency == b.dependency
    &&& a.exclusive == b.exclusive
}

impl Stream {
    /// The stream, with its buffers and headers taken by their contents.
    pub open spec fn view(&self) -> StreamV {
        StreamV {
            id: self.id,
            state: self.state,
            request_headers: headers_view(self.request_headers@),
            response_headers: headers_view(self.response_headers@),
            request_body: bytes_mut_view(self.request_body),
            response_body: bytes_mut_view(self.response_body),
            send_window: self.send_window,
            recv_window: self.recv_window,
            weight: self.weight,
            dependency: self.dependency,
            exclusive: self.exclusive,
        }
    }

    /// A new idle stream; both windows start at the given size.
    pub fn new(id: u32, initial_window_size: i32) -> (s: Self)
        ensures
            s.id == id,
            s.state == StreamState::Idle,
            s.request_headers@ == Seq::<(String, String)>::empty(),
            s.response_headers@ == Seq::<(String, String)>::empty(),
            bytes_mut_view(s.request_body) == Seq::<u8>::empty(),
            bytes_mut_view(s.response_body) == Seq::<u8>::empty(),
            s.send_window == initial_window_size,
            s.recv_window == initial_window_size,
            s.weight == 16,
            s.dependency == 0,
            !s.exclusive,
            s@ == new_stream_v(id, initial_window_size),
    {
        let s = Stream {
            id,
            state: StreamState::Idle,
            request_headers: Vec::new(),
            response_headers: Vec::new(),
            request_body: bm_new(),
            response_body: bm_new(),
            send_window: initial_window_size,
            recv_window: initial_window_size,
            weight: 16,
            dependency: 0,
            exclusive: false,
        };
        assert(s@.request_headers =~= Seq::<(Seq<char>, Seq<char>)>::empty());
        assert(s@.response_headers =~= Seq::<(Seq<char>, Seq<char>)>::empty());
        s
    }

    /// HEADERS received: an idle stream opens; any other state stays.
    pub fn open(&mut self)
        ensures
            final(self).state == after_open(old(self).state),
            same_but_state_windows(*old(self), *final(self)),
            final(self).send_window == old(self).send_window,
            final(self).recv_window == old(self).recv_window,
    {
        if self.state == StreamState::Idle {
            self.state = StreamState::Open;
        }
    }

    /// END_STREAM received: Open becomes HalfClosedRemote, HalfClosedLocal becomes Closed.
    pub fn half_close_remote(&mut self)
        ensures
            final(self).state == after_half_close_remote(old(self).state),
            same_but_state_windows(*old(self), *final(self)),
            final(self).send_window == old(self).send_window,
            final(self).recv_window == old(self).recv_window,
    {
        match self.state {
            StreamState::Open => self.state = StreamState::HalfClosedRemote,
            StreamState::HalfClosedLocal => self.state = StreamState::Closed,
            _ => {},
        }
    }

    /// END_STREAM sent: Open becomes HalfClosedLocal, HalfClosedRemote becomes Closed.
    pub fn half_close_local(&mut self)
        ensures
            final(self).state == after_half_close_local(old(self).state),
            same_but_state_windows(*old(self), *final(self)),
            final(self).send_window == old(self).send_window,
            final(self).recv_window == old(self).recv_window,
    {
        match self.state {
            StreamState::Open => self.state = StreamState::HalfClosedLocal,
            StreamState::HalfClosedRemote => self.state = StreamState::Closed,
            _ => {},
        }
    }

    /// Closes the stream, whatever its state.
    pub fn close(&mut self)
        ensures
            final(self).state == StreamState::Closed,
            same_but_state_windows(*old(self), *final(self)),
            final(self).send_window == old(self).send_window,
            final(self).recv_window == old(self).recv_window,
    {
        self.state = StreamState::Closed;
    }

    /// Whether the stream may send DATA (Open or HalfClosedRemote).
    pub fn can_send(&self) -> (b: bool)
        ensures
            b == state_can_send(self.state),
    {
        matches!(self.state, StreamState::Open | StreamState::HalfClosedRemote)
    }

    /// Whether the stream may receive DATA (Open or HalfClosedLocal).
    pub fn can_receive(&self) -> (b: bool)
        ensures
            b == state_can_receive(self.state),
    {
        matches!(self.state, StreamState::Open | StreamState::HalfClosedLocal)
    }

    /// Adds `delta` to the send window, saturating at the bounds of `i32`.
    pub fn update_send_window(&mut self, delta: i32)
        ensures
            final(self).send_window == sat_add_i32(old(self).send_window, delta),
            final(self).state == old(self).state,
            final(self).recv_window == old(self).recv_window,
            same_but_state_windows(*old(self), *final(self)),
    {
        self.send_window = add_saturating_i32(self.send_window, delta);
    }

    /// Takes `bytes` off the send window (the window may go negative).
    pub fn consume_send_window(&mut self, bytes: i32)
        requires
            i32::MIN <= old(self).send_window - bytes <= i32::MAX,
        ensures
            final(self).send_window == old(self).send_window - bytes,
            final(self).state == old(self).state,
            final(self).recv_window == old(self).recv_window,
            same_but_state_windows(*old(self), *final(self)),
    {
        self.send_window = self.send_window - bytes;
    }

    /// Adds `delta` to the receive window, saturating at the bounds of `i32`.
    pub fn update_recv_window(&mut self, delta: i32)
        ensures
            final(self).recv_window == sat_add_i32(old(self).recv_window, delta),
            final(self).state == old(self).state,
            final(self).send_window == old(self).send_window,
            same_but_state_windows(*old(self), *final(self)),
    {
        self.recv_window = add_saturating_i32(self.recv_window, delta);
    }
}

impl Default for Stream {
    /// Stream 0 with the protocol's default window of 65535.
    fn default() -> (s: Self)
        ensures
            s.id == 0,
            s.state == StreamState::Idle,
            s.send_window == 65535,
            s.recv_window == 65535,
    {
        Stream::new(0, 65535)
    }
}

/// A stream both sides end is closed, whichever side ends it first.
pub proof fn law_both_ends_close()
    ensures
        after_half_close_local(after_half_close_remote(StreamState::Open)) == StreamState::Closed,
        after_half_close_remote(after_half_close_local(StreamState::Open)) == StreamState::Closed,
{
}

/// A closed stream stays closed: opening or ending either side leaves it closed.
pub proof fn law_closed_is_final()
    ensures
        after_open(StreamState::Closed) == StreamState::Closed,
        after_half_close_remote(StreamState::Closed) == StreamState::Closed,
        after_half_close_local(StreamState::Closed) == StreamState::Closed,
        !state_can_send(StreamState::Closed),
        !state_can_receive(StreamState::Closed),
{
}

/// Ending one side takes away exactly that side's right to send: after the peer
/// ends an open stream we may still send and may no longer receive, and after we
/// end it the reverse.
pub proof fn law_half_close_directions()
    ensures
        state_can_send(after_half_close_remote(StreamState::Open)),
        !state_can_receive(after_half_close_remote(StreamState::Open)),
        !state_can_send(after_half_close_local(StreamState::Open)),
        state_can_receive(after_half_close_local(StreamState::Open)),
{
}

} // verus!
