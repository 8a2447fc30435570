//! HTTP/2 connection: settings, stream multiplexing, flow-control windows and
//! the queue of frames waiting to be sent.
use vstd::prelude::*;
use bytes::Bytes;
use crate::buf::{bytes_view, bytes_mut_view, b_as_slice, bm_extend, bm_len};
use super::frame::{Frame, FrameV, H2Error, h2_preface_spec};
use super::hpack::{HpackDecoder, HpackEncoder, TableV, DecodeV, decode_spec, encode_bytes, encode_table,
    encode_overflows, headers_view};
use super::round_trip::law_hpack_round_trip;
use super::stream::{Stream, StreamState, StreamV, new_stream_v, after_open, after_half_close_remote,
    after_half_close_local, state_can_receive, sat_add_i32};

verus! {

/// HTTP/2 connection settings.
#[derive(Debug, Clone, Copy, PartialEq, Eq, Structural)]
pub struct H2Settings {
    pub header_table_size: u32,
    pub enable_push: bool,
    pub max_concurrent_streams: u32,
    pub initial_window_size: u32,
    pub max_frame_size: u32,
    pub max_header_list_size: u32,
}

/// The settings a connection starts with.
pub open spec fn default_settings() -> H2Settings {
    H2Settings {
        header_table_size: 4096,
        enable_push: true,
        max_concurrent_streams: 100,
        initial_window_size: 65535,
        max_frame_size: 16384,
        max_header_list_size: 8192,
    }
}

impl Default for H2Settings {
    /// Table size 4096, push enabled, 100 streams, window 65535, frames up to 16384
    /// bytes, header lists up to 8192 bytes.
    fn default() -> (s: Self)
        ensures
            s == default_settings(),
    {
        H2Settings {
            header_table_size: 4096,
            enable_push: true,
            max_concurrent_streams: 100,
            initial_window_size: 65535,
            max_frame_size: 16384,
            max_header_list_size: 8192,
        }
    }
}

/// A 32-bit unsigned value read as a two's-complement `i32` (what `as i32` does).
pub open spec fn u32_as_i32(v: u32) -> i32 {
    if v <= 0x7fff_ffff { v as i32 } else { (v - 0x1_0000_0000) as i32 }
}

/// A length cut to its low 32 bits and read as an `i32` (what `as i32` does).
pub open spec fn usize_as_i32(n: usize) -> i32 {
    u32_as_i32(n as u32)
}

/// `v as i32`.
fn to_i32(v: u32) -> (r: i32)
    ensures
        r == u32_as_i32(v),
{
    if v <= 0x7fff_ffff {
        v as i32
    } else {
        let w: u32 = v - 0x8000_0000;
        (w as i32) - 0x7fff_ffff - 1
    }
}

/// A connection as the contracts see it.
pub struct ConnV {
    pub local_settings: H2Settings,
    pub remote_settings: H2Settings,
    /// Streams in the order they were opened.
    pub streams: Seq<StreamV>,
    pub encoder: TableV,
    pub decoder: TableV,
    pub next_server_stream_id: u32,
    pub send_window: i32,
    pub recv_window: i32,
    pub preface_received: bool,
    pub settings_acked: bool,
    pub outgoing: Seq<FrameV>,
    pub going_away: bool,
    pub last_stream_id: u32,
}

/// Index of the first stream with this id at or after `i`.
pub open spec fn find_from(s: Seq<StreamV>, id: u32, i: int) -> Option<int>
    decreases s.len() - i,
{
    if i < 0 || i >= s.len() {
        None
    } else if s[i].id == id {
        Some(i)
    } else {
        find_from(s, id, i + 1)
    }
}

/// Index of the stream with this id, if there is one.
pub open spec fn find_stream(s: Seq<StreamV>, id: u32) -> Option<int> {
    find_from(s, id, 0)
}

proof fn lemma_find_from(s: Seq<StreamV>, id: u32, i: int)
    requires
        0 <= i,
    ensures
        match find_from(s, id, i) {
            Some(k) => i <= k < s.len() && s[k].id == id && forall|j: int| i <= j < k ==> s[j].id != id,
            None => forall|j: int| i <= j < s.len() ==> s[j].id != id,
        },
    decreases s.len() - i,
{
    if i < s.len() && s[i].id != id {
        lemma_find_from(s, id, i + 1);
    }
}

proof fn lemma_settings_prefix(c: ConnV, s: Seq<(u16, u32)>, k: int)
    requires
        0 <= k <= s.len(),
        !settings_overflow(c, s),
    ensures
        !settings_overflow(c, s.take(k)),
    decreases s.len(),
{
    if k == s.len() {
        assert(s.take(k) =~= s);
    } else {
        lemma_settings_prefix(c, s.drop_last(), k);
        assert(s.drop_last().take(k) =~= s.take(k));
    }
}

/// The SETTINGS frame a connection advertises: table size, concurrent streams,
/// initial window and frame size, in that order.
pub open spec fn settings_frame(s: H2Settings) -> FrameV {
    FrameV::Settings {
        ack: false,
        settings: seq![(1u16, s.header_table_size), (3u16, s.max_concurrent_streams),
            (4u16, s.initial_window_size), (5u16, s.max_frame_size)],
    }
}

/// The window change a new initial window size makes.
pub open spec fn window_delta(value: u32, current: u32) -> int {
    u32_as_i32(value) - u32_as_i32(current)
}

/// Every stream's send window moved by `delta`, saturating.
pub open spec fn shift_send_windows(s: Seq<StreamV>, delta: i32) -> Seq<StreamV> {
    s.map_values(|x: StreamV| StreamV { send_window: sat_add_i32(x.send_window, delta), ..x })
}

/// One (identifier, value) pair of the peer's SETTINGS applied; unknown identifiers are ignored.
pub open spec fn apply_setting(c: ConnV, id: u16, value: u32) -> ConnV {
    let r = c.remote_settings;
    if id == 1 {
        ConnV { remote_settings: H2Settings { header_table_size: value, ..r }, ..c }
    } else if id == 2 {
        ConnV { remote_settings: H2Settings { enable_push: value != 0, ..r }, ..c }
    } else if id == 3 {
        ConnV { remote_settings: H2Settings { max_concurrent_streams: value, ..r }, ..c }
    } else if id == 4 {
        ConnV {
            remote_settings: H2Settings { initial_window_size: value, ..r },
            streams: shift_send_windows(c.streams, window_delta(value, r.initial_window_size) as i32),
            ..c
        }
    } else if id == 5 {
        ConnV { remote_settings: H2Settings { max_frame_size: value, ..r }, ..c }
    } else if id == 6 {
        ConnV { remote_settings: H2Settings { max_header_list_size: value, ..r }, ..c }
    } else {
        c
    }
}

/// The peer's settings applied in order.
pub open spec fn apply_settings(c: ConnV, s: Seq<(u16, u32)>) -> ConnV
    decreases s.len(),
{
    if s.len() == 0 {
        c
    } else {
        let c1 = apply_settings(c, s.drop_last());
        apply_setting(c1, s.last().0, s.last().1)
    }
}

/// Whether applying the settings computes a window change outside `i32`.
pub open spec fn settings_overflow(c: ConnV, s: Seq<(u16, u32)>) -> bool
    decreases s.len(),
{
    if s.len() == 0 {
        false
    } else {
        let c1 = apply_settings(c, s.drop_last());
        settings_overflow(c, s.drop_last()) || (s.last().0 == 4 && !(i32::MIN <= window_delta(
            s.last().1,
            c1.remote_settings.initial_window_size,
        ) <= i32::MAX))
    }
}

/// A stream after HEADERS carrying `hs`: opened, given the request headers, and
/// half-closed by the peer when END_STREAM is set.
pub open spec fn stream_after_headers(s: StreamV, hs: Seq<(Seq<char>, Seq<char>)>, end_stream: bool) -> StreamV {
    let st = after_open(s.state);
    StreamV {
        state: if end_stream { after_half_close_remote(st) } else { st },
        request_headers: hs,
        ..s
    }
}

/// A stream after DATA it may receive: body extended, receive window reduced.
pub open spec fn stream_after_data(s: StreamV, data: Seq<u8>, end_stream: bool) -> StreamV {
    StreamV {
        state: if end_stream { after_half_close_remote(s.state) } else { s.state },
        request_body: s.request_body + data,
        recv_window: (s.recv_window - usize_as_i32(data.len() as usize)) as i32,
        ..s
    }
}

/// The streams after HEADERS for `id`: the existing stream, or a new one with the
/// local initial window, is updated.
pub open spec fn streams_after_headers(c: ConnV, id: u32, hs: Seq<(Seq<char>, Seq<char>)>, end_stream: bool) -> Seq<StreamV> {
    match find_stream(c.streams, id) {
        Some(i) => c.streams.update(i, stream_after_headers(c.streams[i], hs, end_stream)),
        None => c.streams.push(stream_after_headers(
            new_stream_v(id, u32_as_i32(c.local_settings.initial_window_size)),
            hs,
            end_stream,
        )),
    }
}

/// The stream with this id (if any) closed by RST_STREAM.
pub open spec fn reset_stream(s: Seq<StreamV>, id: u32) -> Seq<StreamV> {
    match find_stream(s, id) {
        Some(i) => s.update(i, StreamV { state: StreamState::Closed, ..s[i] }),
        None => s,
    }
}

/// The send window of the stream with this id (if any) moved by `delta`, saturating.
pub open spec fn grow_send_window(s: Seq<StreamV>, id: u32, delta: i32) -> Seq<StreamV> {
    match find_stream(s, id) {
        Some(i) => s.update(i, StreamV { send_window: sat_add_i32(s[i].send_window, delta), ..s[i] }),
        None => s,
    }
}

/// The stream with this id (if any) given its response headers, and half-closed
/// on our side when END_STREAM is sent.
pub open spec fn respond_headers(s: Seq<StreamV>, id: u32, h: Seq<(Seq<char>, Seq<char>)>, end_stream: bool) -> Seq<StreamV> {
    match find_stream(s, id) {
        Some(i) => s.update(i, StreamV {
            response_headers: h,
            state: if end_stream { after_half_close_local(s[i].state) } else { s[i].state },
            ..s[i]
        }),
        None => s,
    }
}

/// The stream with this id (if any) half-closed on our side.
pub open spec fn close_local(s: Seq<StreamV>, id: u32) -> Seq<StreamV> {
    match find_stream(s, id) {
        Some(i) => s.update(i, StreamV { state: after_half_close_local(s[i].state), ..s[i] }),
        None => s,
    }
}

/// The larger of two ids.
pub open spec fn max_u32(a: u32, b: u32) -> u32 {
    if a >= b { a } else { b }
}

/// What processing a frame does: the connection afterwards, and the error message
/// when the header block of a HEADERS frame does not decode.
pub open spec fn process_frame_spec(c: ConnV, f: FrameV) -> (ConnV, Option<Seq<char>>) {
    match f {
        FrameV::Settings { ack, settings } => if ack {
            (ConnV { settings_acked: true, ..c }, None)
        } else {
            let c1 = apply_settings(c, settings);
            (ConnV { outgoing: c1.outgoing.push(FrameV::Settings { ack: true, settings: Seq::empty() }), ..c1 }, None)
        },
        FrameV::Headers { stream_id, end_stream, header_block, .. } => match decode_spec(c.decoder, header_block) {
            DecodeV::Done { result, table } => match result {
                Ok(hs) => (ConnV {
                    decoder: table,
                    streams: streams_after_headers(c, stream_id, hs, end_stream),
                    last_stream_id: max_u32(c.last_stream_id, stream_id),
                    ..c
                }, None),
                Err(m) => (ConnV { decoder: table, ..c }, Some(m)),
            },
            DecodeV::Overflow => (c, None),
        },
        FrameV::Data { stream_id, end_stream, data } => match find_stream(c.streams, stream_id) {
            Some(i) => if state_can_receive(c.streams[i].state) {
                (ConnV {
                    streams: c.streams.update(i, stream_after_data(c.streams[i], data, end_stream)),
                    recv_window: (c.recv_window - usize_as_i32(data.len() as usize)) as i32,
                    ..c
                }, None)
            } else {
                (c, None)
            },
            None => (c, None),
        },
        FrameV::WindowUpdate { stream_id, increment } => if stream_id == 0 {
            (ConnV { send_window: (c.send_window + u32_as_i32(increment)) as i32, ..c }, None)
        } else {
            (ConnV { streams: grow_send_window(c.streams, stream_id, u32_as_i32(increment)), ..c }, None)
        },
        FrameV::Ping { ack, data } => if !ack {
            (ConnV { outgoing: c.outgoing.push(FrameV::Ping { ack: true, data }), ..c }, None)
        } else {
            (c, None)
        },
        FrameV::GoAway { .. } => (ConnV { going_away: true, ..c }, None),
        FrameV::RstStream { stream_id, .. } => (ConnV { streams: reset_stream(c.streams, stream_id), ..c }, None),
        _ => (c, None),
    }
}

/// Whether processing the frame computes a window or a size beyond its integer
/// type, or decoding its header block does.
pub open spec fn frame_overflows(c: ConnV, f: FrameV) -> bool {
    match f {
        FrameV::Settings { ack, settings } => !ack && settings_overflow(c, settings),
        FrameV::Headers { header_block, .. } => decode_spec(c.decoder, header_block) is Overflow,
        FrameV::Data { stream_id, data, .. } => match find_stream(c.streams, stream_id) {
            Some(i) => state_can_receive(c.streams[i].state) && {
                let len = usize_as_i32(data.len() as usize);
                ||| !(i32::MIN <= c.streams[i].recv_window - len <= i32::MAX)
                ||| !(i32::MIN <= c.recv_window - len <= i32::MAX)
                ||| c.streams[i].request_body.len() + data.len() > usize::MAX
            },
            None => false,
        },
        FrameV::WindowUpdate { stream_id, increment } => stream_id == 0
            && !(i32::MIN <= c.send_window + u32_as_i32(increment) <= i32::MAX),
        _ => false,
    }
}

/// Whether a stream is ready to be served: the peer has finished its request, or
/// the stream is open with its request headers in.
pub open spec fn stream_ready(s: StreamV) -> bool {
    s.state == StreamState::HalfClosedRemote || (s.state == StreamState::Open && s.request_headers.len() > 0)
}

/// The ids of the ready streams, in stream order.
pub open spec fn ready_ids(s: Seq<StreamV>) -> Seq<u32>
    decreases s.len(),
{
    if s.len() == 0 {
        Seq::empty()
    } else if stream_ready(s.last()) {
        ready_ids(s.drop_last()).push(s.last().id)
    } else {
        ready_ids(s.drop_last())
    }
}

/// The number of streams not closed.
pub open spec fn active_count(s: Seq<StreamV>) -> nat
    decreases s.len(),
{
    if s.len() == 0 {
        0
    } else {
        active_count(s.drop_last()) + if s.last().state != StreamState::Closed { 1nat } else { 0nat }
    }
}

/// An HTTP/2 connection, server side.
pub struct H2Connection {
    local_settings: H2Settings,
    remote_settings: H2Settings,
    streams: Vec<Stream>,
    hpack_encoder: HpackEncoder,
    hpack_decoder: HpackDecoder,
    next_server_stream_id: u32,
    send_window: i32,
    recv_window: i32,
    preface_received: bool,
    settings_acked: bool,
    outgoing: Vec<Frame>,
    going_away: bool,
    last_stream_id: u32,
}

/// The streams of a vector, by their views.
pub open spec fn streams_view(v: Seq<Stream>) -> Seq<StreamV> {
    v.map_values(|s: Stream| s@)
}

/// The frames of a vector, by their views.
pub open spec fn frames_view(v: Seq<Frame>) -> Seq<FrameV> {
    v.map_values(|f: Frame| f@)
}

impl H2Connection {
    /// The connection's state.
    pub closed spec fn view(&self) -> ConnV {
        ConnV {
            local_settings: self.local_settings,
            remote_settings: self.remote_settings,
            streams: streams_view(self.streams@),
            encoder: self.hpack_encoder@,
            decoder: self.hpack_decoder@,
            next_server_stream_id: self.next_server_stream_id,
            send_window: self.send_window,
            recv_window: self.recv_window,
            preface_received: self.preface_received,
            settings_acked: self.settings_acked,
            outgoing: frames_view(self.outgoing@),
            going_away: self.going_away,
            last_stream_id: self.last_stream_id,
        }
    }

    /// The HPACK tables keep their bookkeeping.
    pub closed spec fn wf(&self) -> bool {
        self.hpack_encoder.wf() && self.hpack_decoder.wf()
    }

    /// A server-side connection advertising `settings`: the peer is assumed to use
    /// the default settings, both windows start at our initial window size, the
    /// encoder's table has our table size and the decoder's the default 4096.
    pub fn new(settings: H2Settings) -> (c: Self)
        ensures
            c.wf(),
            c@ == (ConnV {
                local_settings: settings,
                remote_settings: default_settings(),
                streams: Seq::empty(),
                encoder: TableV { entries: Seq::empty(), max_size: settings.header_table_size as nat, current_size: 0 },
                decoder: TableV { entries: Seq::empty(), max_size: 4096, current_size: 0 },
                next_server_stream_id: 2,
                send_window: u32_as_i32(settings.initial_window_size),
                recv_window: u32_as_i32(settings.initial_window_size),
                preface_received: false,
                settings_acked: false,
                outgoing: Seq::empty(),
                going_away: false,
                last_stream_id: 0,
            }),
    {
        let initial_window = to_i32(settings.initial_window_size);
        let c = H2Connection {
            local_settings: settings,
            remote_settings: H2Settings::default(),
            streams: Vec::new(),
            hpack_encoder: HpackEncoder::new(settings.header_table_size as usize),
            hpack_decoder: HpackDecoder::new(4096),
            next_server_stream_id: 2,
            send_window: initial_window,
            recv_window: initial_window,
            preface_received: false,
            settings_acked: false,
            outgoing: Vec::new(),
            going_away: false,
            last_stream_id: 0,
        };
        assert(c@.streams =~= Seq::<StreamV>::empty());
        assert(c@.outgoing =~= Seq::<FrameV>::empty());
        c
    }

    /// Whether the client preface has been received.
    pub fn is_preface_received(&self) -> (b: bool)
        ensures
            b == self@.preface_received,
    {
        self.preface_received
    }

    /// Index of the stream with this id, if there is one.
    fn find_index(&self, stream_id: u32) -> (res: Option<usize>)
        ensures
            find_stream(self@.streams, stream_id) is None <==> res is None,
            res matches Some(j) ==> find_stream(self@.streams, stream_id) == Some(j as int)
                && j < self.streams@.len() && self@.streams[j as int].id == stream_id,
    {
        proof { lemma_find_from(self@.streams, stream_id, 0); }
        let mut i: usize = 0;
        while i < self.streams.len()
            invariant
                i <= self.streams@.len(),
                find_from(self@.streams, stream_id, i as int) == find_stream(self@.streams, stream_id),
            decreases self.streams@.len() - i,
        {
            if self.streams[i].id == stream_id {
                return Some(i);
            }
            i = i + 1;
        }
        None
    }

    /// Moves every stream's send window by `delta`, saturating.
    fn shift_windows(&mut self, delta: i32)
        ensures
            final(self)@ == (ConnV { streams: shift_send_windows(old(self)@.streams, delta), ..old(self)@ }),
            final(self).wf() == old(self).wf(),
    {
        let ghost old_streams = self@.streams;
        let mut j: usize = 0;
        while j < self.streams.len()
            invariant
                j <= self.streams@.len(),
                self@.streams.len() == old_streams.len(),
                forall|k: int| 0 <= k < j ==> #[trigger] self@.streams[k]
                    == shift_send_windows(old_streams, delta)[k],
                forall|k: int| j <= k < self@.streams.len() ==> #[trigger] self@.streams[k] == old_streams[k],
                self@ == (ConnV { streams: self@.streams, ..old(self)@ }),
                self.wf() == old(self).wf(),
            decreases self.streams@.len() - j,
        {
            let ghost before = self.streams@;
            self.streams[j].update_send_window(delta);
            proof {
                assert forall|k: int| 0 <= k < self@.streams.len() && k != j implies
                    #[trigger] self@.streams[k] == streams_view(before)[k] by {
                    assert(self.streams@[k] == before[k]);
                }
                assert(self@.streams[j as int] == self.streams@[j as int]@);
                assert(old_streams[j as int] == streams_view(before)[j as int]);
                assert(streams_view(before)[j as int] == before[j as int]@);
                assert(self@.streams[j as int] == shift_send_windows(old_streams, delta)[j as int]);
            }
            j = j + 1;
        }
        assert(self@.streams =~= shift_send_windows(old_streams, delta));
    }

    /// Applies one (identifier, value) pair of the peer's SETTINGS.
    fn apply_one_setting(&mut self, id: u16, value: u32)
        requires
            id == 4 ==> i32::MIN <= window_delta(value, old(self)@.remote_settings.initial_window_size) <= i32::MAX,
        ensures
            final(self)@ == apply_setting(old(self)@, id, value),
            final(self).wf() == old(self).wf(),
    {
        match id {
            0x1 => self.remote_settings.header_table_size = value,
            0x2 => self.remote_settings.enable_push = value != 0,
            0x3 => self.remote_settings.max_concurrent_streams = value,
            0x4 => {
                let delta = to_i32(value) - to_i32(self.remote_settings.initial_window_size);
                self.remote_settings.initial_window_size = value;
                self.shift_windows(delta);
            },
            0x5 => self.remote_settings.max_frame_size = value,
            0x6 => self.remote_settings.max_header_list_size = value,
            _ => {},
        }
    }

    /// Applies the peer's SETTINGS, in order.
    fn apply_peer_settings(&mut self, settings: &Vec<(u16, u32)>)
        requires
            !settings_overflow(old(self)@, settings@),
        ensures
            final(self)@ == apply_settings(old(self)@, settings@),
            final(self).wf() == old(self).wf(),
    {
        let ghost c0 = self@;
        let mut i: usize = 0;
        assert(settings@.take(0) =~= Seq::<(u16, u32)>::empty());
        while i < settings.len()
            invariant
                i <= settings@.len(),
                self@ == apply_settings(c0, settings@.take(i as int)),
                !settings_overflow(c0, settings@),
                self.wf() == old(self).wf(),
            decreases settings@.len() - i,
        {
            let ghost s1 = settings@.take(i + 1);
            proof {
                assert(s1.drop_last() =~= settings@.take(i as int));
                lemma_settings_prefix(c0, settings@, i + 1);
            }
            let (id, value) = settings[i];
            self.apply_one_setting(id, value);
            i = i + 1;
        }
        assert(settings@.take(i as int) =~= settings@);
    }

    /// HEADERS, checking sizes: like `on_headers`, or `None` when decoding the
    /// header block would overflow (only the decoder's table may then have changed).
    fn on_headers_checked(&mut self, stream_id: u32, end_stream: bool, header_block: &Bytes) -> (res: Option<Result<(), H2Error>>)
        requires
            old(self).wf(),
        ensures
            final(self).wf(),
            res is None <==> decode_spec(old(self)@.decoder, bytes_view(*header_block)) is Overflow,
            res is None ==> final(self)@ == (ConnV { decoder: final(self)@.decoder, ..old(self)@ }),
            res matches Some(r) ==> ({
                let f = FrameV::Headers { stream_id, end_stream, end_headers: true, header_block: bytes_view(*header_block) };
                &&& final(self)@ == process_frame_spec(old(self)@, f).0
                &&& match process_frame_spec(old(self)@, f).1 {
                    None => r is Ok,
                    Some(m) => r matches Err(H2Error::ProtocolError(e)) && e@ == m,
                }
            }),
    {
        let headers = match self.hpack_decoder.decode_checked(b_as_slice(header_block)) {
            Some(Ok(h)) => h,
            Some(Err(e)) => return Some(Err(H2Error::ProtocolError(e))),
            None => return None,
        };
        let ghost c1 = self@;
        let idx = match self.find_index(stream_id) {
            Some(i) => i,
            None => {
                let s = Stream::new(stream_id, to_i32(self.local_settings.initial_window_size));
                let ghost before = self.streams@;
                self.streams.push(s);
                assert(streams_view(self.streams@) =~= streams_view(before).push(s@));
                self.streams.len() - 1
            },
        };
        let ghost mid = self.streams@;
        let ghost hs = headers_view(headers@);
        self.streams[idx].open();
        self.streams[idx].request_headers = headers;
        if end_stream {
            self.streams[idx].half_close_remote();
        }
        if stream_id > self.last_stream_id {
            self.last_stream_id = stream_id;
        }
        proof {
            lemma_find_from(c1.streams, stream_id, 0);
            assert(self@.streams =~= streams_after_headers(c1, stream_id, hs, end_stream));
        }
        Some(Ok(()))
    }

    /// HEADERS: decodes the header block and opens (or creates) the stream with
    /// the request headers.
    fn on_headers(&mut self, stream_id: u32, end_stream: bool, header_block: &Bytes) -> (res: Result<(), H2Error>)
        requires
            old(self).wf(),
            !(decode_spec(old(self)@.decoder, bytes_view(*header_block)) is Overflow),
        ensures
            final(self).wf(),
            ({
                let f = FrameV::Headers { stream_id, end_stream, end_headers: true, header_block: bytes_view(*header_block) };
                &&& final(self)@ == process_frame_spec(old(self)@, f).0
                &&& match process_frame_spec(old(self)@, f).1 {
                    None => res is Ok,
                    Some(m) => res matches Err(H2Error::ProtocolError(e)) && e@ == m,
                }
            }),
    {
        match self.on_headers_checked(stream_id, end_stream, header_block) {
            Some(r) => r,
            None => Err(H2Error::ProtocolError(String::new())),
        }
    }

    /// DATA: a stream that may receive takes the bytes into its request body, and
    /// both receive windows shrink by their length.
    fn on_data(&mut self, stream_id: u32, end_stream: bool, data: &Bytes)
        requires
            !frame_overflows(old(self)@, FrameV::Data { stream_id, end_stream, data: bytes_view(*data) }),
        ensures
            final(self)@ == process_frame_spec(old(self)@, FrameV::Data { stream_id, end_stream, data: bytes_view(*data) }).0,
            final(self).wf() == old(self).wf(),
    {
        let ghost c0 = self@;
        if let Some(i) = self.find_index(stream_id) {
            if self.streams[i].can_receive() {
                assert(c0.streams[i as int] == self.streams@[i as int]@);
                let ghost before = self.streams@;
                let bytes = b_as_slice(data);
                bm_extend(&mut self.streams[i].request_body, bytes);
                let len = to_i32(bytes.len() as u32);
                self.streams[i].recv_window = self.streams[i].recv_window - len;
                self.recv_window = self.recv_window - len;
                if end_stream {
                    self.streams[i].half_close_remote();
                }
                proof {
                    assert(self@.streams[i as int] == self.streams@[i as int]@);
                    assert(self@.streams =~= c0.streams.update(i as int,
                        stream_after_data(c0.streams[i as int], bytes_view(*data), end_stream)));
                }
            }
        }
    }

    /// WINDOW_UPDATE: stream 0 grows the connection's send window, another id the
    /// stream's (saturating).
    fn on_window_update(&mut self, stream_id: u32, increment: u32)
        requires
            !frame_overflows(old(self)@, FrameV::WindowUpdate { stream_id, increment }),
        ensures
            final(self)@ == process_frame_spec(old(self)@, FrameV::WindowUpdate { stream_id, increment }).0,
            final(self).wf() == old(self).wf(),
    {
        let ghost c0 = self@;
        if stream_id == 0 {
            self.send_window = self.send_window + to_i32(increment);
        } else if let Some(i) = self.find_index(stream_id) {
            self.streams[i].update_send_window(to_i32(increment));
            proof {
                assert(self@.streams[i as int] == self.streams@[i as int]@);
                assert(self@.streams =~= grow_send_window(c0.streams, stream_id, u32_as_i32(increment)));
            }
        }
    }

    /// RST_STREAM: the stream, if there is one, is closed.
    fn on_reset(&mut self, stream_id: u32)
        ensures
            final(self)@ == (ConnV { streams: reset_stream(old(self)@.streams, stream_id), ..old(self)@ }),
            final(self).wf() == old(self).wf(),
    {
        let ghost c0 = self@;
        if let Some(i) = self.find_index(stream_id) {
            self.streams[i].close();
            proof {
                assert(self@.streams[i as int] == self.streams@[i as int]@);
                assert(self@.streams =~= reset_stream(c0.streams, stream_id));
            }
        }
    }

    /// Processes a frame from the peer (see `process_frame_spec`). Only a header
    /// block that does not decode is an error; SETTINGS are acknowledged and PINGs
    /// answered through the outgoing queue.
    pub fn process_frame(&mut self, frame: Frame) -> (res: Result<(), H2Error>)
        requires
            old(self).wf(),
            !frame_overflows(old(self)@, frame@),
        ensures
            final(self).wf(),
            final(self)@ == process_frame_spec(old(self)@, frame@).0,
            match process_frame_spec(old(self)@, frame@).1 {
                None => res is Ok,
                Some(m) => res matches Err(H2Error::ProtocolError(e)) && e@ == m,
            },
    {
        let ghost f = frame@;
        match frame {
            Frame::Settings { ack, settings } => {
                if ack {
                    self.settings_acked = true;
                } else {
                    self.apply_peer_settings(&settings);
                    self.queue(Frame::Settings { ack: true, settings: Vec::new() });
                    assert(process_frame_spec(old(self)@, f).0.outgoing
                        =~= apply_settings(old(self)@, settings@).outgoing.push(
                            FrameV::Settings { ack: true, settings: Seq::empty() }));
                }
                Ok(())
            },
            Frame::Headers { stream_id, end_stream, end_headers: _, header_block } => {
                self.on_headers(stream_id, end_stream, &header_block)
            },
            Frame::Data { stream_id, end_stream, data } => {
                self.on_data(stream_id, end_stream, &data);
                Ok(())
            },
            Frame::WindowUpdate { stream_id, increment } => {
                self.on_window_update(stream_id, increment);
                Ok(())
            },
            Frame::Ping { ack, data } => {
                if !ack {
                    self.queue(Frame::Ping { ack: true, data });
                }
                Ok(())
            },
            Frame::GoAway { .. } => {
                self.going_away = true;
                Ok(())
            },
            Frame::RstStream { stream_id, .. } => {
                self.on_reset(stream_id);
                Ok(())
            },
            _ => Ok(()),
        }
    }

    /// Whether applying `settings` would take a window change outside `i32`.
    fn settings_would_overflow(&self, settings: &Vec<(u16, u32)>) -> (b: bool)
        ensures
            b == settings_overflow(self@, settings@),
    {
        let ghost c = self@;
        let mut iws: u32 = self.remote_settings.initial_window_size;
        let mut i: usize = 0;
        assert(settings@.take(0) =~= Seq::<(u16, u32)>::empty());
        while i < settings.len()
            invariant
                i <= settings@.len(),
                c == self@,
                iws == apply_settings(c, settings@.take(i as int)).remote_settings.initial_window_size,
                !settings_overflow(c, settings@.take(i as int)),
            decreases settings@.len() - i,
        {
            let ghost s1 = settings@.take(i + 1);
            assert(s1.drop_last() =~= settings@.take(i as int));
            let (id, value) = settings[i];
            if id == 4 {
                let delta: i64 = to_i32(value) as i64 - to_i32(iws) as i64;
                if delta < i32::MIN as i64 || delta > i32::MAX as i64 {
                    proof {
                        if !settings_overflow(c, settings@) {
                            lemma_settings_prefix(c, settings@, i + 1);
                        }
                    }
                    return true;
                }
                iws = value;
            }
            i = i + 1;
        }
        assert(settings@.take(i as int) =~= settings@);
        false
    }

    /// Whether a frame other than HEADERS would compute a window or a size beyond
    /// its integer type (see `frame_overflows`).
    fn would_overflow(&self, frame: &Frame) -> (b: bool)
        ensures
            !(frame@ is Headers) ==> b == frame_overflows(self@, frame@),
    {
        match frame {
            Frame::Settings { ack, settings } => !*ack && self.settings_would_overflow(settings),
            Frame::Data { stream_id, data, .. } => match self.find_index(*stream_id) {
                Some(i) => {
                    if !self.streams[i].can_receive() {
                        return false;
                    }
                    assert(self@.streams[i as int] == self.streams@[i as int]@);
                    let n = b_as_slice(data).len();
                    let len = to_i32(n as u32) as i64;
                    let rw = self.streams[i].recv_window as i64 - len;
                    let cw = self.recv_window as i64 - len;
                    let body = bm_len(&self.streams[i].request_body);
                    rw < i32::MIN as i64 || rw > i32::MAX as i64 || cw < i32::MIN as i64 || cw > i32::MAX as i64
                        || body > usize::MAX - n
                },
                None => false,
            },
            Frame::WindowUpdate { stream_id, increment } => {
                if *stream_id != 0 {
                    return false;
                }
                let w = self.send_window as i64 + to_i32(*increment) as i64;
                w < i32::MIN as i64 || w > i32::MAX as i64
            },
            _ => false,
        }
    }

    /// Processes a frame from the peer like `process_frame`, checking first that
    /// no window, size or header-block integer would leave its type: `None` when
    /// one would (see `frame_overflows`). The connection is then unchanged, except
    /// that a HEADERS frame's block may have updated the decoder's table.
    pub fn process_frame_checked(&mut self, frame: Frame) -> (res: Option<Result<(), H2Error>>)
        requires
            old(self).wf(),
        ensures
            final(self).wf(),
            res is None <==> frame_overflows(old(self)@, frame@),
            res is None && !(frame@ is Headers) ==> final(self)@ == old(self)@,
            res is None ==> final(self)@ == (ConnV { decoder: final(self)@.decoder, ..old(self)@ }),
            res matches Some(r) ==> final(self)@ == process_frame_spec(old(self)@, frame@).0
                && match process_frame_spec(old(self)@, frame@).1 {
                    None => r is Ok,
                    Some(m) => r matches Err(H2Error::ProtocolError(e)) && e@ == m,
                },
    {
        if let Frame::Headers { stream_id, end_stream, end_headers: _, header_block } = &frame {
            return self.on_headers_checked(*stream_id, *end_stream, header_block);
        }
        if self.would_overflow(&frame) {
            return None;
        }
        Some(self.process_frame(frame))
    }

    /// Checks the client preface at the start of `data`; when it is there, marks it
    /// received and queues our SETTINGS.
    pub fn process_preface(&mut self, data: &[u8]) -> (ok: bool)
        ensures
            ok == (data@.len() >= 24 && data@.take(24) == h2_preface_spec()),
            ok ==> final(self)@ == (ConnV {
                preface_received: true,
                outgoing: old(self)@.outgoing.push(settings_frame(old(self)@.local_settings)),
                ..old(self)@
            }),
            !ok ==> final(self)@ == old(self)@,
            final(self).wf() == old(self).wf(),
    {
        let preface = super::frame::h2_preface();
        if data.len() < preface.len() {
            return false;
        }
        let mut i: usize = 0;
        while i < preface.len()
            invariant
                preface@ == h2_preface_spec(),
                preface@.len() == 24,
                data@.len() >= 24,
                i <= 24,
                forall|j: int| 0 <= j < i ==> data@[j] == preface@[j],
            decreases 24 - i,
        {
            if data[i] != preface[i] {
                assert(data@.take(24)[i as int] != h2_preface_spec()[i as int]);
                return false;
            }
            i = i + 1;
        }
        assert(data@.take(24) =~= h2_preface_spec());
        self.preface_received = true;
        self.send_settings();
        true
    }

    /// Queues a SETTINGS frame with our table size, concurrent streams, initial
    /// window and frame size.
    fn send_settings(&mut self)
        ensures
            final(self)@ == (ConnV {
                outgoing: old(self)@.outgoing.push(settings_frame(old(self)@.local_settings)),
                ..old(self)@
            }),
            final(self).wf() == old(self).wf(),
    {
        let settings = vec![
            (0x1u16, self.local_settings.header_table_size),
            (0x3u16, self.local_settings.max_concurrent_streams),
            (0x4u16, self.local_settings.initial_window_size),
            (0x5u16, self.local_settings.max_frame_size),
        ];
        let ghost before = self.outgoing@;
        let f = Frame::Settings { ack: false, settings };
        assert(f@ == settings_frame(self.local_settings));
        self.outgoing.push(f);
        assert(frames_view(self.outgoing@) =~= frames_view(before).push(f@));
    }

    /// Pushes a frame onto the outgoing queue.
    fn queue(&mut self, f: Frame)
        ensures
            final(self)@ == (ConnV { outgoing: old(self)@.outgoing.push(f@), ..old(self)@ }),
            final(self).wf() == old(self).wf(),
    {
        let ghost before = self.outgoing@;
        self.outgoing.push(f);
        assert(frames_view(self.outgoing@) =~= frames_view(before).push(f@));
    }

    /// Queues response HEADERS for a stream (the block encoded with our HPACK
    /// encoder, END_HEADERS set); the stream, if there is one, keeps the headers and
    /// is half-closed on our side when `end_stream` is set.
    pub fn send_headers(&mut self, stream_id: u32, headers: Vec<(String, String)>, end_stream: bool)
        requires
            old(self).wf(),
            !encode_overflows(old(self)@.encoder, headers_view(headers@)),
            encode_bytes(headers_view(headers@)).len() <= usize::MAX,
        ensures
            final(self).wf(),
            ({
                let h = headers_view(headers@);
                final(self)@ == (ConnV {
                    encoder: encode_table(old(self)@.encoder, h),
                    outgoing: old(self)@.outgoing.push(FrameV::Headers {
                        stream_id,
                        end_stream,
                        end_headers: true,
                        header_block: encode_bytes(h),
                    }),
                    streams: respond_headers(old(self)@.streams, stream_id, h, end_stream),
                    ..old(self)@
                })
            }),
    {
        let ghost c0 = self@;
        let header_block = self.hpack_encoder.encode(headers.as_slice());
        self.queue(Frame::Headers { stream_id, end_stream, end_headers: true, header_block });
        let ghost c1 = self@;
        if let Some(i) = self.find_index(stream_id) {
            self.streams[i].response_headers = headers;
            if end_stream {
                self.streams[i].half_close_local();
            }
            proof {
                assert(self@.streams[i as int] == self.streams@[i as int]@);
                assert(c1.streams[i as int] == c0.streams[i as int]);
                assert(self@.streams =~= respond_headers(c0.streams, stream_id, headers_view(headers@), end_stream));
            }
        }
    }

    /// Queues response DATA for a stream; with `end_stream` the stream, if there is
    /// one, is half-closed on our side.
    pub fn send_data(&mut self, stream_id: u32, data: Bytes, end_stream: bool)
        ensures
            final(self)@ == (ConnV {
                outgoing: old(self)@.outgoing.push(FrameV::Data { stream_id, end_stream, data: bytes_view(data) }),
                streams: if end_stream { close_local(old(self)@.streams, stream_id) } else { old(self)@.streams },
                ..old(self)@
            }),
            final(self).wf() == old(self).wf(),
    {
        let ghost c0 = self@;
        self.queue(Frame::Data { stream_id, end_stream, data });
        if end_stream {
            if let Some(i) = self.find_index(stream_id) {
                self.streams[i].half_close_local();
                proof {
                    assert(self@.streams[i as int] == self.streams@[i as int]@);
                    assert(self@.streams =~= close_local(c0.streams, stream_id));
                }
            }
        }
    }

    /// Hands out the queued frames, oldest first, and empties the queue.
    pub fn take_outgoing(&mut self) -> (res: Vec<Frame>)
        ensures
            frames_view(res@) == old(self)@.outgoing,
            final(self)@ == (ConnV { outgoing: Seq::empty(), ..old(self)@ }),
            final(self).wf() == old(self).wf(),
    {
        let mut out: Vec<Frame> = Vec::new();
        core::mem::swap(&mut out, &mut self.outgoing);
        assert(frames_view(self.outgoing@) =~= Seq::<FrameV>::empty());
        out
    }

    /// The stream with this id, if there is one.
    pub fn get_stream(&self, stream_id: u32) -> (res: Option<&Stream>)
        ensures
            match find_stream(self@.streams, stream_id) {
                Some(i) => res matches Some(s) && s@ == self@.streams[i],
                None => res is None,
            },
    {
        match self.find_index(stream_id) {
            Some(i) => {
                assert(self@.streams[i as int] == self.streams@[i as int]@);
                Some(&self.streams[i])
            },
            None => None,
        }
    }

    /// The stream with this id, if there is one, to change in place.
    pub fn get_stream_mut(&mut self, stream_id: u32) -> (res: Option<&mut Stream>)
        ensures
            match find_stream(old(self)@.streams, stream_id) {
                Some(i) => res matches Some(s) && s@ == old(self)@.streams[i]
                    && final(self)@ == (ConnV { streams: old(self)@.streams.update(i, final(s)@), ..old(self)@ })
                    && final(self).wf() == old(self).wf(),
                None => res is None && *final(self) == *old(self),
            },
    {
        match self.find_index(stream_id) {
            Some(i) => {
                let ghost v = self.streams@;
                let r = &mut self.streams[i];
                proof {
                    assert(streams_view(v.update(i as int, *final(r))) =~= streams_view(v).update(i as int, final(r)@));
                    assert(streams_view(v)[i as int] == v[i as int]@);
                }
                assert(after_borrow(self.streams)@ == v.update(i as int, *final(r)));
                Some(r)
            },
            None => None,
        }
    }

    /// Ids of the streams ready to be served (see `stream_ready`), in stream order.
    pub fn ready_streams(&self) -> (res: Vec<u32>)
        ensures
            res@ == ready_ids(self@.streams),
    {
        let mut res: Vec<u32> = Vec::new();
        let mut i: usize = 0;
        while i < self.streams.len()
            invariant
                i <= self.streams@.len(),
                res@ == ready_ids(self@.streams.take(i as int)),
            decreases self.streams@.len() - i,
        {
            let ghost s1 = self@.streams.take(i + 1);
            assert(s1.drop_last() =~= self@.streams.take(i as int));
            let s = &self.streams[i];
            let ready = s.state == StreamState::HalfClosedRemote
                || (s.state == StreamState::Open && s.request_headers.len() > 0);
            if ready {
                res.push(s.id);
            }
            i = i + 1;
        }
        assert(self@.streams.take(i as int) =~= self@.streams);
        res
    }

    /// The number of streams not closed.
    pub fn active_stream_count(&self) -> (n: usize)
        ensures
            n == active_count(self@.streams),
    {
        let mut n: usize = 0;
        let mut i: usize = 0;
        while i < self.streams.len()
            invariant
                i <= self.streams@.len(),
                n == active_count(self@.streams.take(i as int)),
                n <= i,
            decreases self.streams@.len() - i,
        {
            let ghost s1 = self@.streams.take(i + 1);
            assert(s1.drop_last() =~= self@.streams.take(i as int));
            if self.streams[i].state != StreamState::Closed {
                n = n + 1;
            }
            i = i + 1;
        }
        assert(self@.streams.take(i as int) =~= self@.streams);
        n
    }

    /// The settings we advertise.
    pub fn local_settings(&self) -> (s: H2Settings)
        ensures
            s == self@.local_settings,
    {
        self.local_settings
    }

    /// The settings the peer has sent (the defaults until it sends any).
    pub fn remote_settings(&self) -> (s: H2Settings)
        ensures
            s == self@.remote_settings,
    {
        self.remote_settings
    }

    /// Whether the peer has sent GOAWAY.
    pub fn is_going_away(&self) -> (b: bool)
        ensures
            b == self@.going_away,
    {
        self.going_away
    }
}

impl Default for H2Connection {
    /// A connection advertising the default settings.
    fn default() -> (c: Self)
        ensures
            c.wf(),
            c@ == (ConnV {
                local_settings: default_settings(),
                remote_settings: default_settings(),
                streams: Seq::empty(),
                encoder: TableV { entries: Seq::empty(), max_size: 4096, current_size: 0 },
                decoder: TableV { entries: Seq::empty(), max_size: 4096, current_size: 0 },
                next_server_stream_id: 2,
                send_window: 65535,
                recv_window: 65535,
                preface_received: false,
                settings_acked: false,
                outgoing: Seq::empty(),
                going_away: false,
                last_stream_id: 0,
            }),
    {
        H2Connection::new(H2Settings::default())
    }
}

} // verus!

verus! {

/// A SETTINGS frame from the peer that is not itself an acknowledgement is
/// answered by an empty SETTINGS acknowledgement, queued last.
pub proof fn law_settings_acknowledged(c: ConnV, settings: Seq<(u16, u32)>)
    ensures
        ({
            let out = process_frame_spec(c, FrameV::Settings { ack: false, settings }).0.outgoing;
            &&& out.len() == c.outgoing.len() + 1
            &&& out.last() == (FrameV::Settings { ack: true, settings: Seq::empty() })
            &&& out.take(c.outgoing.len() as int) == c.outgoing
        }),
{
    lemma_settings_keep_outgoing(c, settings);
    let out = process_frame_spec(c, FrameV::Settings { ack: false, settings }).0.outgoing;
    assert(out.take(c.outgoing.len() as int) =~= c.outgoing);
}

proof fn lemma_settings_keep_outgoing(c: ConnV, s: Seq<(u16, u32)>)
    ensures
        apply_settings(c, s).outgoing == c.outgoing,
        apply_settings(c, s).streams.len() == c.streams.len(),
    decreases s.len(),
{
    if s.len() > 0 {
        lemma_settings_keep_outgoing(c, s.drop_last());
    }
}

/// A PING that is not an acknowledgement is echoed back with ACK set and the same data.
pub proof fn law_ping_echoed(c: ConnV, data: Seq<u8>)
    ensures
        process_frame_spec(c, FrameV::Ping { ack: false, data }).0.outgoing
            == c.outgoing.push(FrameV::Ping { ack: true, data }),
{
}

/// A request whose HEADERS carry END_STREAM, on a stream that is new or idle, is
/// ready to be served with those headers; answering it with END_STREAM closes the stream.
pub proof fn law_request_response_closes(c: ConnV, id: u32, hs: Seq<(Seq<char>, Seq<char>)>)
    requires
        match find_stream(c.streams, id) {
            Some(i) => c.streams[i].state == StreamState::Idle,
            None => true,
        },
    ensures
        ({
            let s1 = streams_after_headers(c, id, hs, true);
            let k = find_stream(s1, id);
            &&& k is Some
            &&& s1[k->0].state == StreamState::HalfClosedRemote
            &&& stream_ready(s1[k->0])
            &&& s1[k->0].request_headers == hs
            &&& close_local(s1, id)[k->0].state == StreamState::Closed
        }),
{
    lemma_find_from(c.streams, id, 0);
    let s1 = streams_after_headers(c, id, hs, true);
    let k = match find_stream(c.streams, id) {
        Some(i) => i,
        None => c.streams.len() as int,
    };
    assert forall|j: int| 0 <= j < k implies s1[j].id != id by {
        assert(s1[j] == c.streams[j]);
    }
    lemma_find_first(s1, id, k, 0);
}

proof fn lemma_find_first(s: Seq<StreamV>, id: u32, k: int, i: int)
    requires
        0 <= i <= k < s.len(),
        s[k].id == id,
        forall|j: int| 0 <= j < k ==> s[j].id != id,
    ensures
        find_from(s, id, i) == Some(k),
    decreases k - i,
{
    if i < k {
        lemma_find_first(s, id, k, i + 1);
    }
}

/// HEADERS whose block the peer's HPACK encoder made, from the table our decoder
/// holds, are accepted: the stream gets exactly the encoded header list, and our
/// decoder ends with the table the peer's encoder ends with.
pub proof fn law_headers_from_synced_encoder(c: ConnV, id: u32, end_stream: bool, hs: Seq<(Seq<char>, Seq<char>)>)
    requires
        !encode_overflows(c.decoder, hs),
        encode_bytes(hs).len() <= usize::MAX,
    ensures
        ({
            let f = FrameV::Headers { stream_id: id, end_stream, end_headers: true, header_block: encode_bytes(hs) };
            let (c1, err) = process_frame_spec(c, f);
            &&& err is None
            &&& !frame_overflows(c, f)
            &&& c1.decoder == encode_table(c.decoder, hs)
            &&& find_stream(c1.streams, id) matches Some(k) && c1.streams[k].request_headers == hs
        }),
{
    law_hpack_round_trip(c.decoder, hs);
    lemma_find_from(c.streams, id, 0);
    let s1 = streams_after_headers(c, id, hs, end_stream);
    let k = match find_stream(c.streams, id) {
        Some(i) => i,
        None => c.streams.len() as int,
    };
    assert forall|j: int| 0 <= j < k implies s1[j].id != id by {
        assert(s1[j] == c.streams[j]);
    }
    lemma_find_first(s1, id, k, 0);
}

/// Each SETTINGS identifier sets the setting RFC 7540 (section 6.5.2) names:
/// 0x1 the header table size, 0x2 server push, 0x3 the concurrent stream limit,
/// 0x4 the initial window size, 0x5 the maximum frame size, 0x6 the maximum
/// header list size; the peer's other settings stay, and an unknown identifier
/// changes none.
pub proof fn law_settings_identifiers(c: ConnV, id: u16, v: u32)
    ensures
        ({
            let r = process_frame_spec(c, FrameV::Settings { ack: false, settings: seq![(id, v)] }).0.remote_settings;
            let o = c.remote_settings;
            &&& id == 1 ==> r == (H2Settings { header_table_size: v, ..o })
            &&& id == 2 ==> r == (H2Settings { enable_push: v != 0, ..o })
            &&& id == 3 ==> r == (H2Settings { max_concurrent_streams: v, ..o })
            &&& id == 4 ==> r == (H2Settings { initial_window_size: v, ..o })
            &&& id == 5 ==> r == (H2Settings { max_frame_size: v, ..o })
            &&& id == 6 ==> r == (H2Settings { max_header_list_size: v, ..o })
            &&& (id == 0 || id > 6) ==> r == o
        }),
{
    let l = seq![(id, v)];
    assert(l.drop_last() =~= Seq::<(u16, u32)>::empty());
    assert(l.last() == (id, v));
    assert(apply_settings(c, l.drop_last()) == c);
    assert(apply_settings(c, l) == apply_setting(c, id, v));
}

/// The SETTINGS a connection advertises reach the peer as they are: a peer that
/// processes them takes our header table size, concurrent stream limit, initial
/// window size and maximum frame size, and keeps its own push and header list
/// settings.
pub proof fn law_settings_reach_the_peer(peer: ConnV, s: H2Settings)
    ensures
        ({
            let r = process_frame_spec(peer, settings_frame(s)).0.remote_settings;
            &&& r.header_table_size == s.header_table_size
            &&& r.max_concurrent_streams == s.max_concurrent_streams
            &&& r.initial_window_size == s.initial_window_size
            &&& r.max_frame_size == s.max_frame_size
            &&& r.enable_push == peer.remote_settings.enable_push
            &&& r.max_header_list_size == peer.remote_settings.max_header_list_size
        }),
{
    let l = seq![(1u16, s.header_table_size), (3u16, s.max_concurrent_streams),
        (4u16, s.initial_window_size), (5u16, s.max_frame_size)];
    assert(l.drop_last() =~= seq![(1u16, s.header_table_size), (3u16, s.max_concurrent_streams),
        (4u16, s.initial_window_size)]);
    assert(l.drop_last().drop_last() =~= seq![(1u16, s.header_table_size), (3u16, s.max_concurrent_streams)]);
    assert(l.drop_last().drop_last().drop_last() =~= seq![(1u16, s.header_table_size)]);
    let l1 = l.drop_last().drop_last().drop_last();
    let l2 = l.drop_last().drop_last();
    let l3 = l.drop_last();
    assert(l1.drop_last() =~= Seq::<(u16, u32)>::empty());
    assert(apply_settings(peer, l1.drop_last()) == peer);
    assert(l1.last() == (1u16, s.header_table_size));
    let c1 = apply_setting(peer, 1, s.header_table_size);
    assert(apply_settings(peer, l1) == c1);
    assert(l2.drop_last() == l1);
    assert(l2.last() == (3u16, s.max_concurrent_streams));
    let c2 = apply_setting(c1, 3, s.max_concurrent_streams);
    assert(apply_settings(peer, l2) == c2);
    assert(l3.drop_last() == l2);
    assert(l3.last() == (4u16, s.initial_window_size));
    let c3 = apply_setting(c2, 4, s.initial_window_size);
    assert(apply_settings(peer, l3) == c3);
    assert(l.last() == (5u16, s.max_frame_size));
    let c4 = apply_setting(c3, 5, s.max_frame_size);
    assert(apply_settings(peer, l) == c4);
    assert(settings_frame(s) == (FrameV::Settings { ack: false, settings: l }));
}

} // verus!
