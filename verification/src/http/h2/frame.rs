//! HTTP/2 frames: the 9-byte frame header and the payload of each frame type.
use vstd::prelude::*;
use bytes::{Bytes, BytesMut};
use crate::buf::{bytes_view, bytes_mut_view, be16, be32, bm_new, bm_with_capacity, bm_len, bm_as_slice, bm_advance, bm_split_to, bm_freeze, bm_put_u8, bm_put_u16, bm_put_u32, bm_extend, b_as_slice, b_slice_from, b_copy_from_slice};

verus! {

/// Size of the HTTP/2 frame header.
pub const FRAME_HEADER_SIZE: usize = 9;

/// END_STREAM flag (DATA, HEADERS).
pub const FLAG_END_STREAM: u8 = 0x1;
/// END_HEADERS flag (HEADERS, CONTINUATION).
pub const FLAG_END_HEADERS: u8 = 0x4;
/// PADDED flag.
pub const FLAG_PADDED: u8 = 0x8;
/// PRIORITY flag.
pub const FLAG_PRIORITY: u8 = 0x20;
/// ACK flag (SETTINGS, PING).
pub const FLAG_ACK: u8 = 0x1;

/// The client connection preface.
pub open spec fn h2_preface_spec() -> Seq<u8> {
    seq![0x50u8, 0x52, 0x49, 0x20, 0x2a, 0x20, 0x48, 0x54, 0x54, 0x50, 0x2f, 0x32, 0x2e, 0x30,
        0x0d, 0x0a, 0x0d, 0x0a, 0x53, 0x4d, 0x0d, 0x0a, 0x0d, 0x0a]
}

/// The client connection preface, `PRI * HTTP/2.0\r\n\r\nSM\r\n\r\n`.
pub fn h2_preface() -> (res: Vec<u8>)
    ensures
        res@ == h2_preface_spec(),
{
    let res = vec![0x50u8, 0x52, 0x49, 0x20, 0x2a, 0x20, 0x48, 0x54, 0x54, 0x50, 0x2f, 0x32, 0x2e, 0x30,
        0x0d, 0x0a, 0x0d, 0x0a, 0x53, 0x4d, 0x0d, 0x0a, 0x0d, 0x0a];
    assert(res@ =~= h2_preface_spec());
    res
}

/// Errors of the HTTP/2 layer.
#[derive(Debug)]
pub enum H2Error {
    FrameTooShort,
    InvalidFrameType(u8),
    FrameTooLarge(usize, usize),
    ProtocolError(String),
    FlowControlError,
    StreamClosed,
}

/// HTTP/2 frame types.
#[derive(Debug, Clone, Copy, PartialEq, Eq, Structural)]
pub enum FrameType {
    Data,
    Headers,
    Priority,
    RstStream,
    Settings,
    PushPromise,
    Ping,
    GoAway,
    WindowUpdate,
    Continuation,
}

/// HTTP/2 settings identifiers.
#[derive(Debug, Clone, Copy, PartialEq, Eq, Structural)]
pub enum SettingsId {
    HeaderTableSize,
    EnablePush,
    MaxConcurrentStreams,
    InitialWindowSize,
    MaxFrameSize,
    MaxHeaderListSize,
}

/// The frame type a type byte names, if any.
pub open spec fn frame_type_of(v: u8) -> Option<FrameType> {
    if v == 0 { Some(FrameType::Data) }
    else if v == 1 { Some(FrameType::Headers) }
    else if v == 2 { Some(FrameType::Priority) }
    else if v == 3 { Some(FrameType::RstStream) }
    else if v == 4 { Some(FrameType::Settings) }
    else if v == 5 { Some(FrameType::PushPromise) }
    else if v == 6 { Some(FrameType::Ping) }
    else if v == 7 { Some(FrameType::GoAway) }
    else if v == 8 { Some(FrameType::WindowUpdate) }
    else if v == 9 { Some(FrameType::Continuation) }
    else { None }
}

/// The type byte of a frame type.
pub open spec fn frame_type_code(t: FrameType) -> u8 {
    match t {
        FrameType::Data => 0,
        FrameType::Headers => 1,
        FrameType::Priority => 2,
        FrameType::RstStream => 3,
        FrameType::Settings => 4,
        FrameType::PushPromise => 5,
        FrameType::Ping => 6,
        FrameType::GoAway => 7,
        FrameType::WindowUpdate => 8,
        FrameType::Continuation => 9,
    }
}

impl FrameType {
    /// The frame type of a type byte; an unknown byte is an `InvalidFrameType` error.
    pub fn try_from_u8(value: u8) -> (res: Result<FrameType, H2Error>)
        ensures
            match frame_type_of(value) {
                Some(t) => res == Ok::<FrameType, H2Error>(t),
                None => res == Err::<FrameType, H2Error>(H2Error::InvalidFrameType(value)),
            },
    {
        match value {
            0 => Ok(FrameType::Data),
            1 => Ok(FrameType::Headers),
            2 => Ok(FrameType::Priority),
            3 => Ok(FrameType::RstStream),
            4 => Ok(FrameType::Settings),
            5 => Ok(FrameType::PushPromise),
            6 => Ok(FrameType::Ping),
            7 => Ok(FrameType::GoAway),
            8 => Ok(FrameType::WindowUpdate),
            9 => Ok(FrameType::Continuation),
            _ => Err(H2Error::InvalidFrameType(value)),
        }
    }

    /// The type byte of this frame type.
    pub fn to_u8(self) -> (res: u8)
        ensures
            res == frame_type_code(self),
    {
        match self {
            FrameType::Data => 0,
            FrameType::Headers => 1,
            FrameType::Priority => 2,
            FrameType::RstStream => 3,
            FrameType::Settings => 4,
            FrameType::PushPromise => 5,
            FrameType::Ping => 6,
            FrameType::GoAway => 7,
            FrameType::WindowUpdate => 8,
            FrameType::Continuation => 9,
        }
    }
}

/// An HTTP/2 frame.
#[derive(Debug, Clone)]
pub enum Frame {
    Data { stream_id: u32, end_stream: bool, data: Bytes },
    Headers { stream_id: u32, end_stream: bool, end_headers: bool, header_block: Bytes },
    Priority { stream_id: u32, exclusive: bool, dependency: u32, weight: u8 },
    RstStream { stream_id: u32, error_code: u32 },
    Settings { ack: bool, settings: Vec<(u16, u32)> },
    PushPromise { stream_id: u32, promised_stream_id: u32, header_block: Bytes },
    Ping { ack: bool, data: [u8; 8] },
    GoAway { last_stream_id: u32, error_code: u32, debug_data: Bytes },
    WindowUpdate { stream_id: u32, increment: u32 },
    Continuation { stream_id: u32, end_headers: bool, header_block: Bytes },
}

/// A frame as the contracts see it: payloads are byte sequences.
pub enum FrameV {
    Data { stream_id: u32, end_stream: bool, data: Seq<u8> },
    Headers { stream_id: u32, end_stream: bool, end_headers: bool, header_block: Seq<u8> },
    Priority { stream_id: u32, exclusive: bool, dependency: u32, weight: u8 },
    RstStream { stream_id: u32, error_code: u32 },
    Settings { ack: bool, settings: Seq<(u16, u32)> },
    PushPromise { stream_id: u32, promised_stream_id: u32, header_block: Seq<u8> },
    Ping { ack: bool, data: Seq<u8> },
    GoAway { last_stream_id: u32, error_code: u32, debug_data: Seq<u8> },
    WindowUpdate { stream_id: u32, increment: u32 },
    Continuation { stream_id: u32, end_headers: bool, header_block: Seq<u8> },
}

impl Frame {
    /// The frame, with its buffers taken by their contents.
    pub open spec fn view(&self) -> FrameV {
        match *self {
            Frame::Data { stream_id, end_stream, data } =>
                FrameV::Data { stream_id, end_stream, data: bytes_view(data) },
            Frame::Headers { stream_id, end_stream, end_headers, header_block } =>
                FrameV::Headers { stream_id, end_stream, end_headers, header_block: bytes_view(header_block) },
            Frame::Priority { stream_id, exclusive, dependency, weight } =>
                FrameV::Priority { stream_id, exclusive, dependency, weight },
            Frame::RstStream { stream_id, error_code } => FrameV::RstStream { stream_id, error_code },
            Frame::Settings { ack, settings } => FrameV::Settings { ack, settings: settings@ },
            Frame::PushPromise { stream_id, promised_stream_id, header_block } =>
                FrameV::PushPromise { stream_id, promised_stream_id, header_block: bytes_view(header_block) },
            Frame::Ping { ack, data } => FrameV::Ping { ack, data: data@ },
            Frame::GoAway { last_stream_id, error_code, debug_data } =>
                FrameV::GoAway { last_stream_id, error_code, debug_data: bytes_view(debug_data) },
            Frame::WindowUpdate { stream_id, increment } => FrameV::WindowUpdate { stream_id, increment },
            Frame::Continuation { stream_id, end_headers, header_block } =>
                FrameV::Continuation { stream_id, end_headers, header_block: bytes_view(header_block) },
        }
    }
}

/// A parse result, with the frame taken by its view.
pub open spec fn parse_result_view(r: Result<Option<Frame>, H2Error>) -> Result<Option<FrameV>, H2Error> {
    match r {
        Ok(Some(f)) => Ok(Some(f.view())),
        Ok(None) => Ok(None),
        Err(e) => Err(e),
    }
}

/// Big-endian 16-bit value at `i`.
pub open spec fn u16_at(b: Seq<u8>, i: int) -> int {
    b[i] * 256 + b[i + 1]
}

/// Big-endian 24-bit value at `i`.
pub open spec fn u24_at(b: Seq<u8>, i: int) -> int {
    b[i] * 0x10000 + b[i + 1] * 256 + b[i + 2]
}

/// Big-endian 32-bit value at `i`.
pub open spec fn u32_at(b: Seq<u8>, i: int) -> int {
    b[i] * 0x1000000 + b[i + 1] * 0x10000 + b[i + 2] * 256 + b[i + 3]
}

/// Big-endian 31-bit value at `i`, the top (reserved) bit dropped.
pub open spec fn u31_at(b: Seq<u8>, i: int) -> int {
    (b[i] & 0x7f) * 0x1000000 + b[i + 1] * 0x10000 + b[i + 2] * 256 + b[i + 3]
}

/// The (identifier, value) pairs of a SETTINGS payload; a trailing partial entry is ignored.
pub open spec fn settings_of(p: Seq<u8>) -> Seq<(u16, u32)> {
    Seq::new(p.len() / 6, |i: int| (u16_at(p, 6 * i) as u16, u32_at(p, 6 * i + 2) as u32))
}

/// The frame a complete payload of the given type decodes to.
pub open spec fn decode_payload(t: FrameType, flags: u8, stream_id: u32, p: Seq<u8>) -> Result<FrameV, H2Error> {
    match t {
        FrameType::Data => Ok(FrameV::Data { stream_id, end_stream: flags & 1 != 0, data: p }),
        FrameType::Headers => Ok(FrameV::Headers {
            stream_id,
            end_stream: flags & 1 != 0,
            end_headers: flags & 4 != 0,
            header_block: p,
        }),
        FrameType::Settings => Ok(FrameV::Settings { ack: flags & 1 != 0, settings: settings_of(p) }),
        FrameType::WindowUpdate => if p.len() < 4 { Err(H2Error::FrameTooShort) } else {
            Ok(FrameV::WindowUpdate { stream_id, increment: u31_at(p, 0) as u32 })
        },
        FrameType::Ping => if p.len() < 8 { Err(H2Error::FrameTooShort) } else {
            Ok(FrameV::Ping { ack: flags & 1 != 0, data: p.take(8) })
        },
        FrameType::GoAway => if p.len() < 8 { Err(H2Error::FrameTooShort) } else {
            Ok(FrameV::GoAway {
                last_stream_id: u31_at(p, 0) as u32,
                error_code: u32_at(p, 4) as u32,
                debug_data: p.skip(8),
            })
        },
        FrameType::RstStream => if p.len() < 4 { Err(H2Error::FrameTooShort) } else {
            Ok(FrameV::RstStream { stream_id, error_code: u32_at(p, 0) as u32 })
        },
        FrameType::Priority => if p.len() < 5 { Err(H2Error::FrameTooShort) } else {
            Ok(FrameV::Priority {
                stream_id,
                exclusive: p[0] & 0x80 != 0,
                dependency: u31_at(p, 0) as u32,
                weight: p[4],
            })
        },
        FrameType::PushPromise => if p.len() < 4 { Err(H2Error::FrameTooShort) } else {
            Ok(FrameV::PushPromise {
                stream_id,
                promised_stream_id: u31_at(p, 0) as u32,
                header_block: p.skip(4),
            })
        },
        FrameType::Continuation => Ok(FrameV::Continuation { stream_id, end_headers: flags & 4 != 0, header_block: p }),
    }
}

/// What parsing the front of a buffer gives, and how many bytes it consumes.
///
/// Fewer than 9 bytes, or a frame whose payload has not fully arrived, give
/// `Ok(None)` and consume nothing; an unknown type byte is an error that
/// consumes nothing; otherwise the whole frame is consumed, also when its
/// payload turns out too short for its type.
pub open spec fn parse_spec(b: Seq<u8>) -> (Result<Option<FrameV>, H2Error>, int) {
    if b.len() < 9 {
        (Ok(None), 0)
    } else {
        match frame_type_of(b[3]) {
            None => (Err(H2Error::InvalidFrameType(b[3])), 0),
            Some(t) => {
                let length = u24_at(b, 0);
                if b.len() < 9 + length {
                    (Ok(None), 0)
                } else {
                    let payload = b.subrange(9, 9 + length);
                    let r = match decode_payload(t, b[4], u31_at(b, 5) as u32, payload) {
                        Ok(f) => Ok(Some(f)),
                        Err(e) => Err(e),
                    };
                    (r, 9 + length)
                }
            },
        }
    }
}

/// Big-endian 31-bit value of four bytes, the top bit dropped.
fn read_u31(a: u8, b: u8, c: u8, d: u8) -> (res: u32)
    ensures
        res == ((a & 0x7f) * 0x1000000 + b * 0x10000 + c * 256 + d),
{
    let top = a & 0x7f;
    assert(top <= 0x7f) by (bit_vector)
        requires top == a & 0x7f;
    (top as u32) * 0x1000000 + (b as u32) * 0x10000 + (c as u32) * 256 + (d as u32)
}

/// Big-endian 32-bit value of four bytes.
fn read_u32(a: u8, b: u8, c: u8, d: u8) -> (res: u32)
    ensures
        res == (a * 0x1000000 + b * 0x10000 + c * 256 + d),
{
    (a as u32) * 0x1000000 + (b as u32) * 0x10000 + (c as u32) * 256 + (d as u32)
}

impl Frame {
    /// Parses one frame from the front of `buf`, consuming it (see `parse_spec`).
    pub fn parse(buf: &mut BytesMut) -> (res: Result<Option<Frame>, H2Error>)
        ensures
            parse_result_view(res) == parse_spec(bytes_mut_view(*old(buf))).0,
            bytes_mut_view(*final(buf)) == bytes_mut_view(*old(buf)).skip(parse_spec(bytes_mut_view(*old(buf))).1),
    {
        let ghost b = bytes_mut_view(*buf);
        let n = bm_len(buf);
        if n < FRAME_HEADER_SIZE {
            assert(b.skip(0) =~= b);
            return Ok(None);
        }
        let s = bm_as_slice(buf);
        let length: usize = (s[0] as usize) * 65536 + (s[1] as usize) * 256 + (s[2] as usize);
        let frame_type = match FrameType::try_from_u8(s[3]) {
            Ok(t) => t,
            Err(e) => {
                assert(b.skip(0) =~= b);
                return Err(e);
            },
        };
        let flags = s[4];
        let stream_id = read_u31(s[5], s[6], s[7], s[8]);
        let total_len = FRAME_HEADER_SIZE + length;
        if n < total_len {
            assert(b.skip(0) =~= b);
            return Ok(None);
        }
        bm_advance(buf, FRAME_HEADER_SIZE);
        let payload_mut = bm_split_to(buf, length);
        let payload = bm_freeze(payload_mut);
        proof {
            assert(bytes_view(payload) =~= b.subrange(9, 9 + length));
            assert(bytes_mut_view(*buf) =~= b.skip(9 + length));
        }
        let ghost pv = bytes_view(payload);
        let frame = match frame_type {
            FrameType::Data => Frame::Data { stream_id, end_stream: flags & FLAG_END_STREAM != 0, data: payload },
            FrameType::Headers => Frame::Headers {
                stream_id,
                end_stream: flags & FLAG_END_STREAM != 0,
                end_headers: flags & FLAG_END_HEADERS != 0,
                header_block: payload,
            },
            FrameType::Settings => {
                let ack = flags & FLAG_ACK != 0;
                let p = b_as_slice(&payload);
                let settings = parse_settings(p);
                Frame::Settings { ack, settings }
            },
            FrameType::WindowUpdate => {
                let p = b_as_slice(&payload);
                if p.len() < 4 {
                    return Err(H2Error::FrameTooShort);
                }
                let increment = read_u31(p[0], p[1], p[2], p[3]);
                Frame::WindowUpdate { stream_id, increment }
            },
            FrameType::Ping => {
                let p = b_as_slice(&payload);
                if p.len() < 8 {
                    return Err(H2Error::FrameTooShort);
                }
                let data: [u8; 8] = [p[0], p[1], p[2], p[3], p[4], p[5], p[6], p[7]];
                assert(data@ =~= pv.take(8));
                Frame::Ping { ack: flags & FLAG_ACK != 0, data }
            },
            FrameType::GoAway => {
                let p = b_as_slice(&payload);
                if p.len() < 8 {
                    return Err(H2Error::FrameTooShort);
                }
                let last_stream_id = read_u31(p[0], p[1], p[2], p[3]);
                let error_code = read_u32(p[4], p[5], p[6], p[7]);
                let debug_data = b_slice_from(&payload, 8);
                Frame::GoAway { last_stream_id, error_code, debug_data }
            },
            FrameType::RstStream => {
                let p = b_as_slice(&payload);
                if p.len() < 4 {
                    return Err(H2Error::FrameTooShort);
                }
                let error_code = read_u32(p[0], p[1], p[2], p[3]);
                Frame::RstStream { stream_id, error_code }
            },
            FrameType::Priority => {
                let p = b_as_slice(&payload);
                if p.len() < 5 {
                    return Err(H2Error::FrameTooShort);
                }
                let exclusive = p[0] & 0x80 != 0;
                let dependency = read_u31(p[0], p[1], p[2], p[3]);
                let weight = p[4];
                Frame::Priority { stream_id, exclusive, dependency, weight }
            },
            FrameType::PushPromise => {
                let p = b_as_slice(&payload);
                if p.len() < 4 {
                    return Err(H2Error::FrameTooShort);
                }
                let promised_stream_id = read_u31(p[0], p[1], p[2], p[3]);
                let header_block = b_slice_from(&payload, 4);
                Frame::PushPromise { stream_id, promised_stream_id, header_block }
            },
            FrameType::Continuation => Frame::Continuation {
                stream_id,
                end_headers: flags & FLAG_END_HEADERS != 0,
                header_block: payload,
            },
        };
        Ok(Some(frame))
    }
}

/// The payload bytes of a list of settings: 2-byte identifier, 4-byte value, each big-endian.
pub open spec fn settings_bytes(s: Seq<(u16, u32)>) -> Seq<u8>
    decreases s.len(),
{
    if s.len() == 0 {
        Seq::empty()
    } else {
        settings_bytes(s.drop_last()) + be16(s.last().0) + be32(s.last().1)
    }
}

proof fn lemma_settings_bytes_len(s: Seq<(u16, u32)>)
    ensures
        settings_bytes(s).len() == 6 * s.len(),
    decreases s.len(),
{
    if s.len() > 0 {
        lemma_settings_bytes_len(s.drop_last());
    }
}

/// Flag byte from a condition.
pub open spec fn flag_if(c: bool, f: u8) -> u8 {
    if c { f } else { 0 }
}

/// Type, flags, stream id and payload a frame is written with.
pub open spec fn frame_parts(f: FrameV) -> (FrameType, u8, u32, Seq<u8>) {
    match f {
        FrameV::Data { stream_id, end_stream, data } => (FrameType::Data, flag_if(end_stream, 1), stream_id, data),
        FrameV::Headers { stream_id, end_stream, end_headers, header_block } =>
            (FrameType::Headers, flag_if(end_stream, 1) | flag_if(end_headers, 4), stream_id, header_block),
        FrameV::Settings { ack, settings } => (FrameType::Settings, flag_if(ack, 1), 0, settings_bytes(settings)),
        FrameV::WindowUpdate { stream_id, increment } =>
            (FrameType::WindowUpdate, 0, stream_id, be32(increment & 0x7fffffff)),
        FrameV::Ping { ack, data } => (FrameType::Ping, flag_if(ack, 1), 0, data),
        FrameV::GoAway { last_stream_id, error_code, debug_data } =>
            (FrameType::GoAway, 0, 0, be32(last_stream_id & 0x7fffffff) + be32(error_code) + debug_data),
        FrameV::RstStream { stream_id, error_code } => (FrameType::RstStream, 0, stream_id, be32(error_code)),
        FrameV::Priority { stream_id, exclusive, dependency, weight } =>
            (FrameType::Priority, 0, stream_id,
                be32(if exclusive { dependency | 0x80000000 } else { dependency }) + seq![weight]),
        FrameV::PushPromise { stream_id, promised_stream_id, header_block } =>
            (FrameType::PushPromise, 0, stream_id, be32(promised_stream_id & 0x7fffffff) + header_block),
        FrameV::Continuation { stream_id, end_headers, header_block } =>
            (FrameType::Continuation, flag_if(end_headers, 4), stream_id, header_block),
    }
}

/// The 9-byte header: 24-bit length (truncated), type, flags, 32-bit stream id.
pub open spec fn header_bytes(len: usize, t: FrameType, flags: u8, stream_id: u32) -> Seq<u8> {
    seq![(len >> 16usize) as u8, (len >> 8usize) as u8, len as u8, frame_type_code(t), flags] + be32(stream_id)
}

/// The bytes a frame is written as.
pub open spec fn serialize_spec(f: FrameV) -> Seq<u8> {
    let (t, flags, sid, payload) = frame_parts(f);
    header_bytes(payload.len() as usize, t, flags, sid) + payload
}

impl Frame {
    /// Appends the frame's bytes to `buf`.
    pub fn serialize(&self, buf: &mut BytesMut)
        requires
            bytes_mut_view(*old(buf)).len() + serialize_spec(self.view()).len() <= usize::MAX,
        ensures
            bytes_mut_view(*final(buf)) == bytes_mut_view(*old(buf)) + serialize_spec(self.view()),
    {
        let ghost parts = frame_parts(self.view());
        let (frame_type, flags, stream_id, payload): (FrameType, u8, u32, Bytes) = match self {
            Frame::Data { stream_id, end_stream, data } => {
                let flags = if *end_stream { FLAG_END_STREAM } else { 0 };
                (FrameType::Data, flags, *stream_id, data.clone())
            },
            Frame::Headers { stream_id, end_stream, end_headers, header_block } => {
                let mut flags = 0u8;
                if *end_stream {
                    flags = flags | FLAG_END_STREAM;
                }
                if *end_headers {
                    flags = flags | FLAG_END_HEADERS;
                }
                assert(flags == flag_if(*end_stream, 1) | flag_if(*end_headers, 4)) by {
                    let a = flag_if(*end_stream, 1);
                    let b = flag_if(*end_headers, 4);
                    assert(0u8 | 1u8 == 1u8 && 0u8 | 4u8 == 4u8 && 1u8 | 4u8 == 5u8) by (bit_vector);
                    assert(0u8 | 0u8 == 0u8 && 1u8 | 0u8 == 1u8) by (bit_vector);
                }
                (FrameType::Headers, flags, *stream_id, header_block.clone())
            },
            Frame::Settings { ack, settings } => {
                let flags = if *ack { FLAG_ACK } else { 0 };
                proof { lemma_settings_bytes_len(settings@); }
                let payload = write_settings(settings);
                (FrameType::Settings, flags, 0, payload)
            },
            Frame::WindowUpdate { stream_id, increment } => {
                let mut payload = bm_with_capacity(4);
                bm_put_u32(&mut payload, *increment & 0x7fffffff);
                (FrameType::WindowUpdate, 0, *stream_id, bm_freeze(payload))
            },
            Frame::Ping { ack, data } => {
                let flags = if *ack { FLAG_ACK } else { 0 };
                (FrameType::Ping, flags, 0, b_copy_from_slice(data.as_slice()))
            },
            Frame::GoAway { last_stream_id, error_code, debug_data } => {
                let mut payload = bm_new();
                bm_put_u32(&mut payload, *last_stream_id & 0x7fffffff);
                bm_put_u32(&mut payload, *error_code);
                let d = b_as_slice(debug_data);
                bm_extend(&mut payload, d);
                (FrameType::GoAway, 0, 0, bm_freeze(payload))
            },
            Frame::RstStream { stream_id, error_code } => {
                let mut payload = bm_with_capacity(4);
                bm_put_u32(&mut payload, *error_code);
                (FrameType::RstStream, 0, *stream_id, bm_freeze(payload))
            },
            Frame::Priority { stream_id, exclusive, dependency, weight } => {
                let mut payload = bm_with_capacity(5);
                let dep = if *exclusive { *dependency | 0x80000000 } else { *dependency };
                bm_put_u32(&mut payload, dep);
                bm_put_u8(&mut payload, *weight);
                (FrameType::Priority, 0, *stream_id, bm_freeze(payload))
            },
            Frame::PushPromise { stream_id, promised_stream_id, header_block } => {
                let mut payload = bm_new();
                bm_put_u32(&mut payload, *promised_stream_id & 0x7fffffff);
                let h = b_as_slice(header_block);
                bm_extend(&mut payload, h);
                (FrameType::PushPromise, 0, *stream_id, bm_freeze(payload))
            },
            Frame::Continuation { stream_id, end_headers, header_block } => {
                let flags = if *end_headers { FLAG_END_HEADERS } else { 0 };
                (FrameType::Continuation, flags, *stream_id, header_block.clone())
            },
        };
        proof {
            assert(frame_type == parts.0 && flags == parts.1 && stream_id == parts.2);
            assert(bytes_view(payload) =~= parts.3);
        }
        let p = b_as_slice(&payload);
        let len = p.len();
        bm_put_u8(buf, (len >> 16) as u8);
        bm_put_u8(buf, (len >> 8) as u8);
        bm_put_u8(buf, len as u8);
        bm_put_u8(buf, frame_type.to_u8());
        bm_put_u8(buf, flags);
        bm_put_u32(buf, stream_id);
        bm_extend(buf, p);
        assert(bytes_mut_view(*buf) =~= bytes_mut_view(*old(buf)) + serialize_spec(self.view()));
    }

    /// The stream a frame belongs to; 0 for connection-level frames.
    pub fn stream_id(&self) -> (res: u32)
        ensures
            res == frame_parts(self.view()).2,
    {
        match self {
            Frame::Data { stream_id, .. } => *stream_id,
            Frame::Headers { stream_id, .. } => *stream_id,
            Frame::Priority { stream_id, .. } => *stream_id,
            Frame::RstStream { stream_id, .. } => *stream_id,
            Frame::Settings { .. } => 0,
            Frame::PushPromise { stream_id, .. } => *stream_id,
            Frame::Ping { .. } => 0,
            Frame::GoAway { .. } => 0,
            Frame::WindowUpdate { stream_id, .. } => *stream_id,
            Frame::Continuation { stream_id, .. } => *stream_id,
        }
    }
}

/// Writes a settings list as a SETTINGS payload.
fn write_settings(settings: &Vec<(u16, u32)>) -> (res: Bytes)
    requires
        6 * settings@.len() <= usize::MAX,
    ensures
        bytes_view(res) == settings_bytes(settings@),
{
    let mut payload = bm_new();
    let mut i: usize = 0;
    while i < settings.len()
        invariant
            i <= settings@.len(),
            6 * settings@.len() <= usize::MAX,
            bytes_mut_view(payload) == settings_bytes(settings@.take(i as int)),
            bytes_mut_view(payload).len() == 6 * i,
        decreases settings.len() - i,
    {
        let (id, value) = settings[i];
        bm_put_u16(&mut payload, id);
        bm_put_u32(&mut payload, value);
        assert(settings@.take(i + 1).drop_last() =~= settings@.take(i as int));
        i = i + 1;
    }
    assert(settings@.take(i as int) =~= settings@);
    bm_freeze(payload)
}

/// Decodes the (identifier, value) pairs of a SETTINGS payload.
fn parse_settings(p: &[u8]) -> (res: Vec<(u16, u32)>)
    ensures
        res@ == settings_of(p@),
{
    let mut settings: Vec<(u16, u32)> = Vec::new();
    let mut pos: usize = 0;
    let mut k: usize = 0;
    while p.len() - pos >= 6
        invariant
            pos == 6 * k,
            pos <= p@.len(),
            settings@.len() == k,
            forall|i: int| 0 <= i < k ==> #[trigger] settings@[i] == (u16_at(p@, 6 * i) as u16, u32_at(p@, 6 * i + 2) as u32),
        decreases p.len() - pos,
    {
        let id: u16 = (p[pos] as u16) * 256 + (p[pos + 1] as u16);
        let value = read_u32(p[pos + 2], p[pos + 3], p[pos + 4], p[pos + 5]);
        settings.push((id, value));
        pos = pos + 6;
        k = k + 1;
    }
    assert(k == p@.len() / 6) by (nonlinear_arith)
        requires pos == 6 * k, pos <= p@.len(), p@.len() < pos + 6;
    assert(settings@ =~= settings_of(p@));
    settings
}

} // verus!

verus! {

/// A frame that a parse of its own bytes gives back: stream ids, the window
/// increment and the priority dependency fit in 31 bits, a PING carries 8
/// bytes, and the payload fits the 24-bit length field. (Other frames lose
/// their top bits on the way, so they do not come back unchanged.)
pub open spec fn round_trips(f: FrameV) -> bool {
    &&& frame_parts(f).3.len() < 0x1000000
    &&& frame_parts(f).2 < 0x80000000
    &&& match f {
        FrameV::WindowUpdate { increment, .. } => increment < 0x80000000,
        FrameV::Ping { data, .. } => data.len() == 8,
        FrameV::GoAway { last_stream_id, .. } => last_stream_id < 0x80000000,
        FrameV::Priority { dependency, .. } => dependency < 0x80000000,
        FrameV::PushPromise { promised_stream_id, .. } => promised_stream_id < 0x80000000,
        _ => true,
    }
}

proof fn lemma_be32_value(x: u32)
    ensures
        u32_at(be32(x), 0) == x,
        x < 0x80000000 ==> u31_at(be32(x), 0) == x,
        x < 0x80000000 ==> be32(x)[0] & 0x80 == 0,
        x >= 0x80000000 ==> be32(x)[0] & 0x80 != 0,
        x >= 0x80000000 ==> u31_at(be32(x), 0) == x - 0x80000000,
{
    let a = (x / 0x1000000) as u8;
    let b = ((x / 0x10000) % 256) as u8;
    let c = ((x / 256) % 256) as u8;
    let d = (x % 256) as u8;
    assert(a * 0x1000000 + b * 0x10000 + c * 256 + d == x) by (nonlinear_arith)
        requires
            a == x / 0x1000000,
            b == (x / 0x10000) % 256,
            c == (x / 256) % 256,
            d == x % 256,
            0 <= x < 0x100000000;
    assert(x < 0x80000000u32 ==> (a & 0x7fu8) == a && a & 0x80u8 == 0u8) by (bit_vector)
        requires a == (x / 0x1000000u32) as u8;
    assert(x >= 0x80000000u32 ==> (a & 0x7fu8) as u32 + 0x80u32 == a as u32 && a & 0x80u8 != 0u8) by (bit_vector)
        requires a == (x / 0x1000000u32) as u8;
}

proof fn lemma_be16_value(x: u16)
    ensures
        u16_at(be16(x), 0) == x,
{
}

proof fn lemma_header_length(len: usize)
    requires
        len < 0x1000000,
    ensures
        ((len >> 16usize) as u8) * 0x10000 + ((len >> 8usize) as u8) * 256 + (len as u8) == len,
{
    let a = (len >> 16usize) as u8;
    let b = (len >> 8usize) as u8;
    let c = len as u8;
    assert(a as usize * 0x10000usize + b as usize * 256usize + c as usize == len) by (bit_vector)
        requires
            len < 0x1000000usize,
            a == (len >> 16usize) as u8,
            b == (len >> 8usize) as u8,
            c == len as u8;
}

proof fn lemma_mask31(x: u32)
    requires
        x < 0x80000000,
    ensures
        x & 0x7fffffff == x,
        (x | 0x80000000) >= 0x80000000,
        (x | 0x80000000) - 0x80000000 == x,
{
    assert(x & 0x7fffffffu32 == x) by (bit_vector) requires x < 0x80000000u32;
    assert((x | 0x80000000u32) >= 0x80000000u32 && (x | 0x80000000u32) - 0x80000000u32 == x) by (bit_vector)
        requires x < 0x80000000u32;
}

proof fn lemma_flags(es: bool, eh: bool)
    ensures
        (flag_if(es, 1) | flag_if(eh, 4)) & 1 != 0 <==> es,
        (flag_if(es, 1) | flag_if(eh, 4)) & 4 != 0 <==> eh,
        flag_if(es, 1) & 1 != 0 <==> es,
        flag_if(eh, 4) & 4 != 0 <==> eh,
{
    let a = flag_if(es, 1);
    let b = flag_if(eh, 4);
    assert((a == 0u8 || a == 1u8) && (b == 0u8 || b == 4u8) ==> (((a | b) & 1u8 != 0u8) == (a == 1u8)
        && ((a | b) & 4u8 != 0u8) == (b == 4u8) && ((a & 1u8 != 0u8) == (a == 1u8)) && ((b & 4u8 != 0u8) == (b == 4u8)))) by (bit_vector);
}

proof fn lemma_settings_round_trip(s: Seq<(u16, u32)>)
    ensures
        settings_of(settings_bytes(s)) == s,
    decreases s.len(),
{
    lemma_settings_bytes_len(s);
    if s.len() > 0 {
        let init = s.drop_last();
        lemma_settings_round_trip(init);
        lemma_settings_bytes_len(init);
        let b = settings_bytes(s);
        let bi = settings_bytes(init);
        assert((6 * s.len()) / 6 == s.len()) by (nonlinear_arith);
        assert((6 * init.len()) / 6 == init.len()) by (nonlinear_arith);
        assert forall|i: int| 0 <= i < s.len() implies #[trigger] settings_of(b)[i] == s[i] by {
            if i < init.len() {
                assert(0 <= 6 * i && 6 * i + 6 <= bi.len()) by (nonlinear_arith)
                    requires 0 <= i < init.len(), bi.len() == 6 * init.len();
                assert(b[6 * i] == bi[6 * i] && b[6 * i + 1] == bi[6 * i + 1]);
                assert(b[6 * i + 2] == bi[6 * i + 2] && b[6 * i + 3] == bi[6 * i + 3]);
                assert(b[6 * i + 4] == bi[6 * i + 4] && b[6 * i + 5] == bi[6 * i + 5]);
                assert(settings_of(bi)[i] == init[i]);
            } else {
                assert(6 * i == bi.len());
                lemma_be16_value(s.last().0);
                lemma_be32_value(s.last().1);
                assert(u16_at(b, 6 * i) == u16_at(be16(s.last().0), 0));
                assert(u32_at(b, 6 * i + 2) == u32_at(be32(s.last().1), 0));
            }
        }
        assert(settings_of(b) =~= s);
    } else {
        assert(settings_of(settings_bytes(s)) =~= s);
    }
}

/// Parsing the bytes a frame is written as gives the frame back, consumes
/// exactly those bytes, and leaves whatever follows untouched.
pub proof fn law_serialize_then_parse(f: FrameV, rest: Seq<u8>)
    requires
        round_trips(f),
    ensures
        parse_spec(serialize_spec(f) + rest).0 == Ok::<Option<FrameV>, H2Error>(Some(f)),
        parse_spec(serialize_spec(f) + rest).1 == serialize_spec(f).len(),
{
    let (t, flags, sid, payload) = frame_parts(f);
    let len = payload.len() as usize;
    let b = serialize_spec(f) + rest;
    lemma_header_length(len);
    lemma_be32_value(sid);
    assert(b.len() >= 9);
    assert(b[3] == frame_type_code(t));
    assert(frame_type_of(b[3]) == Some(t));
    assert(u24_at(b, 0) == len);
    assert(u31_at(b, 5) == u31_at(be32(sid), 0));
    assert(b.subrange(9, 9 + len as int) =~= payload);
    assert(b[4] == flags);
    match f {
        FrameV::Data { end_stream, .. } => { lemma_flags(end_stream, false); },
        FrameV::Headers { end_stream, end_headers, .. } => { lemma_flags(end_stream, end_headers); },
        FrameV::Settings { ack, settings } => {
            lemma_flags(ack, false);
            lemma_settings_round_trip(settings);
        },
        FrameV::WindowUpdate { increment, .. } => {
            lemma_mask31(increment);
            lemma_be32_value(increment);
        },
        FrameV::Ping { ack, data } => {
            lemma_flags(ack, false);
            assert(payload.take(8) =~= data);
        },
        FrameV::GoAway { last_stream_id, error_code, debug_data } => {
            lemma_mask31(last_stream_id);
            lemma_be32_value(last_stream_id);
            lemma_be32_value(error_code);
            assert(u31_at(payload, 0) == u31_at(be32(last_stream_id), 0));
            assert(u32_at(payload, 4) == u32_at(be32(error_code), 0));
            assert(payload.skip(8) =~= debug_data);
        },
        FrameV::RstStream { error_code, .. } => {
            lemma_be32_value(error_code);
            assert(u32_at(payload, 0) == u32_at(be32(error_code), 0));
        },
        FrameV::Priority { exclusive, dependency, weight, .. } => {
            lemma_mask31(dependency);
            let d = if exclusive { dependency | 0x80000000 } else { dependency };
            lemma_be32_value(d);
            assert(u31_at(payload, 0) == u31_at(be32(d), 0));
            assert(payload[0] == be32(d)[0]);
        },
        FrameV::PushPromise { promised_stream_id, header_block, .. } => {
            lemma_mask31(promised_stream_id);
            lemma_be32_value(promised_stream_id);
            assert(u31_at(payload, 0) == u31_at(be32(promised_stream_id), 0));
            assert(payload.skip(4) =~= header_block);
        },
        FrameV::Continuation { end_headers, .. } => { lemma_flags(false, end_headers); },
    }
}

/// The type byte RFC 7540 (section 6) gives each kind of frame: DATA 0x0,
/// HEADERS 0x1, PRIORITY 0x2, RST_STREAM 0x3, SETTINGS 0x4, PUSH_PROMISE 0x5,
/// PING 0x6, GOAWAY 0x7, WINDOW_UPDATE 0x8, CONTINUATION 0x9.
pub open spec fn rfc7540_type_byte(f: FrameV) -> u8 {
    match f {
        FrameV::Data { .. } => 0x0,
        FrameV::Headers { .. } => 0x1,
        FrameV::Priority { .. } => 0x2,
        FrameV::RstStream { .. } => 0x3,
        FrameV::Settings { .. } => 0x4,
        FrameV::PushPromise { .. } => 0x5,
        FrameV::Ping { .. } => 0x6,
        FrameV::GoAway { .. } => 0x7,
        FrameV::WindowUpdate { .. } => 0x8,
        FrameV::Continuation { .. } => 0x9,
    }
}

/// Frames travel with RFC 7540's type bytes: every frame is written with the
/// type byte of its kind, every frame parsed from a buffer is of the kind its
/// type byte names, and a type byte past 0x9 is refused.
pub proof fn law_frame_type_bytes(f: FrameV, b: Seq<u8>)
    ensures
        serialize_spec(f)[3] == rfc7540_type_byte(f),
        parse_spec(b).0 matches Ok(Some(g)) ==> b[3] == rfc7540_type_byte(g),
        b.len() >= 9 && b[3] > 9 ==> parse_spec(b).0 == Err::<Option<FrameV>, H2Error>(H2Error::InvalidFrameType(b[3])),
{
    let (t, flags, sid, payload) = frame_parts(f);
    assert(serialize_spec(f)[3] == frame_type_code(t));
}

/// The 31-bit stream identifier RFC 7540 (section 4.1) puts in bytes 5 to 8 of
/// a frame header: big-endian, the reserved top bit left out.
pub open spec fn header_stream_id(b: Seq<u8>) -> int {
    (b[5] & 0x7f) as int * 0x1000000 + b[6] as int * 0x10000 + b[7] as int * 0x100 + b[8] as int
}

/// A frame read from a buffer follows RFC 7540's layout (sections 4.1 and 6):
/// the first three bytes give the payload length (big-endian) and the frame
/// takes that many bytes after its 9-byte header; bytes 5 to 8 give the stream;
/// flag 0x1 of byte 4 is END_STREAM (ACK for SETTINGS and PING) and flag 0x4
/// END_HEADERS; DATA and HEADERS carry their payload as it is; SETTINGS entries
/// are 6 bytes each, a 16-bit identifier then a 32-bit value; WINDOW_UPDATE
/// carries a 31-bit increment; PING carries 8 opaque bytes.
pub proof fn law_frame_layout(b: Seq<u8>)
    ensures
        parse_spec(b).0 matches Ok(Some(g)) ==> ({
            let end = 9 + b[0] as int * 0x10000 + b[1] as int * 0x100 + b[2] as int;
            &&& parse_spec(b).1 == end
            &&& end <= b.len()
            &&& match g {
                FrameV::Data { stream_id, end_stream, data } => stream_id == header_stream_id(b)
                    && end_stream == (b[4] & 0x1 != 0) && data == b.subrange(9, end),
                FrameV::Headers { stream_id, end_stream, end_headers, header_block } =>
                    stream_id == header_stream_id(b) && end_stream == (b[4] & 0x1 != 0)
                    && end_headers == (b[4] & 0x4 != 0) && header_block == b.subrange(9, end),
                FrameV::Settings { ack, settings } => ack == (b[4] & 0x1 != 0)
                    && settings.len() == (end - 9) / 6
                    && forall|i: int| 0 <= i < settings.len() ==> #[trigger] settings[i] == (
                        (b[9 + 6 * i] as int * 0x100 + b[10 + 6 * i] as int) as u16,
                        (b[11 + 6 * i] as int * 0x1000000 + b[12 + 6 * i] as int * 0x10000
                            + b[13 + 6 * i] as int * 0x100 + b[14 + 6 * i] as int) as u32,
                    ),
                FrameV::WindowUpdate { stream_id, increment } => stream_id == header_stream_id(b)
                    && increment == (b[9] & 0x7f) as int * 0x1000000 + b[10] as int * 0x10000
                        + b[11] as int * 0x100 + b[12] as int,
                FrameV::Ping { ack, data } => ack == (b[4] & 0x1 != 0) && data == b.subrange(9, 17),
                FrameV::RstStream { stream_id, error_code } => stream_id == header_stream_id(b)
                    && error_code == b[9] as int * 0x1000000 + b[10] as int * 0x10000
                        + b[11] as int * 0x100 + b[12] as int,
                FrameV::GoAway { last_stream_id, error_code, debug_data } =>
                    last_stream_id == (b[9] & 0x7f) as int * 0x1000000 + b[10] as int * 0x10000
                        + b[11] as int * 0x100 + b[12] as int
                    && error_code == b[13] as int * 0x1000000 + b[14] as int * 0x10000
                        + b[15] as int * 0x100 + b[16] as int
                    && debug_data == b.subrange(17, end),
                FrameV::Priority { stream_id, exclusive, dependency, weight } => stream_id == header_stream_id(b)
                    && exclusive == (b[9] & 0x80 != 0)
                    && dependency == (b[9] & 0x7f) as int * 0x1000000 + b[10] as int * 0x10000
                        + b[11] as int * 0x100 + b[12] as int
                    && weight == b[13],
                FrameV::PushPromise { stream_id, promised_stream_id, header_block } =>
                    stream_id == header_stream_id(b)
                    && promised_stream_id == (b[9] & 0x7f) as int * 0x1000000 + b[10] as int * 0x10000
                        + b[11] as int * 0x100 + b[12] as int
                    && header_block == b.subrange(13, end),
                FrameV::Continuation { stream_id, end_headers, header_block } => stream_id == header_stream_id(b)
                    && end_headers == (b[4] & 0x4 != 0) && header_block == b.subrange(9, end),
            }
        }),
{
    if b.len() >= 9 {
        let x = b[5];
        assert(x & 0x7f <= 0x7f) by (bit_vector);
        if let Some(t) = frame_type_of(b[3]) {
            let length = u24_at(b, 0);
            if b.len() >= 9 + length {
                let p = b.subrange(9, 9 + length);
                if p.len() >= 4 {
                    let y = p[0];
                    assert(y & 0x7f <= 0x7f) by (bit_vector);
                    assert(p[0] == b[9] && p[1] == b[10] && p[2] == b[11] && p[3] == b[12]);
                }
                if t == FrameType::Settings {
                    let s = settings_of(p);
                    assert forall|i: int| 0 <= i < s.len() implies #[trigger] s[i] == (
                        (b[9 + 6 * i] as int * 0x100 + b[10 + 6 * i] as int) as u16,
                        (b[11 + 6 * i] as int * 0x1000000 + b[12 + 6 * i] as int * 0x10000
                            + b[13 + 6 * i] as int * 0x100 + b[14 + 6 * i] as int) as u32,
                    ) by {
                        assert(6 * i + 6 <= p.len()) by (nonlinear_arith)
                            requires 0 <= i < p.len() / 6;
                        assert(p[6 * i] == b[9 + 6 * i]);
                        assert(p[6 * i + 1] == b[10 + 6 * i]);
                        assert(p[6 * i + 2] == b[11 + 6 * i]);
                        assert(p[6 * i + 3] == b[12 + 6 * i]);
                        assert(p[6 * i + 4] == b[13 + 6 * i]);
                        assert(p[6 * i + 5] == b[14 + 6 * i]);
                    }
                }
                if t == FrameType::Ping && p.len() >= 8 {
                    assert(p.take(8) =~= b.subrange(9, 17));
                }
                if p.len() >= 8 {
                    assert(p[4] == b[13] && p[5] == b[14] && p[6] == b[15] && p[7] == b[16]);
                    assert(p.skip(8) =~= b.subrange(17, 9 + length));
                }
                if p.len() >= 5 {
                    assert(p[4] == b[13]);
                }
                if p.len() >= 4 {
                    assert(p.skip(4) =~= b.subrange(13, 9 + length));
                }
            }
        }
    }
}

} // verus!
