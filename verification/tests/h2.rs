use bytes::{Bytes, BytesMut};
use ners::http::h2::connection::{H2Connection, H2Settings};
use ners::http::h2::frame::{h2_preface, Frame, FrameType, H2Error};
use ners::http::h2::hpack::{HpackDecoder, HpackEncoder};
use ners::http::h2::stream::{Stream, StreamState};
use ners::num::add_saturating_i32;

#[test]
fn test_static_table_lookup() {
    let decoder = HpackDecoder::new(4096);
    let (name, value) = decoder.get_indexed(2).unwrap();
    assert_eq!(name, ":method");
    assert_eq!(value, "GET");
}

#[test]
fn test_encode_decode_roundtrip() {
    let mut encoder = HpackEncoder::new(4096);
    let mut decoder = HpackDecoder::new(4096);

    let headers = vec![
        (":method".to_string(), "GET".to_string()),
        (":path".to_string(), "/test".to_string()),
        ("content-type".to_string(), "text/html".to_string()),
    ];

    let encoded = encoder.encode(&headers);
    let decoded = decoder.decode(&encoded).unwrap();

    assert_eq!(decoded.len(), 3);
    assert_eq!(decoded[0].0, ":method");
    assert_eq!(decoded[0].1, "GET");
}

#[test]
fn hpack_round_trip_keeps_tables_in_step() {
    let mut encoder = HpackEncoder::new(4096);
    let mut decoder = HpackDecoder::new(4096);
    let first = vec![
        ("x-custom".to_string(), "één".to_string()),
        (":path".to_string(), "/a".to_string()),
    ];
    let block = encoder.encode(&first);
    assert_eq!(decoder.decode(&block).unwrap(), first);
    // The second block refers to entries both tables now hold.
    let second = vec![
        ("x-custom".to_string(), "één".to_string()),
        (":method".to_string(), "POST".to_string()),
    ];
    let block = encoder.encode(&second);
    assert_eq!(decoder.decode(&block).unwrap(), second);
}

#[test]
fn hpack_encoding_bytes() {
    let mut encoder = HpackEncoder::new(4096);
    // Fully indexed static entry 2 (":method: GET").
    let block = encoder.encode(&[(":method".to_string(), "GET".to_string())]);
    assert_eq!(block.as_ref(), &[0x82]);
    // Literal with indexed name 4 (":path") and value "/x".
    let block = encoder.encode(&[(":path".to_string(), "/x".to_string())]);
    assert_eq!(block.as_ref(), &[0x44, 0x02, b'/', b'x']);
}

#[test]
fn hpack_decode_errors() {
    let mut decoder = HpackDecoder::new(4096);
    assert_eq!(decoder.decode(&[0x80]).unwrap_err(), "Invalid index 0");
    assert_eq!(decoder.decode(&[0xbe]).unwrap_err(), "Invalid dynamic index 0");
    assert_eq!(decoder.decode(&[0x40, 0x05, b'a']).unwrap_err(), "String too long");
    assert_eq!(decoder.decode(&[0x7f]).unwrap_err(), "Truncated integer");
    assert!(decoder.get_indexed(0).is_err());
    assert_eq!(decoder.get_indexed(61).unwrap().0, "www-authenticate");
}

#[test]
fn hpack_lossy_bytes() {
    let mut decoder = HpackDecoder::new(4096);
    // Literal without indexing, new name "a", value bytes ff (not UTF-8).
    let out = decoder.decode(&[0x00, 0x01, b'a', 0x01, 0xff]).unwrap();
    assert_eq!(out[0].0, "a");
    assert_eq!(out[0].1, "\u{fffd}");
}

#[test]
fn test_parse_settings() {
    let mut buf = BytesMut::new();
    // SETTINGS frame: length=6, type=4, flags=0, stream=0
    buf.extend_from_slice(&[0, 0, 6, 4, 0, 0, 0, 0, 0]);
    // Setting: MAX_CONCURRENT_STREAMS = 100
    buf.extend_from_slice(&[0, 3, 0, 0, 0, 100]);

    let frame = Frame::parse(&mut buf).unwrap().unwrap();
    match frame {
        Frame::Settings { ack, settings } => {
            assert!(!ack);
            assert_eq!(settings.len(), 1);
            assert_eq!(settings[0], (3, 100));
        }
        _ => panic!("Expected Settings frame"),
    }
}

#[test]
fn test_serialize_window_update() {
    let frame = Frame::WindowUpdate { stream_id: 1, increment: 65535 };

    let mut buf = BytesMut::new();
    frame.serialize(&mut buf);

    // Header: length=4, type=8, flags=0, stream=1
    assert_eq!(&buf[..5], &[0, 0, 4, 8, 0]);
    assert_eq!(buf[8], 1); // stream_id low byte
}

#[test]
fn frame_round_trip() {
    let frames = vec![
        Frame::Data { stream_id: 3, end_stream: true, data: Bytes::from_static(b"hi") },
        Frame::Headers { stream_id: 5, end_stream: false, end_headers: true, header_block: Bytes::from_static(&[0x82]) },
        Frame::Ping { ack: true, data: [1, 2, 3, 4, 5, 6, 7, 8] },
        Frame::GoAway { last_stream_id: 7, error_code: 2, debug_data: Bytes::from_static(b"bye") },
        Frame::RstStream { stream_id: 9, error_code: 8 },
        Frame::Settings { ack: false, settings: vec![(1, 4096), (4, 65535)] },
    ];
    for f in frames {
        let mut buf = BytesMut::new();
        f.serialize(&mut buf);
        buf.extend_from_slice(b"rest");
        let g = Frame::parse(&mut buf).unwrap().unwrap();
        assert_eq!(format!("{:?}", f), format!("{:?}", g));
        assert_eq!(&buf[..], b"rest");
    }
}

#[test]
fn frame_parse_incomplete_and_errors() {
    let mut buf = BytesMut::from(&[0u8, 0, 4, 8, 0, 0, 0, 0][..]);
    assert!(matches!(Frame::parse(&mut buf), Ok(None)));
    assert_eq!(buf.len(), 8);
    let mut buf = BytesMut::from(&[0u8, 0, 0, 0xee, 0, 0, 0, 0, 0][..]);
    assert!(matches!(Frame::parse(&mut buf), Err(H2Error::InvalidFrameType(0xee))));
    let mut buf = BytesMut::from(&[0u8, 0, 2, 8, 0, 0, 0, 0, 1, 0, 0][..]);
    assert!(matches!(Frame::parse(&mut buf), Err(H2Error::FrameTooShort)));
    assert_eq!(buf.len(), 0);
    assert!(matches!(FrameType::try_from_u8(8), Ok(FrameType::WindowUpdate)));
    assert_eq!(FrameType::GoAway.to_u8(), 7);
    assert_eq!(Frame::RstStream { stream_id: 9, error_code: 0 }.stream_id(), 9);
    assert_eq!(h2_preface(), b"PRI * HTTP/2.0\r\n\r\nSM\r\n\r\n".to_vec());
}

#[test]
fn test_stream_state_transitions() {
    let mut stream = Stream::new(1, 65535);
    assert_eq!(stream.state, StreamState::Idle);

    stream.open();
    assert_eq!(stream.state, StreamState::Open);

    stream.half_close_remote();
    assert_eq!(stream.state, StreamState::HalfClosedRemote);

    stream.half_close_local();
    assert_eq!(stream.state, StreamState::Closed);
}

#[test]
fn test_flow_control() {
    let mut stream = Stream::new(1, 65535);

    stream.consume_send_window(1000);
    assert_eq!(stream.send_window, 64535);

    stream.update_send_window(2000);
    assert_eq!(stream.send_window, 66535);
}

#[test]
fn stream_laws_on_values() {
    let mut s = Stream::new(1, i32::MAX - 1);
    s.update_send_window(10);
    assert_eq!(s.send_window, i32::MAX);
    s.open();
    s.half_close_local();
    assert!(!s.can_send());
    assert!(s.can_receive());
    s.half_close_remote();
    assert_eq!(s.state, StreamState::Closed);
    s.open();
    assert_eq!(s.state, StreamState::Closed);
    let d = Stream::default();
    assert_eq!(d.id, 0);
    assert_eq!(d.recv_window, 65535);
}

#[test]
fn test_connection_preface() {
    let mut conn = H2Connection::default();

    assert!(!conn.is_preface_received());
    assert!(conn.process_preface(&h2_preface()));
    assert!(conn.is_preface_received());

    // Should have settings frame queued
    let outgoing = conn.take_outgoing();
    assert!(!outgoing.is_empty());
}

#[test]
fn test_settings_exchange() {
    let mut conn = H2Connection::default();
    conn.process_preface(&h2_preface());

    // Process remote settings
    let frame = Frame::Settings { ack: false, settings: vec![(3, 200)] };

    conn.process_frame(frame).unwrap();
    assert_eq!(conn.remote_settings().max_concurrent_streams, 200);

    // Should have ACK queued
    let outgoing = conn.take_outgoing();
    assert!(outgoing.iter().any(|f| matches!(f, Frame::Settings { ack: true, .. })));
}

#[test]
fn connection_bad_preface_changes_nothing() {
    let mut conn = H2Connection::new(H2Settings::default());
    assert!(!conn.process_preface(b"GET / HTTP/1.1\r\n\r\n"));
    assert!(!conn.is_preface_received());
    assert!(conn.take_outgoing().is_empty());
}

#[test]
fn connection_request_and_response() {
    let mut conn = H2Connection::default();
    let mut enc = HpackEncoder::new(4096);
    let req = vec![(":method".to_string(), "GET".to_string()), (":path".to_string(), "/".to_string())];
    let block = enc.encode(&req);
    conn.process_frame(Frame::Headers { stream_id: 1, end_stream: true, end_headers: true, header_block: block })
        .unwrap();
    assert_eq!(conn.ready_streams(), vec![1]);
    assert_eq!(conn.active_stream_count(), 1);
    assert_eq!(conn.get_stream(1).unwrap().request_headers, req);
    assert_eq!(conn.get_stream(1).unwrap().state, StreamState::HalfClosedRemote);
    conn.send_headers(1, vec![(":status".to_string(), "200".to_string())], false);
    conn.send_data(1, Bytes::from_static(b"ok"), true);
    assert_eq!(conn.get_stream(1).unwrap().state, StreamState::Closed);
    assert_eq!(conn.active_stream_count(), 0);
    assert!(conn.ready_streams().is_empty());
    let out = conn.take_outgoing();
    assert_eq!(out.len(), 2);
    assert!(matches!(out[0], Frame::Headers { stream_id: 1, end_headers: true, .. }));
    assert!(matches!(out[1], Frame::Data { stream_id: 1, end_stream: true, .. }));
}

#[test]
fn connection_flow_control_and_control_frames() {
    let mut conn = H2Connection::default();
    let mut enc = HpackEncoder::new(4096);
    let block = enc.encode(&[(":method".to_string(), "POST".to_string())]);
    conn.process_frame(Frame::Headers { stream_id: 3, end_stream: false, end_headers: true, header_block: block })
        .unwrap();
    conn.process_frame(Frame::Data { stream_id: 3, end_stream: false, data: Bytes::from_static(b"abcd") }).unwrap();
    assert_eq!(&conn.get_stream(3).unwrap().request_body[..], b"abcd");
    assert_eq!(conn.get_stream(3).unwrap().recv_window, 65531);
    conn.process_frame(Frame::WindowUpdate { stream_id: 3, increment: 5 }).unwrap();
    assert_eq!(conn.get_stream(3).unwrap().send_window, 65540);
    conn.process_frame(Frame::Settings { ack: false, settings: vec![(4, 65545)] }).unwrap();
    assert_eq!(conn.get_stream(3).unwrap().send_window, 65550);
    conn.process_frame(Frame::Ping { ack: false, data: [9; 8] }).unwrap();
    conn.process_frame(Frame::RstStream { stream_id: 3, error_code: 0 }).unwrap();
    assert_eq!(conn.get_stream(3).unwrap().state, StreamState::Closed);
    conn.process_frame(Frame::GoAway { last_stream_id: 3, error_code: 0, debug_data: Bytes::new() }).unwrap();
    assert!(conn.is_going_away());
    let out = conn.take_outgoing();
    assert!(matches!(out[0], Frame::Settings { ack: true, .. }));
    assert!(matches!(out[1], Frame::Ping { ack: true, data: [9, 9, 9, 9, 9, 9, 9, 9] }));
    // A header block that does not decode is a protocol error.
    let r = conn.process_frame(Frame::Headers {
        stream_id: 5,
        end_stream: true,
        end_headers: true,
        header_block: Bytes::from_static(&[0x80]),
    });
    assert!(matches!(r, Err(H2Error::ProtocolError(ref m)) if m == "Invalid index 0"));
    assert!(conn.get_stream(5).is_none());
}

#[test]
fn hpack_round_trip_on_a_decoder_with_history() {
    let mut decoder = HpackDecoder::new(64);
    let mut first = HpackEncoder::new(4096);
    let earlier = vec![("x-long-header-name".to_string(), "some value".to_string())];
    let _ = decoder.decode(&first.encode(&earlier)).unwrap();
    let mut fresh = HpackEncoder::new(4096);
    let headers = vec![
        (":status".to_string(), "200".to_string()),
        ("x-a".to_string(), "1".to_string()),
        ("content-type".to_string(), "text/plain".to_string()),
    ];
    let decoded = decoder.decode(&fresh.encode(&headers)).unwrap();
    assert_eq!(decoded, headers);
}

/// An indexed field whose index runs past any integer.
fn overlong_index() -> Vec<u8> {
    let mut b = vec![0xffu8];
    b.extend(std::iter::repeat(0xffu8).take(12));
    b.push(0x01);
    b
}

#[test]
fn decode_checked_refuses_oversized_integers() {
    let mut decoder = HpackDecoder::new(4096);
    assert!(decoder.decode_checked(&overlong_index()).is_none());
    let ok = decoder.decode_checked(&[0x82, 0x84]).unwrap().unwrap();
    assert_eq!(ok, vec![(":method".to_string(), "GET".to_string()), (":path".to_string(), "/".to_string())]);
    assert!(matches!(decoder.decode_checked(&[0x80]), Some(Err(ref m)) if m == "Invalid index 0"));
}

#[test]
fn process_frame_checked_refuses_overflows() {
    let mut conn = H2Connection::new(H2Settings::default());
    let big = Frame::WindowUpdate { stream_id: 0, increment: 0x7fff_ffff };
    assert!(conn.process_frame_checked(big).is_none());
    let headers = Frame::Headers {
        stream_id: 1,
        end_stream: false,
        end_headers: true,
        header_block: Bytes::from(overlong_index()),
    };
    assert!(conn.process_frame_checked(headers).is_none());
    assert!(conn.get_stream(1).is_none());
    let ping = Frame::Ping { ack: false, data: [1, 2, 3, 4, 5, 6, 7, 8] };
    assert!(matches!(conn.process_frame_checked(ping), Some(Ok(()))));
    assert_eq!(conn.take_outgoing().len(), 1);
    let small = Frame::WindowUpdate { stream_id: 0, increment: 10 };
    assert!(matches!(conn.process_frame_checked(small), Some(Ok(()))));
}

#[test]
fn saturating_window_arithmetic() {
    assert_eq!(add_saturating_i32(i32::MAX, 1), i32::MAX);
    assert_eq!(add_saturating_i32(i32::MIN, -1), i32::MIN);
    assert_eq!(add_saturating_i32(65535, -535), 65000);
}

/// A literal field with incremental indexing and a new name.
fn indexed_literal(name: &str, value: &str) -> Vec<u8> {
    let mut b = vec![0x40u8, name.len() as u8];
    b.extend_from_slice(name.as_bytes());
    b.push(value.len() as u8);
    b.extend_from_slice(value.as_bytes());
    b
}

#[test]
fn decoder_table_stays_within_its_limit() {
    let mut d = HpackDecoder::new(64);
    d.decode(&indexed_literal("a", "b")).unwrap();
    d.decode(&indexed_literal("c", "d")).unwrap();
    // 34 + 34 > 64: the oldest entry was evicted.
    assert_eq!(d.get_indexed(62).unwrap(), ("c".to_string(), "d".to_string()));
    assert!(d.get_indexed(63).is_err());
    // An entry larger than the limit empties the table and is not kept.
    let long = "x".repeat(40);
    d.decode(&indexed_literal(&long, "")).unwrap();
    assert!(d.get_indexed(62).is_err());
    // A size update to 0 evicts everything.
    d.decode(&indexed_literal("e", "f")).unwrap();
    d.decode(&[0x20]).unwrap();
    assert!(d.get_indexed(62).is_err());
}
