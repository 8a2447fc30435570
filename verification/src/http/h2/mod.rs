//! HTTP/2: frames, HPACK header compression, streams and connections.

pub mod connection;
pub mod frame;
pub mod hpack;
pub mod round_trip;
pub mod stream;

pub use connection::H2Connection;
pub use frame::{Frame, FrameType, H2Error};
pub use hpack::{HpackDecoder, HpackEncoder};
pub use stream::{Stream, StreamState};
