//! HTTP/1.1 parsing and responses, and HTTP/2.

pub mod h2;
pub mod parser;
pub mod response;

pub use h2::{Frame, H2Connection, H2Error, HpackDecoder, HpackEncoder};
pub use parser::{HttpParser, HttpRequest, ParseError};
pub use response::HttpResponse;
