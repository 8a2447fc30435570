//! NERS: the verified core of a staged HTTP/1.1 and HTTP/2 web server.

pub mod buf;
pub mod clock;
pub mod num;
pub mod text;
pub mod conn;
pub mod queue;
pub mod http;
pub mod metrics;
pub mod handlers;
pub mod stage;
pub mod mux;
pub mod net;
pub mod slab;
pub mod analyzer;
pub mod tuner;
pub mod orchestrator;
pub mod ml;

