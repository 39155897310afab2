//! An HTTP/2 protocol core, each part with a verified contract: the frame
//! codec, HPACK integers and literal header blocks, flow-control windows,
//! the per-stream state machine, the connection's stream id bookkeeping
//! (GOAWAY and CONTINUATION included), settings, pings, and the error
//! values that callers see.

pub mod client;
pub mod dispatch;
pub mod error;
pub mod flow;
pub mod frame;
pub mod hpack;
pub mod ping;
pub mod proto;
pub mod settings;
pub mod state;
pub mod streams;

pub use error::Error;
pub use frame::{Reason, StreamId};
