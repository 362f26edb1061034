//! What the client and the server share.

pub mod accounting;
pub mod affinity;
pub mod auth;
pub mod bandwidth;
pub mod big_endian;
pub mod binary64;
pub mod call_log;
pub mod cookie;
pub mod cpu;
pub mod direction;
pub mod error;
pub mod float_bits;
pub mod format;
pub mod interval;
pub mod jitter;
pub mod json_output;
pub mod message;
pub mod pacing;
pub mod protocol;
pub mod rounding;
pub mod session;
pub mod stream;
pub mod test;
pub mod text;
pub mod time;
pub mod timer;
pub mod transport_kind;
pub mod udp_header;
pub mod udp_session;
pub mod wire;

pub use self::direction::Direction;
pub use self::message::Message;
pub use self::transport_kind::TransportKind;
