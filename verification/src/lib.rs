//! Verified core of a small real-time messaging transport: the wire codec
//! (a tagged JSON frame format with a legacy tab-separated fallback), the
//! client session state machine, the relay's fan-out registry, and the
//! connection handler's reaction policy, together with the pure helpers the
//! surrounding application uses.

pub mod attachments;
pub mod channels;
pub mod codec;
pub mod json;
pub mod protocol;
pub mod registry;
pub mod relay;
pub mod roundtrip;
pub mod search;
pub mod session;
pub mod text;

pub use protocol::ChannelKind;
pub use protocol::RealtimeStatus;
