//! A Media-over-QUIC transport engine: the wire codec, the per-stream and
//! per-track state, and the session state machine, with their behaviour
//! stated in contracts and proved.

pub mod alias_list;
pub mod config;
pub mod error;
pub mod helper;
pub mod in_stream;
pub mod in_track;
pub mod maps;
pub mod out_stream;
pub mod out_track;
pub mod pending_subscribe;
pub mod session;
pub mod short_buf;
pub mod stream_id;
pub mod webtransport;
pub mod wire;

pub use config::Config;
pub use error::Error;
pub use session::MoqTransportSession;
