//! WebTransport sessions over one HTTP/3 connection, as far as a Media over
//! QUIC session needs them: streams that belong to a session, with the bytes
//! that wait on either side of each.

use vstd::prelude::*;

pub mod error;
pub mod stream;
pub mod session;
pub mod pending_request;
pub mod pending_response;
pub mod connection;

pub use connection::Connection;
pub use error::Error;

verus! {

pub type SessionId = u64;

/// The longest encoding of a variable-length integer, in bytes.
pub const MAX_VARINT_LEN: usize = 8;

pub const WEBTRANSPORT_UNI_STREAM_TYPE_ID: u64 = 0x54;

pub const WEBTRANSPORT_BIDI_STREAM_TYPE_ID: u64 = 0x41;

pub const ENABLE_WEBTRANSPORT_H3_SETTINGS_PARAMETER_ID: u64 = 0x2b603742;

pub const WEBTRANSPORT_MAX_SESSIONS_SETTINGS_PARAMETER_ID_DRAFT_4_5: u64 = 0x2b603743;

pub const WEBTRANSPORT_MAX_SESSIONS_SETTINGS_PARAMETER_ID_DRAFT_6: u64 = 0x3c48d522;

pub const WEBTRANSPORT_MAX_SESSIONS_SETTINGS_PARAMETER_ID_DRAFT_7_12: u64 = 0xc671706a;

pub const WT_MAX_SESSIONS_H3_SETTINGS_PARAMETER_ID: u64 = 0x14e9cd29;

/// A setting of the peer switches WebTransport on: the setting that
/// enables it with the value 1, or a limit of sessions above 0.
pub open spec fn enables_webtransport(setting: (u64, u64)) -> bool {
    ||| setting.0 == ENABLE_WEBTRANSPORT_H3_SETTINGS_PARAMETER_ID && setting.1 == 1
    ||| setting.0 == WT_MAX_SESSIONS_H3_SETTINGS_PARAMETER_ID && setting.1 > 0
}

/// Whether the peer has switched WebTransport on, given whether it allows
/// extended CONNECT and the HTTP/3 settings that it has sent. `false` while
/// its settings have not arrived: the list is then empty.
pub fn webtransport_enabled_by_server(extended_connect: bool, settings: &[(u64, u64)]) -> (r: bool)
    ensures
        r == (extended_connect && exists|i: int|
            0 <= i < settings@.len() && enables_webtransport(#[trigger] settings@[i])),
{
    if !extended_connect {
        return false;
    }
    let mut i: usize = 0;
    while i < settings.len()
        invariant
            extended_connect,
            i <= settings@.len(),
            forall|k: int| 0 <= k < i ==> !enables_webtransport(#[trigger] settings@[k]),
        decreases settings@.len() - i,
    {
        let (key, value) = settings[i];
        if key == ENABLE_WEBTRANSPORT_H3_SETTINGS_PARAMETER_ID && value == 1 {
            return true;
        }
        if key == WT_MAX_SESSIONS_H3_SETTINGS_PARAMETER_ID && value > 0 {
            return true;
        }
        i += 1;
    }
    false
}

} // verus!
