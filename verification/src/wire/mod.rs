//! The wire codec: integers, byte strings, parameters, control messages and
//! the headers of data streams, each written and read for a given draft.

use vstd::prelude::*;

pub mod error;
pub mod varint;
pub mod octets;
pub mod bytes;
pub mod location;
pub mod key_value_pair;
pub mod parameter;
pub mod parameters;
pub mod tuple;
pub mod namespace;
pub mod role;
pub mod reason_phrase;
pub mod setup_parameters;
pub mod control_message;
pub mod subgroup;
pub mod object;
pub mod prefix;

pub use bytes::FromBytes;
pub use bytes::ToBytes;
pub use error::Error;
pub use error::Fault;
pub use error::Result;
pub use parameter::Parameter;
pub use parameters::Parameters;
pub use namespace::Namespace;
pub use reason_phrase::ReasonPhrase;
pub use role::Role;
pub use setup_parameters::SetupParameters;
pub use tuple::Tuple;

verus! {

pub type RequestId = u64;

pub type Version = u64;

pub type TrackAlias = u64;

pub type SubgroupType = u64;

pub const MOQ_VERSION_DRAFT_07: u64 = 0xff000007;

pub const MOQ_VERSION_DRAFT_08: u64 = 0xff000008;

pub const MOQ_VERSION_DRAFT_09: u64 = 0xff000009;

pub const MOQ_VERSION_DRAFT_10: u64 = 0xff00000A;

pub const MOQ_VERSION_DRAFT_11: u64 = 0xff00000B;

pub const MOQ_VERSION_DRAFT_12: u64 = 0xff00000C;

pub const MOQ_VERSION_DRAFT_13: u64 = 0xff00000D;

/// A vendor variant that is offered during setup and never selected.
pub const MOQ_VERSION_LITE_01_BY_KIXELATED: u64 = 0xff0dad01;

pub const CLIENT_SETUP_CONTROL_MESSAGE_ID: u64 = 0x20;

pub const SERVER_SETUP_CONTROL_MESSAGE_ID: u64 = 0x21;

pub const SUBSCRIBE_CONTROL_MESSAGE_ID: u64 = 0x3;

pub const SUBSCRIBE_OK_CONTROL_MESSAGE_ID: u64 = 0x4;

pub const SUBSCRIBE_ERROR_CONTROL_MESSAGE_ID: u64 = 0x5;

pub const ANNOUNCE_CONTROL_MESSAGE_ID: u64 = 0x6;

pub const ANNOUNCE_OK_CONTROL_MESSAGE_ID: u64 = 0x7;

pub const UNSUBSCRIBE_NAMESPACE_MESSAGE_ID: u64 = 0x14;

pub const REQUEST_BLOCKED_CONTROL_MESSAGE_ID: u64 = 0x1A;

pub const SUBSCRIBE_DONE_CONTROL_MESSAGE_ID: u64 = 0xB;

pub const TRACK_STATUS_CONTROL_MESSAGE_ID: u64 = 0xE;

pub const CLIENT_SETUP_CONTROL_MESSAGE_ID_VERSION_UNTIL_10: u64 = 0x40;

pub const SERVER_SETUP_CONTROL_MESSAGE_ID_VERSION_UNTIL_10: u64 = 0x41;

/// The longest encoding of a variable-length integer, in bytes.
pub const MAX_VARINT_LEN: usize = 8;

/// Only on draft 07.
pub const ROLE_SETUP_PARAMETER_ID: u64 = 0x00;

pub const PATH_SETUP_PARAMETER_ID: u64 = 0x01;

pub const MAX_REQUEST_ID_SETUP_PARAMETER_ID: u64 = 0x02;

pub const PUBLISHER_ROLE_ID: u64 = 0x01;

pub const SUBSCRIBER_ROLE_ID: u64 = 0x02;

pub const PUB_SUB_ROLE_ID: u64 = 0x03;

pub const DEFAULT_MAX_REQUEST_ID_SETUP_PARAMETER: u64 = 0;

pub const LARGEST_OBJECT_FILTER_ID: u64 = 0x2;

pub const NEXT_GROUP_START_FILTER_ID: u64 = 0x1;

pub const ABSOLUTE_START_FILTER_ID: u64 = 0x3;

pub const ABSOLUTE_RANGE_FILTER_ID: u64 = 0x4;

pub const MIN_TRACK_NAMESPACE_TUPLE_LENGTH: usize = 1;

pub const MAX_TRACK_NAMESPACE_TUPLE_LENGTH: usize = 32;

pub const MAX_FULL_TRACK_NAME_LEN: usize = 4096;

/// The type of a subgroup stream on drafts 07 to 10.
pub const STREAM_HEADER_SUBGROUP_STREAM_TYPE_ID: u64 = 0x4;

pub const RESET_STREAM_CODE_INTERNAL_ERROR: u64 = 0x0;

pub const RESET_STREAM_CODE_CANCELED: u64 = 0x1;

pub const RESET_STREAM_CODE_DELIVERY_TIMEOUT: u64 = 0x2;

pub const RESET_STREAM_CODE_SESSION_CLOSED: u64 = 0x3;

/// The drafts that this codec reads and writes: 07 to 13.
pub open spec fn version_known(version: Version) -> bool {
    MOQ_VERSION_DRAFT_07 <= version <= MOQ_VERSION_DRAFT_13
}

/// Drafts 07 to 10 frame a control message with a varint length and carry
/// every parameter as bytes.
pub open spec fn version_until_10(version: Version) -> bool {
    MOQ_VERSION_DRAFT_07 <= version <= MOQ_VERSION_DRAFT_10
}

/// Drafts 07 to 11 let the subscriber pick the track alias.
pub open spec fn version_until_11(version: Version) -> bool {
    MOQ_VERSION_DRAFT_07 <= version <= MOQ_VERSION_DRAFT_11
}

pub fn is_version_known(version: Version) -> (r: bool)
    ensures
        r == version_known(version),
{
    MOQ_VERSION_DRAFT_07 <= version && version <= MOQ_VERSION_DRAFT_13
}

pub fn is_version_until_10(version: Version) -> (r: bool)
    ensures
        r == version_until_10(version),
{
    MOQ_VERSION_DRAFT_07 <= version && version <= MOQ_VERSION_DRAFT_10
}

pub fn is_version_until_11(version: Version) -> (r: bool)
    ensures
        r == version_until_11(version),
{
    MOQ_VERSION_DRAFT_07 <= version && version <= MOQ_VERSION_DRAFT_11
}

} // verus!
