//! TRACK_STATUS: where a track stands.

use super::parse_header_of;
use super::read_header_of;
use crate::wire::bytes::FromBytes;
use crate::wire::error::Parsed;
use crate::wire::error::Result;
use crate::wire::namespace::Namespace;
use crate::wire::octets::Reader;
use crate::wire::tuple::parse_tuple;
use crate::wire::varint::parse_lp_bytes;
use crate::wire::varint::parse_varint;
use crate::wire::Version;
use crate::wire::TRACK_STATUS_CONTROL_MESSAGE_ID;
use vstd::prelude::*;

verus! {

#[derive(Debug)]
pub struct TrackStatusMessage {
    pub track_namespace: Namespace,
    pub track_name: Vec<u8>,
    pub status_code: u64,
    pub last_group_id: u64,
    pub last_object_id: u64,
}

/// What a TRACK_STATUS is in contracts.
pub struct TrackStatusView {
    pub track_namespace: Seq<Seq<u8>>,
    pub track_name: Seq<u8>,
    pub status_code: u64,
    pub last_group_id: u64,
    pub last_object_id: u64,
}

impl View for TrackStatusMessage {
    type V = TrackStatusView;

    open spec fn view(&self) -> TrackStatusView {
        TrackStatusView {
            track_namespace: self.track_namespace@,
            track_name: self.track_name@,
            status_code: self.status_code,
            last_group_id: self.last_group_id,
            last_object_id: self.last_object_id,
        }
    }
}

/// Reading a TRACK_STATUS: the header, the namespace, the name, the status
/// code, and the last group and object.
pub open spec fn parse_track_status(bytes: Seq<u8>, off: int, version: Version) -> Parsed<
    TrackStatusView,
> {
    match parse_header_of(bytes, off, version, TRACK_STATUS_CONTROL_MESSAGE_ID) {
        Err(f) => Err(f),
        Ok((_, o0)) => match parse_tuple(bytes, o0) {
            Err(f) => Err(f),
            Ok((track_namespace, o1)) => match parse_lp_bytes(bytes, o1) {
                Err(f) => Err(f),
                Ok((track_name, o2)) => match parse_varint(bytes, o2) {
                    Err(f) => Err(f),
                    Ok((status_code, o3)) => match parse_varint(bytes, o3) {
                        Err(f) => Err(f),
                        Ok((last_group_id, o4)) => match parse_varint(bytes, o4) {
                            Err(f) => Err(f),
                            Ok((last_object_id, o5)) => Ok(
                                (
                                    TrackStatusView {
                                        track_namespace,
                                        track_name,
                                        status_code,
                                        last_group_id,
                                        last_object_id,
                                    },
                                    o5,
                                ),
                            ),
                        },
                    },
                },
            },
        },
    }
}

impl FromBytes for TrackStatusMessage {
    open spec fn parse(bytes: Seq<u8>, off: int, version: Version) -> Parsed<TrackStatusView> {
        parse_track_status(bytes, off, version)
    }

    fn from_bytes(b: &mut Reader, version: Version) -> (r: Result<Self>) {
        proof {
            let _ = Self::parse(b.bytes(), b.pos(), version);
        }
        let _header = read_header_of(b, version, TRACK_STATUS_CONTROL_MESSAGE_ID)?;
        let track_namespace = Namespace::from_bytes(b, version)?;
        let track_name = b.get_bytes_with_varint_length()?;
        let status_code = b.get_varint()?;
        let last_group_id = b.get_varint()?;
        let last_object_id = b.get_varint()?;
        Ok(Self { track_namespace, track_name, status_code, last_group_id, last_object_id })
    }
}

} // verus!
