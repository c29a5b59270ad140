//! SUBSCRIBE_ERROR: the answer to a SUBSCRIBE that is refused.

use super::get_optional_varint;
use super::parse_header_of;
use super::parse_optional_varint;
use super::read_header_of;
use crate::wire::bytes::FromBytes;
use crate::wire::error::Parsed;
use crate::wire::error::Result;
use crate::wire::is_version_until_11;
use crate::wire::octets::Reader;
use crate::wire::reason_phrase::parse_reason_phrase;
use crate::wire::reason_phrase::ReasonPhrase;
use crate::wire::varint::parse_varint;
use crate::wire::version_until_11;
use crate::wire::RequestId;
use crate::wire::TrackAlias;
use crate::wire::Version;
use crate::wire::SUBSCRIBE_ERROR_CONTROL_MESSAGE_ID;
use vstd::prelude::*;

verus! {

#[derive(Debug)]
pub struct SubscribeErrorMessage {
    pub request_id: RequestId,
    pub error_code: u64,
    pub error_reason: ReasonPhrase,
    /// Set on drafts 07 to 11.
    pub track_alias: Option<TrackAlias>,
}

/// What a SUBSCRIBE_ERROR is in contracts.
pub struct SubscribeErrorView {
    pub request_id: RequestId,
    pub error_code: u64,
    pub error_reason: Seq<char>,
    pub track_alias: Option<TrackAlias>,
}

impl View for SubscribeErrorMessage {
    type V = SubscribeErrorView;

    open spec fn view(&self) -> SubscribeErrorView {
        SubscribeErrorView {
            request_id: self.request_id,
            error_code: self.error_code,
            error_reason: self.error_reason@,
            track_alias: self.track_alias,
        }
    }
}

/// Reading a SUBSCRIBE_ERROR: the header, the request id, the error code,
/// the reason, the track alias on drafts 07 to 11.
pub open spec fn parse_subscribe_error(bytes: Seq<u8>, off: int, version: Version) -> Parsed<
    SubscribeErrorView,
> {
    match parse_header_of(bytes, off, version, SUBSCRIBE_ERROR_CONTROL_MESSAGE_ID) {
        Err(f) => Err(f),
        Ok((_, o0)) => match parse_varint(bytes, o0) {
            Err(f) => Err(f),
            Ok((request_id, o1)) => match parse_varint(bytes, o1) {
                Err(f) => Err(f),
                Ok((error_code, o2)) => match parse_reason_phrase(bytes, o2) {
                    Err(f) => Err(f),
                    Ok((error_reason, o3)) => match parse_optional_varint(
                        bytes,
                        o3,
                        version_until_11(version),
                    ) {
                        Err(f) => Err(f),
                        Ok((track_alias, o4)) => Ok(
                            (
                                SubscribeErrorView {
                                    request_id,
                                    error_code,
                                    error_reason,
                                    track_alias,
                                },
                                o4,
                            ),
                        ),
                    },
                },
            },
        },
    }
}

impl SubscribeErrorMessage {
    pub fn request_id(&self) -> (r: RequestId)
        ensures
            r == self@.request_id,
    {
        self.request_id
    }

    pub fn error_code(&self) -> (r: u64)
        ensures
            r == self@.error_code,
    {
        self.error_code
    }
}

impl FromBytes for SubscribeErrorMessage {
    open spec fn parse(bytes: Seq<u8>, off: int, version: Version) -> Parsed<SubscribeErrorView> {
        parse_subscribe_error(bytes, off, version)
    }

    fn from_bytes(b: &mut Reader, version: Version) -> (r: Result<Self>) {
        proof {
            let _ = Self::parse(b.bytes(), b.pos(), version);
        }
        let _header = read_header_of(b, version, SUBSCRIBE_ERROR_CONTROL_MESSAGE_ID)?;
        let request_id = b.get_varint()?;
        let error_code = b.get_varint()?;
        let error_reason = ReasonPhrase::from_bytes(b)?;
        let track_alias = get_optional_varint(b, is_version_until_11(version))?;
        Ok(Self { request_id, error_code, error_reason, track_alias })
    }
}

} // verus!
