//! SUBSCRIBE_DONE: the publisher ends a subscription.

use super::parse_header_of;
use super::read_header_of;
use crate::wire::error::Parsed;
use crate::wire::error::Result;
use crate::wire::octets::reads_view;
use crate::wire::octets::Reader;
use crate::wire::reason_phrase::parse_reason_phrase;
use crate::wire::reason_phrase::ReasonPhrase;
use crate::wire::varint::parse_varint;
use crate::wire::version_known;
use crate::wire::Version;
use crate::wire::SUBSCRIBE_DONE_CONTROL_MESSAGE_ID;
use vstd::prelude::*;

verus! {

#[derive(Debug)]
pub struct SubscribeDoneMessage {
    pub request_id: u64,
    pub status_code: u64,
    pub stream_count: u64,
    pub error_reason: ReasonPhrase,
}

/// What a SUBSCRIBE_DONE is in contracts.
pub struct SubscribeDoneView {
    pub request_id: u64,
    pub status_code: u64,
    pub stream_count: u64,
    pub error_reason: Seq<char>,
}

impl View for SubscribeDoneMessage {
    type V = SubscribeDoneView;

    open spec fn view(&self) -> SubscribeDoneView {
        SubscribeDoneView {
            request_id: self.request_id,
            status_code: self.status_code,
            stream_count: self.stream_count,
            error_reason: self.error_reason@,
        }
    }
}

/// Reading a SUBSCRIBE_DONE: the header, the request id, the status code,
/// the number of streams, the reason.
pub open spec fn parse_subscribe_done(bytes: Seq<u8>, off: int, version: Version) -> Parsed<
    SubscribeDoneView,
> {
    match parse_header_of(bytes, off, version, SUBSCRIBE_DONE_CONTROL_MESSAGE_ID) {
        Err(f) => Err(f),
        Ok((_, o0)) => match parse_varint(bytes, o0) {
            Err(f) => Err(f),
            Ok((request_id, o1)) => match parse_varint(bytes, o1) {
                Err(f) => Err(f),
                Ok((status_code, o2)) => match parse_varint(bytes, o2) {
                    Err(f) => Err(f),
                    Ok((stream_count, o3)) => match parse_reason_phrase(bytes, o3) {
                        Err(f) => Err(f),
                        Ok((error_reason, o4)) => Ok(
                            (
                                SubscribeDoneView {
                                    request_id,
                                    status_code,
                                    stream_count,
                                    error_reason,
                                },
                                o4,
                            ),
                        ),
                    },
                },
            },
        },
    }
}

impl SubscribeDoneMessage {
    pub fn from_bytes(b: &mut Reader, version: Version) -> (r: Result<Self>)
        requires
            version_known(version),
        ensures
            reads_view(
                *old(b),
                *final(b),
                r,
                parse_subscribe_done(old(b).bytes(), old(b).pos(), version),
            ),
    {
        let _header = read_header_of(b, version, SUBSCRIBE_DONE_CONTROL_MESSAGE_ID)?;
        let request_id = b.get_varint()?;
        let status_code = b.get_varint()?;
        let stream_count = b.get_varint()?;
        let error_reason = ReasonPhrase::from_bytes(b)?;
        Ok(Self { request_id, status_code, stream_count, error_reason })
    }
}

} // verus!
