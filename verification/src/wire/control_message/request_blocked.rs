//! REQUEST_BLOCKED: the peer would ask for more than it may.

use super::parse_header_with_payload;
use super::read_header_with_payload;
use crate::wire::bytes::FromBytes;
use crate::wire::error::Parsed;
use crate::wire::error::Result;
use crate::wire::octets::Reader;
use crate::wire::varint::parse_varint;
use crate::wire::RequestId;
use crate::wire::Version;
use crate::wire::REQUEST_BLOCKED_CONTROL_MESSAGE_ID;
use vstd::prelude::*;

verus! {

#[derive(Debug, Clone, Copy, PartialEq, Eq, Structural)]
pub struct RequestBlockedMessage {
    pub maximum_request_id: RequestId,
}

impl View for RequestBlockedMessage {
    type V = RequestBlockedMessage;

    open spec fn view(&self) -> RequestBlockedMessage {
        *self
    }
}

/// Reading a REQUEST_BLOCKED: the header, then the largest request id.
pub open spec fn parse_request_blocked(bytes: Seq<u8>, off: int, version: Version) -> Parsed<
    RequestBlockedMessage,
> {
    match parse_header_with_payload(bytes, off, version, REQUEST_BLOCKED_CONTROL_MESSAGE_ID) {
        Err(f) => Err(f),
        Ok((_, o0)) => match parse_varint(bytes, o0) {
            Err(f) => Err(f),
            Ok((maximum_request_id, o1)) => Ok((RequestBlockedMessage { maximum_request_id }, o1)),
        },
    }
}

impl FromBytes for RequestBlockedMessage {
    open spec fn parse(bytes: Seq<u8>, off: int, version: Version) -> Parsed<
        RequestBlockedMessage,
    > {
        parse_request_blocked(bytes, off, version)
    }

    fn from_bytes(b: &mut Reader, version: Version) -> (r: Result<Self>) {
        proof {
            let _ = Self::parse(b.bytes(), b.pos(), version);
        }
        let _header = read_header_with_payload(b, version, REQUEST_BLOCKED_CONTROL_MESSAGE_ID)?;
        Ok(Self { maximum_request_id: b.get_varint()? })
    }
}

} // verus!
