//! UNSUBSCRIBE_NAMESPACE: read for its frame alone; its payload is passed
//! over.

use super::parse_header_of;
use super::read_header_of;
use crate::wire::bytes::FromBytes;
use crate::wire::error::Error;
use crate::wire::error::Fault;
use crate::wire::error::Parsed;
use crate::wire::error::Result;
use crate::wire::octets::Reader;
use crate::wire::Version;
use crate::wire::UNSUBSCRIBE_NAMESPACE_MESSAGE_ID;
use vstd::prelude::*;

verus! {

#[derive(Debug, Clone, Copy, PartialEq, Eq, Structural)]
pub struct UnsubscribeNamespaceMessage {}

impl View for UnsubscribeNamespaceMessage {
    type V = UnsubscribeNamespaceMessage;

    open spec fn view(&self) -> UnsubscribeNamespaceMessage {
        *self
    }
}

/// Reading an UNSUBSCRIBE_NAMESPACE: the header, then as many bytes as the
/// header says the payload has.
pub open spec fn parse_unsubscribe_namespace(bytes: Seq<u8>, off: int, version: Version) -> Parsed<
    UnsubscribeNamespaceMessage,
> {
    match parse_header_of(bytes, off, version, UNSUBSCRIBE_NAMESPACE_MESSAGE_ID) {
        Err(f) => Err(f),
        Ok((h, o0)) => if o0 + h.len <= bytes.len() {
            Ok((UnsubscribeNamespaceMessage {  }, o0 + h.len))
        } else {
            Err(Fault::TooShort)
        },
    }
}

impl FromBytes for UnsubscribeNamespaceMessage {
    open spec fn parse(bytes: Seq<u8>, off: int, version: Version) -> Parsed<
        UnsubscribeNamespaceMessage,
    > {
        parse_unsubscribe_namespace(bytes, off, version)
    }

    fn from_bytes(b: &mut Reader, version: Version) -> (r: Result<Self>) {
        proof {
            let _ = Self::parse(b.bytes(), b.pos(), version);
        }
        let header = read_header_of(b, version, UNSUBSCRIBE_NAMESPACE_MESSAGE_ID)?;
        if header.len > b.cap() as u64 {
            return Err(Error::Octets(crate::wire::octets::buffer_too_short()));
        }
        b.skip(header.len as usize)?;
        Ok(Self {  })
    }
}

} // verus!
