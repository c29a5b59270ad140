use crate::wire::bytes::FromBytes;
use crate::wire::bytes::ToBytes;
use crate::wire::error::Parsed;
use crate::wire::error::Result;
use crate::wire::is_version_until_10;
use crate::wire::octets::Reader;
use crate::wire::octets::Writer;
use crate::wire::varint::parse_u16;
use crate::wire::varint::parse_varint;
use crate::wire::varint::u16_bytes;
use crate::wire::varint::varint_bytes;
use crate::wire::varint::MAX_VAR_INT;
use crate::wire::version_until_10;
use crate::wire::Version;
use vstd::prelude::*;

verus! {

/// The head of a control message: its type and the length of its payload.
#[derive(Debug, Clone, Copy, PartialEq, Eq, Structural)]
pub struct ControlMessageHeader {
    pub ty: u64,
    pub len: u64,
}

impl View for ControlMessageHeader {
    type V = ControlMessageHeader;

    open spec fn view(&self) -> ControlMessageHeader {
        *self
    }
}

/// Reading the length of a payload: a variable-length integer on drafts 07
/// to 10, a big-endian 16-bit number on drafts 11 to 13.
pub open spec fn parse_payload_length(bytes: Seq<u8>, off: int, version: Version) -> Parsed<u64> {
    if version_until_10(version) {
        parse_varint(bytes, off)
    } else {
        match parse_u16(bytes, off) {
            Err(f) => Err(f),
            Ok((len, o)) => Ok((len as u64, o)),
        }
    }
}

/// Reading a header: the type, then the length of the payload.
pub open spec fn parse_header(bytes: Seq<u8>, off: int, version: Version) -> Parsed<
    ControlMessageHeader,
> {
    match parse_varint(bytes, off) {
        Err(f) => Err(f),
        Ok((ty, o1)) => match parse_payload_length(bytes, o1, version) {
            Err(f) => Err(f),
            Ok((len, o2)) => Ok((ControlMessageHeader { ty, len }, o2)),
        },
    }
}

/// The bytes of a header, with the length in its shortest form.
pub open spec fn header_bytes(h: ControlMessageHeader, version: Version) -> Seq<u8> {
    varint_bytes(h.ty) + if version_until_10(version) {
        varint_bytes(h.len)
    } else {
        u16_bytes(h.len as u16)
    }
}

pub open spec fn header_encodable(h: ControlMessageHeader, version: Version) -> bool {
    &&& h.ty <= MAX_VAR_INT
    &&& if version_until_10(version) {
        h.len <= MAX_VAR_INT
    } else {
        h.len <= 0xffff
    }
}

impl ControlMessageHeader {
    pub fn ty(&self) -> (r: u64)
        ensures
            r == self.ty,
    {
        self.ty
    }

    pub fn len(&self) -> (r: u64)
        ensures
            r == self.len,
    {
        self.len
    }

    pub fn payload_length(&self) -> (r: u64)
        ensures
            r == self.len,
    {
        self.len
    }
}

impl FromBytes for ControlMessageHeader {
    open spec fn parse(bytes: Seq<u8>, off: int, version: Version) -> Parsed<ControlMessageHeader> {
        parse_header(bytes, off, version)
    }

    fn from_bytes(b: &mut Reader, version: Version) -> (r: Result<Self>) {
        proof {
            let _ = Self::parse(b.bytes(), b.pos(), version);
        }
        let ty = b.get_varint()?;
        let len = if is_version_until_10(version) {
            b.get_varint()?
        } else {
            b.get_u16()? as u64
        };
        Ok(Self { ty, len })
    }
}

impl ToBytes for ControlMessageHeader {
    open spec fn encodable(v: ControlMessageHeader, version: Version) -> bool {
        header_encodable(v, version)
    }

    open spec fn invalid(v: ControlMessageHeader, version: Version) -> bool {
        false
    }

    open spec fn too_long(v: ControlMessageHeader, version: Version) -> bool {
        false
    }

    open spec fn serialized(v: ControlMessageHeader, version: Version) -> Seq<u8> {
        header_bytes(v, version)
    }

    fn to_bytes(&self, b: &mut Writer, version: Version) -> (r: Result<()>) {
        proof {
            let _ = Self::encodable(self@, version);
            let _ = Self::invalid(self@, version);
            let _ = Self::too_long(self@, version);
            let _ = Self::serialized(self@, version);
        }
        b.put_varint(self.ty)?;
        if is_version_until_10(version) {
            b.put_varint(self.len)?;
        } else {
            b.put_u16(self.len as u16)?;
        }
        assert(b.written() =~= old(b).written() + header_bytes(*self, version));
        Ok(())
    }
}

} // verus!
