use super::bytes::FromBytes;
use super::bytes::ToBytes;
use super::error::Fault;
use super::error::Parsed;
use super::error::Result;
use super::octets::Reader;
use super::octets::Writer;
use super::varint::lemma_holds_at_split;
use super::varint::lemma_parse_varint_roundtrip;
use super::varint::holds_at;
use super::varint::parse_varint;
use super::varint::varint_bytes;
use super::varint::MAX_VAR_INT;
use super::Version;
use vstd::prelude::*;

verus! {

/// The place of an object in a track: its group, and its number in the group.
#[derive(Debug, PartialEq, Eq, Structural, Clone, Copy)]
pub struct Location {
    pub group: u64,
    pub object: u64,
}

impl View for Location {
    type V = Location;

    open spec fn view(&self) -> Location {
        *self
    }
}

/// Reading a location: the group, then the object.
pub open spec fn parse_location(bytes: Seq<u8>, off: int) -> Parsed<Location> {
    match parse_varint(bytes, off) {
        Err(f) => Err(f),
        Ok((group, o1)) => match parse_varint(bytes, o1) {
            Err(f) => Err(f),
            Ok((object, o2)) => Ok((Location { group, object }, o2)),
        },
    }
}

pub open spec fn location_bytes(l: Location) -> Seq<u8> {
    varint_bytes(l.group) + varint_bytes(l.object)
}

pub open spec fn location_encodable(l: Location) -> bool {
    l.group <= MAX_VAR_INT && l.object <= MAX_VAR_INT
}

impl FromBytes for Location {
    open spec fn parse(bytes: Seq<u8>, off: int, version: Version) -> Parsed<Location> {
        parse_location(bytes, off)
    }

    fn from_bytes(b: &mut Reader, version: Version) -> (r: Result<Self>) {
        proof {
            let _ = Self::parse(b.bytes(), b.pos(), version);
        }
        let group = b.get_varint()?;
        let object = b.get_varint()?;
        Ok(Self { group, object })
    }
}

impl ToBytes for Location {
    open spec fn encodable(v: Location, version: Version) -> bool {
        location_encodable(v)
    }

    open spec fn invalid(v: Location, version: Version) -> bool {
        false
    }

    open spec fn too_long(v: Location, version: Version) -> bool {
        false
    }

    open spec fn serialized(v: Location, version: Version) -> Seq<u8> {
        location_bytes(v)
    }

    fn to_bytes(&self, b: &mut Writer, version: Version) -> (r: Result<()>) {
        proof {
            let _ = Self::encodable(self@, version);
            let _ = Self::invalid(self@, version);
            let _ = Self::too_long(self@, version);
            let _ = Self::serialized(self@, version);
        }
        b.put_varint(self.group)?;
        b.put_varint(self.object)?;
        assert(b.written() =~= old(b).written() + location_bytes(*self));
        Ok(())
    }
}

/// A location that was written reads back as it was.
pub proof fn lemma_location_roundtrip(bytes: Seq<u8>, off: int, l: Location)
    requires
        location_encodable(l),
        holds_at(bytes, off, location_bytes(l)),
    ensures
        parse_location(bytes, off) == Ok::<(Location, int), Fault>(
            (l, off + location_bytes(l).len()),
        ),
{
    lemma_holds_at_split(bytes, off, varint_bytes(l.group), varint_bytes(l.object));
    lemma_parse_varint_roundtrip(bytes, off, l.group);
    lemma_parse_varint_roundtrip(bytes, off + varint_bytes(l.group).len(), l.object);
}

} // verus!
