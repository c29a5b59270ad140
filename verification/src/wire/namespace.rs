use super::bytes::FromBytes;
use super::bytes::ToBytes;
use super::error::Parsed;
use super::error::Result;
use super::octets::Reader;
use super::octets::Writer;
use super::tuple::parse_tuple;
use super::tuple::tuple_bytes;
use super::tuple::tuple_encodable;
use super::tuple::Tuple;
use super::Version;
use vstd::prelude::*;

verus! {

/// The namespace of a track: a tuple of byte strings.
#[derive(Debug)]
pub struct Namespace(pub Tuple);

impl View for Namespace {
    type V = Seq<Seq<u8>>;

    open spec fn view(&self) -> Seq<Seq<u8>> {
        self.0@
    }
}

impl FromBytes for Namespace {
    open spec fn parse(bytes: Seq<u8>, off: int, version: Version) -> Parsed<Seq<Seq<u8>>> {
        parse_tuple(bytes, off)
    }

    fn from_bytes(b: &mut Reader, version: Version) -> (r: Result<Self>) {
        proof {
            let _ = Self::parse(b.bytes(), b.pos(), version);
        }
        Ok(Self(Tuple::from_bytes(b, version)?))
    }
}

impl ToBytes for Namespace {
    open spec fn encodable(v: Seq<Seq<u8>>, version: Version) -> bool {
        tuple_encodable(v)
    }

    open spec fn invalid(v: Seq<Seq<u8>>, version: Version) -> bool {
        false
    }

    open spec fn too_long(v: Seq<Seq<u8>>, version: Version) -> bool {
        false
    }

    open spec fn serialized(v: Seq<Seq<u8>>, version: Version) -> Seq<u8> {
        tuple_bytes(v)
    }

    fn to_bytes(&self, b: &mut Writer, version: Version) -> (r: Result<()>) {
        proof {
            let _ = Self::encodable(self@, version);
            let _ = Self::invalid(self@, version);
            let _ = Self::too_long(self@, version);
            let _ = Self::serialized(self@, version);
        }
        self.0.to_bytes(b, version)
    }
}

} // verus!
