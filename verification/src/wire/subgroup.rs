//! The header of a subgroup stream: the first bytes on a data stream.

use super::bytes::lemma_encoded_first;
use super::bytes::lemma_encoded_step;
use super::bytes::FromBytes;
use super::bytes::ToBytes;
use super::control_message::get_optional_varint;
use super::control_message::lemma_optional_varint_roundtrip;
use super::control_message::only_if;
use super::control_message::optional_varint_bytes;
use super::control_message::parse_optional_varint;
use super::control_message::put_optional_varint;
use super::error::Error;
use super::error::Fault;
use super::error::Parsed;
use super::error::Result;
use super::is_version_until_10;
use super::octets::Reader;
use super::octets::Writer;
use super::varint::holds_at;
use super::varint::lemma_holds_at_split;
use super::varint::lemma_parse_varint_roundtrip;
use super::varint::lemma_u8_roundtrip;
use super::varint::lemma_varint_bytes_len;
use super::varint::parse_u8;
use super::varint::varint_len;
use super::varint::parse_varint;
use super::varint::varint_bytes;
use super::varint::MAX_VAR_INT;
use super::version_known;
use super::version_until_10;
use super::TrackAlias;
use super::Version;
use super::MOQ_VERSION_DRAFT_07;
use super::STREAM_HEADER_SUBGROUP_STREAM_TYPE_ID;
use vstd::prelude::*;

verus! {

#[derive(Debug, Clone, Copy, PartialEq, Eq, Structural)]
pub struct SubgroupHeader {
    pub ty: u64,
    pub track_alias: TrackAlias,
    pub group_id: u64,
    pub subgroup_id: Option<u64>,
    pub publisher_priority: u8,
}

impl View for SubgroupHeader {
    type V = SubgroupHeader;

    open spec fn view(&self) -> SubgroupHeader {
        *self
    }
}

/// Object headers on a stream of this type carry extension headers.
pub open spec fn extensions_present(ty: u64) -> bool {
    ty == 0x9 || ty == 0xB || ty == 0xD
}

/// The header of a stream of this type carries a subgroup id.
pub open spec fn subgroup_id_present(ty: u64) -> bool {
    ty == 0xC || ty == 0xD
}

/// The subgroup id of a stream of this type is zero and not written.
pub open spec fn subgroup_id_implicit_zero(ty: u64) -> bool {
    ty == 0x8 || ty == 0x9
}

/// The type is one that a subgroup stream has on the given draft: 0x4 on
/// drafts 07 to 10, 0x8 to 0xD on drafts 11 to 13.
pub open spec fn subgroup_type_valid(ty: u64, version: Version) -> bool {
    if version_until_10(version) {
        ty == STREAM_HEADER_SUBGROUP_STREAM_TYPE_ID
    } else {
        0x8 <= ty <= 0xD
    }
}

/// The subgroup id is written behind the group id.
pub open spec fn subgroup_id_written(ty: u64, version: Version) -> bool {
    version_until_10(version) || subgroup_id_present(ty)
}

/// Reading the type of a subgroup stream.
pub open spec fn parse_subgroup_type(bytes: Seq<u8>, off: int, version: Version) -> Parsed<u64> {
    match parse_varint(bytes, off) {
        Err(f) => Err(f),
        Ok((ty, o)) => if subgroup_type_valid(ty, version) {
            Ok((ty, o))
        } else {
            Err(Fault::Violation)
        },
    }
}

/// Reading the header of a subgroup stream: the type, on draft 07 an integer
/// that is passed over, the track alias, the group id, the subgroup id where
/// it is written, the priority.
pub open spec fn parse_subgroup_header(bytes: Seq<u8>, off: int, version: Version) -> Parsed<
    SubgroupHeader,
> {
    match parse_subgroup_type(bytes, off, version) {
        Err(f) => Err(f),
        Ok((ty, o0)) => match parse_optional_varint(bytes, o0, version == MOQ_VERSION_DRAFT_07) {
            Err(f) => Err(f),
            Ok((_, o1)) => match parse_varint(bytes, o1) {
                Err(f) => Err(f),
                Ok((track_alias, o2)) => match parse_varint(bytes, o2) {
                    Err(f) => Err(f),
                    Ok((group_id, o3)) => match parse_optional_varint(
                        bytes,
                        o3,
                        subgroup_id_written(ty, version),
                    ) {
                        Err(f) => Err(f),
                        Ok((written_id, o4)) => match parse_u8(bytes, o4) {
                            Err(f) => Err(f),
                            Ok((publisher_priority, o5)) => Ok(
                                (
                                    SubgroupHeader {
                                        ty,
                                        track_alias,
                                        group_id,
                                        subgroup_id: if written_id is None
                                            && subgroup_id_implicit_zero(ty) {
                                            Some(0)
                                        } else {
                                            written_id
                                        },
                                        publisher_priority,
                                    },
                                    o5,
                                ),
                            ),
                        },
                    },
                },
            },
        },
    }
}

/// The bytes of the header of a subgroup stream.
pub open spec fn subgroup_header_bytes(h: SubgroupHeader, version: Version) -> Seq<u8> {
    varint_bytes(h.ty) + optional_varint_bytes(
        only_if(version == MOQ_VERSION_DRAFT_07, Some(0u64)),
    ) + varint_bytes(h.track_alias) + varint_bytes(h.group_id) + optional_varint_bytes(
        only_if(subgroup_id_written(h.ty, version), h.subgroup_id),
    ) + seq![h.publisher_priority]
}

/// The header has a type of the given draft, holds the subgroup id where it
/// is written, and its integers fit 62 bits.
pub open spec fn subgroup_header_encodable(h: SubgroupHeader, version: Version) -> bool {
    &&& subgroup_type_valid(h.ty, version)
    &&& h.track_alias <= MAX_VAR_INT
    &&& h.group_id <= MAX_VAR_INT
    &&& subgroup_id_written(h.ty, version) ==> h.subgroup_id is Some
    &&& h.subgroup_id matches Some(id) ==> id <= MAX_VAR_INT
}

/// The header is one that reading can yield on the given draft.
pub open spec fn subgroup_header_canonical(h: SubgroupHeader, version: Version) -> bool {
    &&& subgroup_header_encodable(h, version)
    &&& !subgroup_id_written(h.ty, version) ==> h.subgroup_id == if subgroup_id_implicit_zero(
        h.ty,
    ) {
        Some(0u64)
    } else {
        None
    }
}

impl SubgroupHeader {
    /// The header of a stream of the type that the draft sends: 0x4 on
    /// drafts 07 to 10, 0xD on drafts 11 to 13.
    pub fn new(track_alias: TrackAlias, group_id: u64, subgroup_id: u64, version: Version) -> (h:
        Self)
        requires
            version_known(version),
        ensures
            h == (SubgroupHeader {
                ty: if version_until_10(version) {
                    STREAM_HEADER_SUBGROUP_STREAM_TYPE_ID
                } else {
                    0xD
                },
                track_alias,
                group_id,
                subgroup_id: Some(subgroup_id),
                publisher_priority: 0,
            }),
    {
        let ty = if is_version_until_10(version) {
            STREAM_HEADER_SUBGROUP_STREAM_TYPE_ID
        } else {
            0xD
        };
        Self { ty, track_alias, group_id, subgroup_id: Some(subgroup_id), publisher_priority: 0 }
    }

    pub fn ty(&self) -> (r: u64)
        ensures
            r == self.ty,
    {
        self.ty
    }

    pub fn extensions_present(ty: u64) -> (r: bool)
        ensures
            r == extensions_present(ty),
    {
        ty == 0x9 || ty == 0xB || ty == 0xD
    }

    pub fn subgroup_id_present(ty: u64) -> (r: bool)
        ensures
            r == subgroup_id_present(ty),
    {
        ty == 0xC || ty == 0xD
    }

    pub fn subgroup_id_implicit_zero(ty: u64) -> (r: bool)
        ensures
            r == subgroup_id_implicit_zero(ty),
    {
        ty == 0x8 || ty == 0x9
    }

    pub fn track_alias(&self) -> (r: TrackAlias)
        ensures
            r == self.track_alias,
    {
        self.track_alias
    }
}

impl FromBytes for SubgroupHeader {
    open spec fn parse(bytes: Seq<u8>, off: int, version: Version) -> Parsed<SubgroupHeader> {
        parse_subgroup_header(bytes, off, version)
    }

    fn from_bytes(b: &mut Reader, version: Version) -> (r: Result<Self>) {
        proof {
            let _ = Self::parse(b.bytes(), b.pos(), version);
        }
        let ty = b.get_varint()?;
        if is_version_until_10(version) {
            if ty != STREAM_HEADER_SUBGROUP_STREAM_TYPE_ID {
                return Err(Error::violation("unexpected subgroup stream type"));
            }
        } else {
            if ty < 0x8 || ty > 0xD {
                return Err(Error::violation("unexpected subgroup stream type"));
            }
        }
        let _subscribe_id = get_optional_varint(b, version == MOQ_VERSION_DRAFT_07)?;
        let track_alias = b.get_varint()?;
        let group_id = b.get_varint()?;
        let written = is_version_until_10(version) || Self::subgroup_id_present(ty);
        let written_id = get_optional_varint(b, written)?;
        let subgroup_id = if written_id.is_none() && Self::subgroup_id_implicit_zero(ty) {
            Some(0)
        } else {
            written_id
        };
        let publisher_priority = b.get_u8()?;
        Ok(Self { ty, track_alias, group_id, subgroup_id, publisher_priority })
    }
}

impl ToBytes for SubgroupHeader {
    open spec fn encodable(v: SubgroupHeader, version: Version) -> bool {
        subgroup_header_encodable(v, version)
    }

    open spec fn invalid(v: SubgroupHeader, version: Version) -> bool {
        false
    }

    open spec fn too_long(v: SubgroupHeader, version: Version) -> bool {
        false
    }

    open spec fn serialized(v: SubgroupHeader, version: Version) -> Seq<u8> {
        subgroup_header_bytes(v, version)
    }

    fn to_bytes(&self, b: &mut Writer, version: Version) -> (r: Result<()>) {
        proof {
            let _ = Self::encodable(self@, version);
            let _ = Self::invalid(self@, version);
            let _ = Self::too_long(self@, version);
            let _ = Self::serialized(self@, version);
        }
        let ghost h = *self;
        let ghost s0 = varint_bytes(h.ty);
        let ghost s1 = optional_varint_bytes(only_if(version == MOQ_VERSION_DRAFT_07, Some(0u64)));
        let ghost s2 = varint_bytes(h.track_alias);
        let ghost s3 = varint_bytes(h.group_id);
        let ghost s4 = optional_varint_bytes(
            only_if(subgroup_id_written(h.ty, version), h.subgroup_id),
        );
        let ghost s5 = seq![h.publisher_priority];
        let ghost whole = subgroup_header_bytes(h, version);

        let r = b.put_varint(self.ty);
        proof {
            lemma_encoded_first(*old(b), *b, r, s0, whole, false);
        }
        r?;

        let ghost w = *b;
        let placeholder = if version == MOQ_VERSION_DRAFT_07 {
            Some(0)
        } else {
            None
        };
        let r = put_optional_varint(b, placeholder);
        proof {
            lemma_encoded_step(*old(b), w, *b, r, s0, s1, whole, false);
        }
        r?;

        let ghost w = *b;
        let r = b.put_varint(self.track_alias);
        proof {
            lemma_encoded_step(*old(b), w, *b, r, s0 + s1, s2, whole, false);
        }
        r?;

        let ghost w = *b;
        let r = b.put_varint(self.group_id);
        proof {
            lemma_encoded_step(*old(b), w, *b, r, s0 + s1 + s2, s3, whole, false);
        }
        r?;

        let ghost w = *b;
        let id = if is_version_until_10(version) || Self::subgroup_id_present(self.ty) {
            self.subgroup_id
        } else {
            None
        };
        let r = put_optional_varint(b, id);
        proof {
            lemma_encoded_step(*old(b), w, *b, r, s0 + s1 + s2 + s3, s4, whole, false);
        }
        r?;

        let ghost w = *b;
        let r = b.put_u8(self.publisher_priority);
        proof {
            lemma_encoded_step(*old(b), w, *b, r, s0 + s1 + s2 + s3 + s4, s5, whole, false);
        }
        r?;
        Ok(())
    }
}

/// The header of a subgroup stream that reading can yield, once written,
/// reads back as it was.
pub proof fn lemma_subgroup_header_roundtrip(
    bytes: Seq<u8>,
    off: int,
    h: SubgroupHeader,
    version: Version,
)
    requires
        version_known(version),
        subgroup_header_canonical(h, version),
        holds_at(bytes, off, subgroup_header_bytes(h, version)),
    ensures
        parse_subgroup_header(bytes, off, version) == Ok::<(SubgroupHeader, int), Fault>(
            (h, off + subgroup_header_bytes(h, version).len()),
        ),
{
    let first = version == MOQ_VERSION_DRAFT_07;
    let written = subgroup_id_written(h.ty, version);
    let s0 = varint_bytes(h.ty);
    let s1 = optional_varint_bytes(only_if(first, Some(0u64)));
    let s2 = varint_bytes(h.track_alias);
    let s3 = varint_bytes(h.group_id);
    let s4 = optional_varint_bytes(only_if(written, h.subgroup_id));
    let s5 = seq![h.publisher_priority];
    lemma_holds_at_split(bytes, off, s0 + s1 + s2 + s3 + s4, s5);
    lemma_holds_at_split(bytes, off, s0 + s1 + s2 + s3, s4);
    lemma_holds_at_split(bytes, off, s0 + s1 + s2, s3);
    lemma_holds_at_split(bytes, off, s0 + s1, s2);
    lemma_holds_at_split(bytes, off, s0, s1);
    lemma_parse_varint_roundtrip(bytes, off, h.ty);
    let o0 = off + s0.len();
    lemma_optional_varint_roundtrip(bytes, o0, first, Some(0u64));
    let o1 = o0 + s1.len();
    lemma_parse_varint_roundtrip(bytes, o1, h.track_alias);
    let o2 = o1 + s2.len();
    lemma_parse_varint_roundtrip(bytes, o2, h.group_id);
    let o3 = o2 + s3.len();
    lemma_optional_varint_roundtrip(bytes, o3, written, h.subgroup_id);
    let o4 = o3 + s4.len();
    lemma_u8_roundtrip(bytes, o4, h.publisher_priority);
}

/// The header of a subgroup stream takes no more than 34 bytes.
pub proof fn lemma_subgroup_header_short(h: SubgroupHeader, version: Version)
    requires
        subgroup_header_encodable(h, version),
    ensures
        subgroup_header_bytes(h, version).len() <= 34,
{
    lemma_varint_bytes_len(h.ty, varint_len(h.ty));
    lemma_varint_bytes_len(0, varint_len(0));
    lemma_varint_bytes_len(h.track_alias, varint_len(h.track_alias));
    lemma_varint_bytes_len(h.group_id, varint_len(h.group_id));
    if h.subgroup_id is Some {
        lemma_varint_bytes_len(h.subgroup_id->Some_0, varint_len(h.subgroup_id->Some_0));
    }
}

} // verus!
