//! SUBSCRIBE_OK: the answer to a SUBSCRIBE that is accepted.

use super::get_optional_location;
use super::get_optional_varint;
use super::lemma_frame_roundtrip;
use super::lemma_optional_location_roundtrip;
use super::lemma_optional_varint_roundtrip;
use super::message_bytes;
use super::message_too_long;
use super::only_if;
use super::optional_location_bytes;
use super::optional_varint_bytes;
use super::parse_header_with_payload;
use super::parse_optional_location;
use super::parse_optional_varint;
use super::put_optional_location;
use super::put_optional_varint;
use super::read_header_with_payload;
use super::subscribe::SubscribeMessage;
use super::write_framed;
use super::Payload;
use crate::wire::bytes::lemma_encoded_first;
use crate::wire::bytes::lemma_encoded_step;
use crate::wire::bytes::FromBytes;
use crate::wire::bytes::ToBytes;
use crate::wire::error::Error;
use crate::wire::error::Fault;
use crate::wire::error::Parsed;
use crate::wire::error::Result;
use crate::wire::is_version_until_11;
use crate::wire::key_value_pair::PairView;
use crate::wire::location::location_encodable;
use crate::wire::location::Location;
use crate::wire::octets::reads;
use crate::wire::octets::wrote;
use crate::wire::octets::Reader;
use crate::wire::octets::Writer;
use crate::wire::parameters::lemma_parameters_roundtrip;
use crate::wire::parameters::parameters_bytes;
use crate::wire::parameters::parameters_canonical;
use crate::wire::parameters::parameters_encodable;
use crate::wire::parameters::parse_parameters;
use crate::wire::parameters::Parameters;
use crate::wire::varint::holds_at;
use crate::wire::varint::lemma_holds_at_split;
use crate::wire::varint::lemma_parse_varint_roundtrip;
use crate::wire::varint::lemma_u8_roundtrip;
use crate::wire::varint::parse_u8;
use crate::wire::varint::varint_len;
use crate::wire::varint::parse_varint;
use crate::wire::varint::varint_bytes;
use crate::wire::varint::MAX_VAR_INT;
use crate::wire::version_until_11;
use crate::wire::RequestId;
use crate::wire::TrackAlias;
use crate::wire::Version;
use crate::wire::SUBSCRIBE_OK_CONTROL_MESSAGE_ID;
use vstd::prelude::*;

verus! {

/// The order in which the groups of a track are delivered.
#[derive(Debug, Clone, Copy, PartialEq, Eq, Structural)]
pub enum GroupOrder {
    Ascending,
    Descending,
}

/// The byte that stands for a group order.
pub open spec fn group_order_id(g: GroupOrder) -> u8 {
    match g {
        GroupOrder::Ascending => 0x1,
        GroupOrder::Descending => 0x2,
    }
}

/// Reading a group order: 1 is ascending, 2 is descending, any other byte
/// breaks the protocol.
pub open spec fn parse_group_order(bytes: Seq<u8>, off: int) -> Parsed<GroupOrder> {
    match parse_u8(bytes, off) {
        Err(f) => Err(f),
        Ok((v, o)) => if v == 0x1 {
            Ok((GroupOrder::Ascending, o))
        } else if v == 0x2 {
            Ok((GroupOrder::Descending, o))
        } else {
            Err(Fault::Violation)
        },
    }
}

impl GroupOrder {
    pub fn from_bytes(b: &mut Reader, version: Version) -> (r: Result<Self>)
        ensures
            reads(*old(b), *final(b), r, parse_group_order(old(b).bytes(), old(b).pos())),
    {
        let v = b.get_u8()?;
        if v == 0x1 {
            Ok(GroupOrder::Ascending)
        } else if v == 0x2 {
            Ok(GroupOrder::Descending)
        } else {
            Err(Error::violation("invalid group order"))
        }
    }

    pub fn to_bytes(&self, b: &mut Writer, version: Version) -> (r: Result<()>)
        ensures
            wrote(*old(b), *final(b), r, seq![group_order_id(*self)]),
    {
        match self {
            GroupOrder::Ascending => b.put_u8(0x1),
            GroupOrder::Descending => b.put_u8(0x2),
        }
    }
}

#[derive(Debug, PartialEq, Eq)]
pub struct SubscribeOkMessage {
    pub request_id: RequestId,
    /// Set on drafts 12 and 13.
    pub track_alias: Option<TrackAlias>,
    pub expires: u64,
    pub group_order: GroupOrder,
    pub largest_location: Option<Location>,
    pub parameters: Parameters,
}

/// What a SUBSCRIBE_OK is in contracts.
pub struct SubscribeOkView {
    pub request_id: RequestId,
    pub track_alias: Option<TrackAlias>,
    pub expires: u64,
    pub group_order: GroupOrder,
    pub largest_location: Option<Location>,
    pub parameters: Seq<PairView>,
}

impl View for SubscribeOkMessage {
    type V = SubscribeOkView;

    open spec fn view(&self) -> SubscribeOkView {
        SubscribeOkView {
            request_id: self.request_id,
            track_alias: self.track_alias,
            expires: self.expires,
            group_order: self.group_order,
            largest_location: self.largest_location,
            parameters: self.parameters@,
        }
    }
}

/// Reading the byte that says whether a largest location follows, and the
/// location where the byte is 1.
pub open spec fn parse_largest_location(bytes: Seq<u8>, off: int) -> Parsed<Option<Location>> {
    match parse_u8(bytes, off) {
        Err(f) => Err(f),
        Ok((content_exists, o)) => parse_optional_location(bytes, o, content_exists == 1),
    }
}

/// Reading a SUBSCRIBE_OK: the header, the request id, the track alias on
/// drafts 12 and 13, the expiry, the group order, the largest location where
/// there is content, the parameters.
pub open spec fn parse_subscribe_ok(bytes: Seq<u8>, off: int, version: Version) -> Parsed<
    SubscribeOkView,
> {
    match parse_header_with_payload(bytes, off, version, SUBSCRIBE_OK_CONTROL_MESSAGE_ID) {
        Err(f) => Err(f),
        Ok((_, o0)) => match parse_varint(bytes, o0) {
            Err(f) => Err(f),
            Ok((request_id, o1)) => match parse_optional_varint(
                bytes,
                o1,
                !version_until_11(version),
            ) {
                Err(f) => Err(f),
                Ok((track_alias, o2)) => match parse_varint(bytes, o2) {
                    Err(f) => Err(f),
                    Ok((expires, o3)) => match parse_group_order(bytes, o3) {
                        Err(f) => Err(f),
                        Ok((group_order, o4)) => match parse_largest_location(bytes, o4) {
                            Err(f) => Err(f),
                            Ok((largest_location, o5)) => match parse_parameters(
                                bytes,
                                o5,
                                version,
                            ) {
                                Err(f) => Err(f),
                                Ok((parameters, o6)) => Ok(
                                    (
                                        SubscribeOkView {
                                            request_id,
                                            track_alias,
                                            expires,
                                            group_order,
                                            largest_location,
                                            parameters,
                                        },
                                        o6,
                                    ),
                                ),
                            },
                        },
                    },
                },
            },
        },
    }
}

/// The byte that says whether a largest location follows, and the location.
pub open spec fn largest_location_bytes(l: Option<Location>) -> Seq<u8> {
    match l {
        Some(_) => seq![1u8] + optional_location_bytes(l),
        None => seq![0u8],
    }
}

/// The bytes of the payload of a SUBSCRIBE_OK.
pub open spec fn subscribe_ok_payload(m: SubscribeOkView, version: Version) -> Seq<u8> {
    varint_bytes(m.request_id) + optional_varint_bytes(
        only_if(!version_until_11(version), m.track_alias),
    ) + varint_bytes(m.expires) + seq![group_order_id(m.group_order)] + largest_location_bytes(
        m.largest_location,
    ) + parameters_bytes(m.parameters, version)
}

/// The message holds the track alias where the draft asks for it, and its
/// integers fit 62 bits.
pub open spec fn subscribe_ok_encodable(m: SubscribeOkView, version: Version) -> bool {
    &&& m.request_id <= MAX_VAR_INT
    &&& !version_until_11(version) ==> m.track_alias is Some
    &&& m.track_alias matches Some(a) ==> a <= MAX_VAR_INT
    &&& m.expires <= MAX_VAR_INT
    &&& m.largest_location matches Some(l) ==> location_encodable(l)
    &&& parameters_encodable(m.parameters, version)
}

impl SubscribeOkMessage {
    /// The answer that accepts `sm`, with the track alias that the publisher
    /// picked where the subscriber picked none.
    pub fn from(sm: &SubscribeMessage, track_alias: Option<TrackAlias>) -> (m: Self)
        requires
            (track_alias is None) != (sm@.track_alias is None),
        ensures
            m@ == (SubscribeOkView {
                request_id: sm@.request_id,
                track_alias,
                expires: 0,
                group_order: GroupOrder::Ascending,
                largest_location: None,
                parameters: Seq::empty(),
            }),
    {
        let m = Self {
            request_id: sm.request_id,
            track_alias,
            expires: 0,
            group_order: GroupOrder::Ascending,
            largest_location: None,
            parameters: Parameters(Vec::new()),
        };
        assert(m@.parameters =~= Seq::<PairView>::empty());
        m
    }

    pub fn request_id(&self) -> (r: u64)
        ensures
            r == self@.request_id,
    {
        self.request_id
    }

    /// Set on drafts 12 and 13.
    pub fn track_alias(&self) -> (r: Option<u64>)
        ensures
            r == self@.track_alias,
    {
        self.track_alias
    }

    /// Writes the byte that says whether a largest location follows, and the
    /// location.
    fn write_largest_location(&self, b: &mut Writer) -> (r: Result<()>)
        requires
            self.largest_location matches Some(l) ==> location_encodable(l),
        ensures
            crate::wire::bytes::encoded(
                *old(b),
                *final(b),
                r,
                false,
                false,
                largest_location_bytes(self.largest_location),
            ),
    {
        let ghost whole = largest_location_bytes(self.largest_location);
        let flag: u8 = if self.largest_location.is_some() {
            1
        } else {
            0
        };
        let r = b.put_u8(flag);
        proof {
            lemma_encoded_first(*old(b), *b, r, seq![flag], whole, false);
        }
        r?;
        let ghost w = *b;
        let r = put_optional_location(b, self.largest_location);
        proof {
            lemma_encoded_step(
                *old(b),
                w,
                *b,
                r,
                seq![flag],
                optional_location_bytes(self.largest_location),
                whole,
                false,
            );
            assert(seq![0u8] + Seq::<u8>::empty() =~= seq![0u8]);
        }
        r?;
        Ok(())
    }
}

impl FromBytes for SubscribeOkMessage {
    open spec fn parse(bytes: Seq<u8>, off: int, version: Version) -> Parsed<SubscribeOkView> {
        parse_subscribe_ok(bytes, off, version)
    }

    fn from_bytes(b: &mut Reader, version: Version) -> (r: Result<Self>) {
        proof {
            let _ = Self::parse(b.bytes(), b.pos(), version);
        }
        let _header = read_header_with_payload(b, version, SUBSCRIBE_OK_CONTROL_MESSAGE_ID)?;
        let request_id = b.get_varint()?;
        let track_alias = get_optional_varint(b, !is_version_until_11(version))?;
        let expires = b.get_varint()?;
        let group_order = GroupOrder::from_bytes(b, version)?;
        let content_exists = b.get_u8()?;
        let largest_location = get_optional_location(b, content_exists == 1)?;
        let parameters = Parameters::from_bytes(b, version)?;
        Ok(Self { request_id, track_alias, expires, group_order, largest_location, parameters })
    }
}

impl Payload for SubscribeOkMessage {
    open spec fn message_type(version: Version) -> u64 {
        SUBSCRIBE_OK_CONTROL_MESSAGE_ID
    }

    open spec fn payload_encodable(v: SubscribeOkView, version: Version) -> bool {
        subscribe_ok_encodable(v, version)
    }

    open spec fn payload_bytes(v: SubscribeOkView, version: Version) -> Seq<u8> {
        subscribe_ok_payload(v, version)
    }

    fn type_id(version: Version) -> (r: u64) {
        proof {
            let _ = Self::message_type(version);
        }
        SUBSCRIBE_OK_CONTROL_MESSAGE_ID
    }

    fn write_payload(&self, b: &mut Writer, version: Version) -> (r: Result<()>) {
        proof {
            let _ = Self::payload_encodable(self@, version);
            let _ = Self::payload_bytes(self@, version);
        }
        let ghost m = self@;
        let ghost s0 = varint_bytes(m.request_id);
        let ghost s1 = optional_varint_bytes(only_if(!version_until_11(version), m.track_alias));
        let ghost s2 = varint_bytes(m.expires);
        let ghost s3 = seq![group_order_id(m.group_order)];
        let ghost s4 = largest_location_bytes(m.largest_location);
        let ghost s5 = parameters_bytes(m.parameters, version);
        let ghost whole = subscribe_ok_payload(m, version);

        let r = b.put_varint(self.request_id);
        proof {
            lemma_encoded_first(*old(b), *b, r, s0, whole, false);
        }
        r?;

        let ghost w = *b;
        let alias = if is_version_until_11(version) {
            None
        } else {
            self.track_alias
        };
        let r = put_optional_varint(b, alias);
        proof {
            lemma_encoded_step(*old(b), w, *b, r, s0, s1, whole, false);
        }
        r?;

        let ghost w = *b;
        let r = b.put_varint(self.expires);
        proof {
            lemma_encoded_step(*old(b), w, *b, r, s0 + s1, s2, whole, false);
        }
        r?;

        let ghost w = *b;
        let r = self.group_order.to_bytes(b, version);
        proof {
            lemma_encoded_step(*old(b), w, *b, r, s0 + s1 + s2, s3, whole, false);
        }
        r?;

        let ghost w = *b;
        let r = self.write_largest_location(b);
        proof {
            lemma_encoded_step(*old(b), w, *b, r, s0 + s1 + s2 + s3, s4, whole, false);
        }
        r?;

        let ghost w = *b;
        let r = self.parameters.to_bytes(b, version);
        proof {
            lemma_encoded_step(*old(b), w, *b, r, s0 + s1 + s2 + s3 + s4, s5, whole, false);
        }
        r?;
        Ok(())
    }
}

impl ToBytes for SubscribeOkMessage {
    open spec fn encodable(v: SubscribeOkView, version: Version) -> bool {
        subscribe_ok_encodable(v, version)
    }

    open spec fn invalid(v: SubscribeOkView, version: Version) -> bool {
        false
    }

    open spec fn too_long(v: SubscribeOkView, version: Version) -> bool {
        message_too_long::<SubscribeOkMessage>(v, version)
    }

    open spec fn serialized(v: SubscribeOkView, version: Version) -> Seq<u8> {
        message_bytes::<SubscribeOkMessage>(v, version)
    }

    fn to_bytes(&self, b: &mut Writer, version: Version) -> (r: Result<()>) {
        proof {
            let _ = Self::encodable(self@, version);
            let _ = Self::invalid(self@, version);
            let _ = Self::too_long(self@, version);
            let _ = Self::serialized(self@, version);
        }
        write_framed(self, b, version)
    }
}

/// The message is one that reading can yield on the given draft.
pub open spec fn subscribe_ok_canonical(m: SubscribeOkView, version: Version) -> bool {
    &&& subscribe_ok_encodable(m, version)
    &&& m.track_alias is Some <==> !version_until_11(version)
    &&& parameters_canonical(m.parameters, version)
}

/// A largest location that was written reads back as it was.
pub proof fn lemma_largest_location_roundtrip(bytes: Seq<u8>, off: int, l: Option<Location>)
    requires
        l matches Some(x) ==> location_encodable(x),
        holds_at(bytes, off, largest_location_bytes(l)),
    ensures
        parse_largest_location(bytes, off) == Ok::<(Option<Location>, int), Fault>(
            (l, off + largest_location_bytes(l).len()),
        ),
{
    match l {
        Some(x) => {
            lemma_holds_at_split(bytes, off, seq![1u8], optional_location_bytes(l));
            lemma_u8_roundtrip(bytes, off, 1u8);
            lemma_optional_location_roundtrip(bytes, off + 1, true, l);
        },
        None => {
            lemma_u8_roundtrip(bytes, off, 0u8);
        },
    }
}

/// A SUBSCRIBE_OK that reading can yield, once written, reads back as it
/// was.
#[verifier::rlimit(50)]
pub proof fn lemma_subscribe_ok_roundtrip(
    bytes: Seq<u8>,
    off: int,
    m: SubscribeOkView,
    version: Version,
)
    requires
        subscribe_ok_canonical(m, version),
        !message_too_long::<SubscribeOkMessage>(m, version),
        holds_at(bytes, off, message_bytes::<SubscribeOkMessage>(m, version)),
    ensures
        parse_subscribe_ok(bytes, off, version) == Ok::<(SubscribeOkView, int), Fault>(
            (m, off + message_bytes::<SubscribeOkMessage>(m, version).len()),
        ),
{
    let payload = subscribe_ok_payload(m, version);
    assert(SubscribeOkMessage::payload_bytes(m, version) == payload);
    assert(SubscribeOkMessage::message_type(version) == SUBSCRIBE_OK_CONTROL_MESSAGE_ID);
    lemma_frame_roundtrip(bytes, off, SUBSCRIBE_OK_CONTROL_MESSAGE_ID, payload, version);
    let o0 = off + varint_len(SUBSCRIBE_OK_CONTROL_MESSAGE_ID) + 2;
    let s0 = varint_bytes(m.request_id);
    let s1 = optional_varint_bytes(only_if(!version_until_11(version), m.track_alias));
    let s2 = varint_bytes(m.expires);
    let s3 = seq![group_order_id(m.group_order)];
    let s4 = largest_location_bytes(m.largest_location);
    let s5 = parameters_bytes(m.parameters, version);
    lemma_holds_at_split(bytes, o0, s0 + s1 + s2 + s3 + s4, s5);
    lemma_holds_at_split(bytes, o0, s0 + s1 + s2 + s3, s4);
    lemma_holds_at_split(bytes, o0, s0 + s1 + s2, s3);
    lemma_holds_at_split(bytes, o0, s0 + s1, s2);
    lemma_holds_at_split(bytes, o0, s0, s1);
    lemma_parse_varint_roundtrip(bytes, o0, m.request_id);
    let o1 = o0 + s0.len();
    lemma_optional_varint_roundtrip(bytes, o1, !version_until_11(version), m.track_alias);
    let o2 = o1 + s1.len();
    lemma_parse_varint_roundtrip(bytes, o2, m.expires);
    let o3 = o2 + s2.len();
    lemma_u8_roundtrip(bytes, o3, group_order_id(m.group_order));
    let o4 = o3 + 1;
    lemma_largest_location_roundtrip(bytes, o4, m.largest_location);
    let o5 = o4 + s4.len();
    lemma_parameters_roundtrip(bytes, o5, m.parameters, version);
}

} // verus!
