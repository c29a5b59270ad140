//! SUBSCRIBE: a request for the objects of a track.

use super::get_optional_location;
use super::get_optional_u8;
use super::get_optional_varint;
use super::lemma_frame_roundtrip;
use super::lemma_optional_location_roundtrip;
use super::lemma_optional_u8_roundtrip;
use super::lemma_optional_varint_roundtrip;
use super::message_bytes;
use super::message_too_long;
use super::only_if;
use super::optional_location_bytes;
use super::optional_u8_bytes;
use super::optional_varint_bytes;
use super::parse_header_of;
use super::parse_optional_location;
use super::parse_optional_u8;
use super::parse_optional_varint;
use super::put_optional_location;
use super::put_optional_u8;
use super::put_optional_varint;
use super::read_header_of;
use super::write_framed;
use super::Payload;
use crate::wire::bytes::encoded;
use crate::wire::bytes::item_ser;
use crate::wire::bytes::repeat_bytes;
use crate::wire::bytes::lemma_encoded_first;
use crate::wire::bytes::lemma_encoded_step;
use crate::wire::bytes::views;
use crate::wire::bytes::FromBytes;
use crate::wire::bytes::ToBytes;
use crate::wire::error::Error;
use crate::wire::error::Fault;
use crate::wire::error::Parsed;
use crate::wire::error::Result;
use crate::wire::is_version_until_10;
use crate::wire::is_version_until_11;
use crate::wire::key_value_pair::PairView;
use crate::wire::location::location_encodable;
use crate::wire::location::Location;
use crate::wire::octets::reads;
use crate::wire::octets::wrote;
use crate::wire::octets::Reader;
use crate::wire::octets::Writer;
use crate::wire::parameters::lemma_parameters_roundtrip;
use crate::wire::parameters::parameters_bytes;
use crate::wire::parameters::parameters_canonical;
use crate::wire::parameters::parameters_encodable;
use crate::wire::parameters::parse_parameters;
use crate::wire::parameters::Parameters;
use crate::wire::parameter::Parameter;
use crate::wire::tuple::field_ser;
use crate::wire::tuple::lemma_tuple_roundtrip;
use crate::wire::tuple::parse_tuple;
use crate::wire::tuple::read_tuple;
use crate::wire::tuple::tuple_bytes;
use crate::wire::tuple::tuple_encodable;
use crate::wire::tuple::write_tuple;
use crate::wire::varint::holds_at;
use crate::wire::varint::lemma_holds_at_split;
use crate::wire::varint::lemma_lp_bytes_roundtrip;
use crate::wire::varint::lemma_parse_varint_roundtrip;
use crate::wire::varint::lemma_u8_roundtrip;
use crate::wire::varint::lemma_varint_bytes_len;
use crate::wire::varint::lp_bytes;
use crate::wire::varint::varint_len;
use crate::wire::varint::parse_lp_bytes;
use crate::wire::varint::parse_u8;
use crate::wire::varint::parse_varint;
use crate::wire::varint::varint_bytes;
use crate::wire::varint::MAX_VAR_INT;
use crate::wire::version_known;
use crate::wire::version_until_10;
use crate::wire::version_until_11;
use crate::wire::RequestId;
use crate::wire::TrackAlias;
use crate::wire::Version;
use crate::wire::ABSOLUTE_RANGE_FILTER_ID;
use crate::wire::ABSOLUTE_START_FILTER_ID;
use crate::wire::LARGEST_OBJECT_FILTER_ID;
use crate::wire::MAX_FULL_TRACK_NAME_LEN;
use crate::wire::MAX_TRACK_NAMESPACE_TUPLE_LENGTH;
use crate::wire::MIN_TRACK_NAMESPACE_TUPLE_LENGTH;
use crate::wire::NEXT_GROUP_START_FILTER_ID;
use crate::wire::SUBSCRIBE_CONTROL_MESSAGE_ID;
use vstd::prelude::*;

verus! {

/// Which objects a subscription starts and ends with.
#[derive(Debug, Clone, Copy, PartialEq, Eq, Structural)]
pub enum FilterType {
    LargestObject,
    NextGroupStart,
    AbsoluteStart,
    AbsoluteRange,
}

/// The number that stands for a filter type.
pub open spec fn filter_id(f: FilterType) -> u64 {
    match f {
        FilterType::NextGroupStart => NEXT_GROUP_START_FILTER_ID,
        FilterType::LargestObject => LARGEST_OBJECT_FILTER_ID,
        FilterType::AbsoluteStart => ABSOLUTE_START_FILTER_ID,
        FilterType::AbsoluteRange => ABSOLUTE_RANGE_FILTER_ID,
    }
}

/// The filter type that a number stands for, where it stands for one.
pub open spec fn filter_of_id(v: u64) -> Option<FilterType> {
    if v == NEXT_GROUP_START_FILTER_ID {
        Some(FilterType::NextGroupStart)
    } else if v == LARGEST_OBJECT_FILTER_ID {
        Some(FilterType::LargestObject)
    } else if v == ABSOLUTE_START_FILTER_ID {
        Some(FilterType::AbsoluteStart)
    } else if v == ABSOLUTE_RANGE_FILTER_ID {
        Some(FilterType::AbsoluteRange)
    } else {
        None
    }
}

/// A start location follows the filter type.
pub open spec fn filter_has_start(f: FilterType) -> bool {
    f == FilterType::AbsoluteStart || f == FilterType::AbsoluteRange
}

/// An end group follows the start location.
pub open spec fn filter_has_end(f: FilterType) -> bool {
    f == FilterType::AbsoluteRange
}

/// Reading a filter type: a variable-length integer that stands for one.
pub open spec fn parse_filter_type(bytes: Seq<u8>, off: int) -> Parsed<FilterType> {
    match parse_varint(bytes, off) {
        Err(f) => Err(f),
        Ok((v, o)) => match filter_of_id(v) {
            Some(t) => Ok((t, o)),
            None => Err(Fault::Violation),
        },
    }
}

impl FilterType {
    pub fn has_start_location(&self) -> (r: bool)
        ensures
            r == filter_has_start(*self),
    {
        match self {
            FilterType::LargestObject => false,
            FilterType::NextGroupStart => false,
            FilterType::AbsoluteStart => true,
            FilterType::AbsoluteRange => true,
        }
    }

    pub fn has_end_group(&self) -> (r: bool)
        ensures
            r == filter_has_end(*self),
    {
        match self {
            FilterType::LargestObject => false,
            FilterType::NextGroupStart => false,
            FilterType::AbsoluteStart => false,
            FilterType::AbsoluteRange => true,
        }
    }

    pub fn to_id(&self) -> (r: u64)
        ensures
            r == filter_id(*self),
            r <= 4,
            filter_of_id(r) == Some(*self),
    {
        match self {
            FilterType::NextGroupStart => NEXT_GROUP_START_FILTER_ID,
            FilterType::LargestObject => LARGEST_OBJECT_FILTER_ID,
            FilterType::AbsoluteStart => ABSOLUTE_START_FILTER_ID,
            FilterType::AbsoluteRange => ABSOLUTE_RANGE_FILTER_ID,
        }
    }

    pub fn from_bytes(b: &mut Reader, version: Version) -> (r: Result<Self>)
        ensures
            reads(*old(b), *final(b), r, parse_filter_type(old(b).bytes(), old(b).pos())),
    {
        let ty = b.get_varint()?;
        if ty == NEXT_GROUP_START_FILTER_ID {
            Ok(Self::NextGroupStart)
        } else if ty == LARGEST_OBJECT_FILTER_ID {
            Ok(Self::LargestObject)
        } else if ty == ABSOLUTE_START_FILTER_ID {
            Ok(Self::AbsoluteStart)
        } else if ty == ABSOLUTE_RANGE_FILTER_ID {
            Ok(Self::AbsoluteRange)
        } else {
            Err(Error::violation("unexpected filter type"))
        }
    }

    pub fn to_bytes(&self, b: &mut Writer, version: Version) -> (r: Result<()>)
        ensures
            wrote(*old(b), *final(b), r, varint_bytes(filter_id(*self))),
    {
        b.put_varint(self.to_id())
    }
}

#[derive(Debug, PartialEq, Eq)]
pub struct SubscribeMessage {
    pub request_id: RequestId,
    /// Set on drafts 07 to 11.
    pub track_alias: Option<TrackAlias>,
    pub track_namespace: Vec<Vec<u8>>,
    pub track_name: Vec<u8>,
    pub subscriber_priority: u8,
    pub group_order: u8,
    /// Set on drafts 11 to 13.
    pub forward: Option<u8>,
    pub filter_type: FilterType,
    pub start_location: Option<Location>,
    pub end_group: Option<u64>,
    pub parameters: Parameters,
}

/// What a SUBSCRIBE is in contracts.
pub struct SubscribeView {
    pub request_id: RequestId,
    pub track_alias: Option<TrackAlias>,
    pub track_namespace: Seq<Seq<u8>>,
    pub track_name: Seq<u8>,
    pub subscriber_priority: u8,
    pub group_order: u8,
    pub forward: Option<u8>,
    pub filter_type: FilterType,
    pub start_location: Option<Location>,
    pub end_group: Option<u64>,
    pub parameters: Seq<PairView>,
}

impl View for SubscribeMessage {
    type V = SubscribeView;

    open spec fn view(&self) -> SubscribeView {
        SubscribeView {
            request_id: self.request_id,
            track_alias: self.track_alias,
            track_namespace: views(self.track_namespace@),
            track_name: self.track_name@,
            subscriber_priority: self.subscriber_priority,
            group_order: self.group_order,
            forward: self.forward,
            filter_type: self.filter_type,
            start_location: self.start_location,
            end_group: self.end_group,
            parameters: self.parameters@,
        }
    }
}

/// The lengths of the fields of a namespace, summed.
pub open spec fn namespace_len(ns: Seq<Seq<u8>>) -> nat
    decreases ns.len(),
{
    if ns.len() == 0 {
        0
    } else {
        namespace_len(ns.drop_last()) + ns.last().len()
    }
}

/// The length of the full name of a track: its namespace and its name.
pub open spec fn full_track_name_len(m: SubscribeView) -> nat {
    namespace_len(m.track_namespace) + m.track_name.len()
}

/// The namespace has 1 to 32 fields and the full name of the track has no
/// more than 4096 bytes.
pub open spec fn track_name_valid(m: SubscribeView) -> bool {
    &&& MIN_TRACK_NAMESPACE_TUPLE_LENGTH <= m.track_namespace.len()
        <= MAX_TRACK_NAMESPACE_TUPLE_LENGTH
    &&& full_track_name_len(m) <= MAX_FULL_TRACK_NAME_LEN
}

/// The fields that make up the first half of a SUBSCRIBE: who asks for what.
pub struct SubscribeNames {
    pub request_id: RequestId,
    pub track_alias: Option<TrackAlias>,
    pub track_namespace: Seq<Seq<u8>>,
    pub track_name: Seq<u8>,
}

/// Reading the first half of a SUBSCRIBE: the request id, the track alias
/// on drafts 07 to 11, the namespace, the name.
pub open spec fn parse_subscribe_names(bytes: Seq<u8>, off: int, version: Version) -> Parsed<
    SubscribeNames,
> {
    match parse_varint(bytes, off) {
        Err(f) => Err(f),
        Ok((request_id, o1)) => match parse_optional_varint(bytes, o1, version_until_11(version)) {
            Err(f) => Err(f),
            Ok((track_alias, o2)) => match parse_tuple(bytes, o2) {
                Err(f) => Err(f),
                Ok((track_namespace, o3)) => match parse_lp_bytes(bytes, o3) {
                    Err(f) => Err(f),
                    Ok((track_name, o4)) => Ok(
                        (SubscribeNames { request_id, track_alias, track_namespace, track_name }, o4),
                    ),
                },
            },
        },
    }
}

/// The fields that make up the second half of a SUBSCRIBE: how to deliver.
pub struct SubscribeTerms {
    pub subscriber_priority: u8,
    pub group_order: u8,
    pub forward: Option<u8>,
    pub filter_type: FilterType,
    pub start_location: Option<Location>,
    pub end_group: Option<u64>,
}

/// Reading the second half of a SUBSCRIBE: the priority, the group order,
/// the forward flag on drafts 11 to 13, the filter type, and the start
/// location and the end group where the filter type has them.
pub open spec fn parse_subscribe_terms(bytes: Seq<u8>, off: int, version: Version) -> Parsed<
    SubscribeTerms,
> {
    match parse_u8(bytes, off) {
        Err(f) => Err(f),
        Ok((subscriber_priority, o1)) => match parse_u8(bytes, o1) {
            Err(f) => Err(f),
            Ok((group_order, o2)) => match parse_optional_u8(
                bytes,
                o2,
                !version_until_10(version),
            ) {
                Err(f) => Err(f),
                Ok((forward, o3)) => match parse_filter_type(bytes, o3) {
                    Err(f) => Err(f),
                    Ok((filter_type, o4)) => match parse_optional_location(
                        bytes,
                        o4,
                        filter_has_start(filter_type),
                    ) {
                        Err(f) => Err(f),
                        Ok((start_location, o5)) => match parse_optional_varint(
                            bytes,
                            o5,
                            filter_has_end(filter_type),
                        ) {
                            Err(f) => Err(f),
                            Ok((end_group, o6)) => Ok(
                                (
                                    SubscribeTerms {
                                        subscriber_priority,
                                        group_order,
                                        forward,
                                        filter_type,
                                        start_location,
                                        end_group,
                                    },
                                    o6,
                                ),
                            ),
                        },
                    },
                },
            },
        },
    }
}

/// Reading a SUBSCRIBE: the header, the two halves, the parameters.
pub open spec fn parse_subscribe(bytes: Seq<u8>, off: int, version: Version) -> Parsed<
    SubscribeView,
> {
    match parse_header_of(bytes, off, version, SUBSCRIBE_CONTROL_MESSAGE_ID) {
        Err(f) => Err(f),
        Ok((_, o0)) => match parse_subscribe_names(bytes, o0, version) {
            Err(f) => Err(f),
            Ok((n, o1)) => match parse_subscribe_terms(bytes, o1, version) {
                Err(f) => Err(f),
                Ok((t, o2)) => match parse_parameters(bytes, o2, version) {
                    Err(f) => Err(f),
                    Ok((parameters, o3)) => Ok(
                        (
                            SubscribeView {
                                request_id: n.request_id,
                                track_alias: n.track_alias,
                                track_namespace: n.track_namespace,
                                track_name: n.track_name,
                                subscriber_priority: t.subscriber_priority,
                                group_order: t.group_order,
                                forward: t.forward,
                                filter_type: t.filter_type,
                                start_location: t.start_location,
                                end_group: t.end_group,
                                parameters,
                            },
                            o3,
                        ),
                    ),
                },
            },
        },
    }
}

/// The bytes of the first half of a SUBSCRIBE.
pub open spec fn subscribe_names_bytes(m: SubscribeView, version: Version) -> Seq<u8> {
    varint_bytes(m.request_id) + optional_varint_bytes(
        only_if(version_until_11(version), m.track_alias),
    ) + tuple_bytes(m.track_namespace) + lp_bytes(m.track_name)
}

/// The bytes of the second half of a SUBSCRIBE.
pub open spec fn subscribe_terms_bytes(m: SubscribeView, version: Version) -> Seq<u8> {
    seq![m.subscriber_priority] + seq![m.group_order] + optional_u8_bytes(
        only_if(!version_until_10(version), m.forward),
    ) + varint_bytes(filter_id(m.filter_type)) + optional_location_bytes(
        only_if(filter_has_start(m.filter_type), m.start_location),
    ) + optional_varint_bytes(only_if(filter_has_end(m.filter_type), m.end_group))
}

/// The bytes of the payload of a SUBSCRIBE.
pub open spec fn subscribe_payload(m: SubscribeView, version: Version) -> Seq<u8> {
    subscribe_names_bytes(m, version) + subscribe_terms_bytes(m, version) + parameters_bytes(
        m.parameters,
        version,
    )
}

/// The message holds the fields that the draft and its filter type ask for,
/// and its integers and lengths fit 62 bits.
pub open spec fn subscribe_encodable(m: SubscribeView, version: Version) -> bool {
    &&& m.request_id <= MAX_VAR_INT
    &&& version_until_11(version) ==> m.track_alias is Some
    &&& m.track_alias matches Some(a) ==> a <= MAX_VAR_INT
    &&& tuple_encodable(m.track_namespace)
    &&& m.track_name.len() <= MAX_VAR_INT
    &&& !version_until_10(version) ==> m.forward is Some
    &&& filter_has_start(m.filter_type) ==> m.start_location is Some
    &&& m.start_location matches Some(l) ==> location_encodable(l)
    &&& filter_has_end(m.filter_type) ==> m.end_group is Some
    &&& m.end_group matches Some(g) ==> g <= MAX_VAR_INT
    &&& parameters_encodable(m.parameters, version)
}

impl SubscribeMessage {
    /// The length of the full name of the track, its namespace and its name
    /// together; the largest number that fits where the sum does not.
    pub fn full_track_name_len(&self) -> (r: usize)
        ensures
            r == if full_track_name_len(self@) <= usize::MAX {
                full_track_name_len(self@)
            } else {
                usize::MAX as nat
            },
    {
        let ghost ns = views(self.track_namespace@);
        let mut total: usize = 0;
        let mut i: usize = 0;
        assert(ns.take(0) =~= Seq::<Seq<u8>>::empty());
        while i < self.track_namespace.len()
            invariant
                i <= self.track_namespace@.len(),
                ns == views(self.track_namespace@),
                total == if namespace_len(ns.take(i as int)) <= usize::MAX {
                    namespace_len(ns.take(i as int))
                } else {
                    usize::MAX as nat
                },
            decreases self.track_namespace@.len() - i,
        {
            proof {
                assert(ns.take(i + 1).drop_last() =~= ns.take(i as int));
                assert(ns.take(i + 1).last() == self.track_namespace@[i as int]@);
            }
            total = total.saturating_add(self.track_namespace[i].len());
            i += 1;
        }
        assert(ns.take(i as int) =~= ns);
        total.saturating_add(self.track_name.len())
    }

    /// Holds the name of the track to the limits of the protocol.
    pub fn validate(&self) -> (r: Result<()>)
        ensures
            r is Ok <==> track_name_valid(self@),
            r is Err ==> r->Err_0.fault() == Fault::Violation,
    {
        let n = self.track_namespace.len();
        if n < MIN_TRACK_NAMESPACE_TUPLE_LENGTH || n > MAX_TRACK_NAMESPACE_TUPLE_LENGTH {
            return Err(Error::violation("Namespace tuple MUST be between 1 and 32"));
        }
        if self.full_track_name_len() > MAX_FULL_TRACK_NAME_LEN {
            return Err(Error::violation("Full track name MUST not exceed 4096 bytes"));
        }
        Ok(())
    }
}

impl FromBytes for SubscribeMessage {
    open spec fn parse(bytes: Seq<u8>, off: int, version: Version) -> Parsed<SubscribeView> {
        parse_subscribe(bytes, off, version)
    }

    fn from_bytes(b: &mut Reader, version: Version) -> (r: Result<Self>) {
        proof {
            let _ = Self::parse(b.bytes(), b.pos(), version);
        }
        let _header = read_header_of(b, version, SUBSCRIBE_CONTROL_MESSAGE_ID)?;
        let request_id = b.get_varint()?;
        let track_alias = get_optional_varint(b, is_version_until_11(version))?;
        let track_namespace = read_tuple(b)?;
        let track_name = b.get_bytes_with_varint_length()?;
        let subscriber_priority = b.get_u8()?;
        let group_order = b.get_u8()?;
        let forward = get_optional_u8(b, !is_version_until_10(version))?;
        let filter_type = FilterType::from_bytes(b, version)?;
        let start_location = get_optional_location(b, filter_type.has_start_location())?;
        let end_group = get_optional_varint(b, filter_type.has_end_group())?;
        let parameters = Parameters::from_bytes(b, version)?;
        Ok(
            Self {
                request_id,
                track_alias,
                track_namespace,
                track_name,
                subscriber_priority,
                group_order,
                forward,
                filter_type,
                start_location,
                end_group,
                parameters,
            },
        )
    }
}

impl SubscribeMessage {
    /// Writes the first half of the payload.
    fn write_names(&self, b: &mut Writer, version: Version) -> (r: Result<()>)
        requires
            version_known(version),
            subscribe_encodable(self@, version),
        ensures
            encoded(*old(b), *final(b), r, false, false, subscribe_names_bytes(self@, version)),
    {
        let ghost m = self@;
        let ghost s0 = varint_bytes(m.request_id);
        let ghost s1 = optional_varint_bytes(only_if(version_until_11(version), m.track_alias));
        let ghost s2 = tuple_bytes(m.track_namespace);
        let ghost s3 = lp_bytes(m.track_name);
        let ghost whole = subscribe_names_bytes(m, version);

        let r = b.put_varint(self.request_id);
        proof {
            lemma_encoded_first(*old(b), *b, r, s0, whole, false);
        }
        r?;

        let ghost w = *b;
        let alias = if is_version_until_11(version) {
            self.track_alias
        } else {
            None
        };
        let r = put_optional_varint(b, alias);
        proof {
            lemma_encoded_step(*old(b), w, *b, r, s0, s1, whole, false);
        }
        r?;

        let ghost w = *b;
        let r = write_tuple(&self.track_namespace, b);
        proof {
            lemma_encoded_step(*old(b), w, *b, r, s0 + s1, s2, whole, false);
        }
        r?;

        let ghost w = *b;
        let r = b.put_bytes_with_varint_length(self.track_name.as_slice());
        proof {
            lemma_encoded_step(*old(b), w, *b, r, s0 + s1 + s2, s3, whole, false);
        }
        r?;
        Ok(())
    }

    /// Writes the second half of the payload.
    fn write_terms(&self, b: &mut Writer, version: Version) -> (r: Result<()>)
        requires
            version_known(version),
            subscribe_encodable(self@, version),
        ensures
            encoded(*old(b), *final(b), r, false, false, subscribe_terms_bytes(self@, version)),
    {
        let ghost m = self@;
        let ghost s0 = seq![m.subscriber_priority];
        let ghost s1 = seq![m.group_order];
        let ghost s2 = optional_u8_bytes(only_if(!version_until_10(version), m.forward));
        let ghost s3 = varint_bytes(filter_id(m.filter_type));
        let ghost s4 = optional_location_bytes(
            only_if(filter_has_start(m.filter_type), m.start_location),
        );
        let ghost s5 = optional_varint_bytes(only_if(filter_has_end(m.filter_type), m.end_group));
        let ghost whole = subscribe_terms_bytes(m, version);

        let r = b.put_u8(self.subscriber_priority);
        proof {
            lemma_encoded_first(*old(b), *b, r, s0, whole, false);
        }
        r?;

        let ghost w = *b;
        let r = b.put_u8(self.group_order);
        proof {
            lemma_encoded_step(*old(b), w, *b, r, s0, s1, whole, false);
        }
        r?;

        let ghost w = *b;
        let forward = if is_version_until_10(version) {
            None
        } else {
            self.forward
        };
        let r = put_optional_u8(b, forward);
        proof {
            lemma_encoded_step(*old(b), w, *b, r, s0 + s1, s2, whole, false);
        }
        r?;

        let ghost w = *b;
        let r = self.filter_type.to_bytes(b, version);
        proof {
            lemma_encoded_step(*old(b), w, *b, r, s0 + s1 + s2, s3, whole, false);
        }
        r?;

        let ghost w = *b;
        let start = if self.filter_type.has_start_location() {
            self.start_location
        } else {
            None
        };
        let r = put_optional_location(b, start);
        proof {
            lemma_encoded_step(*old(b), w, *b, r, s0 + s1 + s2 + s3, s4, whole, false);
        }
        r?;

        let ghost w = *b;
        let end = if self.filter_type.has_end_group() {
            self.end_group
        } else {
            None
        };
        let r = put_optional_varint(b, end);
        proof {
            lemma_encoded_step(*old(b), w, *b, r, s0 + s1 + s2 + s3 + s4, s5, whole, false);
        }
        r?;
        Ok(())
    }
}

impl Payload for SubscribeMessage {
    open spec fn message_type(version: Version) -> u64 {
        SUBSCRIBE_CONTROL_MESSAGE_ID
    }

    open spec fn payload_encodable(v: SubscribeView, version: Version) -> bool {
        subscribe_encodable(v, version)
    }

    open spec fn payload_bytes(v: SubscribeView, version: Version) -> Seq<u8> {
        subscribe_payload(v, version)
    }

    fn type_id(version: Version) -> (r: u64) {
        proof {
            let _ = Self::message_type(version);
        }
        SUBSCRIBE_CONTROL_MESSAGE_ID
    }

    fn write_payload(&self, b: &mut Writer, version: Version) -> (r: Result<()>) {
        proof {
            let _ = Self::payload_encodable(self@, version);
            let _ = Self::payload_bytes(self@, version);
        }
        let ghost m = self@;
        let ghost s0 = subscribe_names_bytes(m, version);
        let ghost s1 = subscribe_terms_bytes(m, version);
        let ghost s2 = parameters_bytes(m.parameters, version);
        let ghost whole = subscribe_payload(m, version);

        let r = self.write_names(b, version);
        proof {
            lemma_encoded_first(*old(b), *b, r, s0, whole, false);
        }
        r?;

        let ghost w = *b;
        let r = self.write_terms(b, version);
        proof {
            lemma_encoded_step(*old(b), w, *b, r, s0, s1, whole, false);
        }
        r?;

        let ghost w = *b;
        let r = self.parameters.to_bytes(b, version);
        proof {
            lemma_encoded_step(*old(b), w, *b, r, s0 + s1, s2, whole, false);
        }
        r?;
        Ok(())
    }
}

impl ToBytes for SubscribeMessage {
    open spec fn encodable(v: SubscribeView, version: Version) -> bool {
        subscribe_encodable(v, version)
    }

    open spec fn invalid(v: SubscribeView, version: Version) -> bool {
        !track_name_valid(v)
    }

    open spec fn too_long(v: SubscribeView, version: Version) -> bool {
        message_too_long::<SubscribeMessage>(v, version)
    }

    open spec fn serialized(v: SubscribeView, version: Version) -> Seq<u8> {
        message_bytes::<SubscribeMessage>(v, version)
    }

    fn to_bytes(&self, b: &mut Writer, version: Version) -> (r: Result<()>) {
        proof {
            let _ = Self::encodable(self@, version);
            let _ = Self::invalid(self@, version);
            let _ = Self::too_long(self@, version);
            let _ = Self::serialized(self@, version);
        }
        match self.validate() {
            Ok(()) => {},
            Err(e) => {
                let _end = b.off();
                assert(b.written().subrange(0, b.written().len() as int) =~= b.written());
                return Err(e);
            },
        }
        write_framed(self, b, version)
    }
}

/// The message is one that reading can yield on the given draft: it holds
/// the fields that the draft and its filter type ask for, and no others.
pub open spec fn subscribe_canonical(m: SubscribeView, version: Version) -> bool {
    &&& subscribe_encodable(m, version)
    &&& m.track_alias is Some <==> version_until_11(version)
    &&& m.forward is Some <==> !version_until_10(version)
    &&& m.start_location is Some <==> filter_has_start(m.filter_type)
    &&& m.end_group is Some <==> filter_has_end(m.filter_type)
    &&& parameters_canonical(m.parameters, version)
}

/// The first half of a SUBSCRIBE that was written reads back as it was.
pub proof fn lemma_subscribe_names_roundtrip(
    bytes: Seq<u8>,
    off: int,
    m: SubscribeView,
    version: Version,
)
    requires
        subscribe_canonical(m, version),
        holds_at(bytes, off, subscribe_names_bytes(m, version)),
    ensures
        parse_subscribe_names(bytes, off, version) == Ok::<(SubscribeNames, int), Fault>(
            (
                SubscribeNames {
                    request_id: m.request_id,
                    track_alias: m.track_alias,
                    track_namespace: m.track_namespace,
                    track_name: m.track_name,
                },
                off + subscribe_names_bytes(m, version).len(),
            ),
        ),
{
    let s0 = varint_bytes(m.request_id);
    let s1 = optional_varint_bytes(only_if(version_until_11(version), m.track_alias));
    let s2 = tuple_bytes(m.track_namespace);
    let s3 = lp_bytes(m.track_name);
    lemma_holds_at_split(bytes, off, s0 + s1 + s2, s3);
    lemma_holds_at_split(bytes, off, s0 + s1, s2);
    lemma_holds_at_split(bytes, off, s0, s1);
    lemma_parse_varint_roundtrip(bytes, off, m.request_id);
    let o1 = off + s0.len();
    lemma_optional_varint_roundtrip(bytes, o1, version_until_11(version), m.track_alias);
    let o2 = o1 + s1.len();
    lemma_tuple_roundtrip(bytes, o2, m.track_namespace);
    let o3 = o2 + s2.len();
    lemma_lp_bytes_roundtrip(bytes, o3, m.track_name);
}

/// The second half of a SUBSCRIBE that was written reads back as it was.
pub proof fn lemma_subscribe_terms_roundtrip(
    bytes: Seq<u8>,
    off: int,
    m: SubscribeView,
    version: Version,
)
    requires
        subscribe_canonical(m, version),
        holds_at(bytes, off, subscribe_terms_bytes(m, version)),
    ensures
        parse_subscribe_terms(bytes, off, version) == Ok::<(SubscribeTerms, int), Fault>(
            (
                SubscribeTerms {
                    subscriber_priority: m.subscriber_priority,
                    group_order: m.group_order,
                    forward: m.forward,
                    filter_type: m.filter_type,
                    start_location: m.start_location,
                    end_group: m.end_group,
                },
                off + subscribe_terms_bytes(m, version).len(),
            ),
        ),
{
    let s0 = seq![m.subscriber_priority];
    let s1 = seq![m.group_order];
    let s2 = optional_u8_bytes(only_if(!version_until_10(version), m.forward));
    let s3 = varint_bytes(filter_id(m.filter_type));
    let s4 = optional_location_bytes(only_if(filter_has_start(m.filter_type), m.start_location));
    let s5 = optional_varint_bytes(only_if(filter_has_end(m.filter_type), m.end_group));
    lemma_holds_at_split(bytes, off, s0 + s1 + s2 + s3 + s4, s5);
    lemma_holds_at_split(bytes, off, s0 + s1 + s2 + s3, s4);
    lemma_holds_at_split(bytes, off, s0 + s1 + s2, s3);
    lemma_holds_at_split(bytes, off, s0 + s1, s2);
    lemma_holds_at_split(bytes, off, s0, s1);
    lemma_u8_roundtrip(bytes, off, m.subscriber_priority);
    lemma_u8_roundtrip(bytes, off + 1, m.group_order);
    lemma_optional_u8_roundtrip(bytes, off + 2, !version_until_10(version), m.forward);
    let o3 = off + 2 + s2.len();
    lemma_parse_varint_roundtrip(bytes, o3, filter_id(m.filter_type));
    let o4 = o3 + s3.len();
    lemma_optional_location_roundtrip(
        bytes,
        o4,
        filter_has_start(m.filter_type),
        m.start_location,
    );
    let o5 = o4 + s4.len();
    lemma_optional_varint_roundtrip(bytes, o5, filter_has_end(m.filter_type), m.end_group);
}

/// A SUBSCRIBE that reading can yield, once written, reads back as it was.
pub proof fn lemma_subscribe_roundtrip(bytes: Seq<u8>, off: int, m: SubscribeView, version: Version)
    requires
        subscribe_canonical(m, version),
        !message_too_long::<SubscribeMessage>(m, version),
        holds_at(bytes, off, message_bytes::<SubscribeMessage>(m, version)),
    ensures
        parse_subscribe(bytes, off, version) == Ok::<(SubscribeView, int), Fault>(
            (m, off + message_bytes::<SubscribeMessage>(m, version).len()),
        ),
{
    let payload = subscribe_payload(m, version);
    assert(SubscribeMessage::payload_bytes(m, version) == payload);
    assert(SubscribeMessage::message_type(version) == SUBSCRIBE_CONTROL_MESSAGE_ID);
    lemma_frame_roundtrip(bytes, off, SUBSCRIBE_CONTROL_MESSAGE_ID, payload, version);
    let o0 = off + varint_len(SUBSCRIBE_CONTROL_MESSAGE_ID) + 2;
    let s0 = subscribe_names_bytes(m, version);
    let s1 = subscribe_terms_bytes(m, version);
    let s2 = parameters_bytes(m.parameters, version);
    lemma_holds_at_split(bytes, o0, s0 + s1, s2);
    lemma_holds_at_split(bytes, o0, s0, s1);
    lemma_subscribe_names_roundtrip(bytes, o0, m, version);
    lemma_subscribe_terms_roundtrip(bytes, o0 + s0.len(), m, version);
    lemma_parameters_roundtrip(bytes, o0 + s0.len() + s1.len(), m.parameters, version);
}

/// No field of a namespace is longer than all of them together.
pub proof fn lemma_namespace_len_bounds(ns: Seq<Seq<u8>>, i: int)
    requires
        0 <= i < ns.len(),
    ensures
        ns[i].len() <= namespace_len(ns),
    decreases ns.len(),
{
    if i < ns.len() - 1 {
        lemma_namespace_len_bounds(ns.drop_last(), i);
    }
}

/// A namespace and a name within the limits of the protocol can be written.
pub proof fn lemma_valid_name_encodable(m: SubscribeView)
    requires
        track_name_valid(m),
    ensures
        tuple_encodable(m.track_namespace),
        m.track_name.len() <= MAX_VAR_INT,
{
    assert forall|i: int| 0 <= i < m.track_namespace.len() implies (
    #[trigger] m.track_namespace[i]).len() <= MAX_VAR_INT by {
        lemma_namespace_len_bounds(m.track_namespace, i);
    }
}

/// A variable-length integer takes no more than eight bytes.
pub proof fn lemma_varint_bytes_short(v: u64)
    ensures
        varint_bytes(v).len() <= 8,
{
    lemma_varint_bytes_len(v, varint_len(v));
}

/// The fields of a namespace take their own bytes and no more than eight
/// bytes each for their lengths.
pub proof fn lemma_namespace_bytes_len(ns: Seq<Seq<u8>>)
    ensures
        repeat_bytes(field_ser(), ns).len() <= 8 * ns.len() + namespace_len(ns),
    decreases ns.len(),
{
    if ns.len() > 0 {
        lemma_namespace_bytes_len(ns.drop_last());
        lemma_varint_bytes_short(ns.last().len() as u64);
        assert(field_ser()(ns.last()) == lp_bytes(ns.last()));
    }
}

/// A SUBSCRIBE whose track name is within the limits of the protocol fits
/// its frame on every draft: its payload is no longer than the full name
/// of the track and 350 bytes more, where it has no parameters.
pub proof fn lemma_valid_subscribe_fits(m: SubscribeView, version: Version)
    requires
        track_name_valid(m),
        m.parameters.len() == 0,
    ensures
        subscribe_payload(m, version).len() <= full_track_name_len(m) + 350,
        !message_too_long::<SubscribeMessage>(m, version),
{
    lemma_varint_bytes_short(m.request_id);
    if m.track_alias is Some {
        lemma_varint_bytes_short(m.track_alias->Some_0);
    }
    lemma_varint_bytes_short(m.track_namespace.len() as u64);
    lemma_namespace_bytes_len(m.track_namespace);
    lemma_varint_bytes_short(m.track_name.len() as u64);
    lemma_varint_bytes_short(filter_id(m.filter_type));
    if m.start_location is Some {
        lemma_varint_bytes_short(m.start_location->Some_0.group);
        lemma_varint_bytes_short(m.start_location->Some_0.object);
    }
    if m.end_group is Some {
        lemma_varint_bytes_short(m.end_group->Some_0);
    }
    lemma_varint_bytes_short(0);
    assert(m.parameters =~= Seq::<PairView>::empty());
    assert(repeat_bytes(item_ser::<Parameter>(version), m.parameters).len() == 0);
    assert(SubscribeMessage::payload_bytes(m, version) == subscribe_payload(m, version));
}

} // verus!
