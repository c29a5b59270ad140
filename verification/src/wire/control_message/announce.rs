//! ANNOUNCE: a publisher makes a namespace known.

use super::get_optional_varint;
use super::lemma_frame_roundtrip;
use super::lemma_optional_varint_roundtrip;
use super::message_bytes;
use super::message_too_long;
use super::only_if;
use super::optional_varint_bytes;
use super::parse_header_of;
use super::parse_optional_varint;
use super::put_optional_varint;
use super::read_header_of;
use super::write_framed;
use super::Payload;
use crate::wire::bytes::lemma_encoded_first;
use crate::wire::bytes::lemma_encoded_step;
use crate::wire::bytes::FromBytes;
use crate::wire::bytes::ToBytes;
use crate::wire::error::Error;
use crate::wire::error::Fault;
use crate::wire::error::Parsed;
use crate::wire::error::Result;
use crate::wire::is_version_until_10;
use crate::wire::key_value_pair::PairView;
use crate::wire::namespace::Namespace;
use crate::wire::octets::Reader;
use crate::wire::octets::Writer;
use crate::wire::parameters::lemma_parameters_roundtrip;
use crate::wire::parameters::parameters_bytes;
use crate::wire::parameters::parameters_canonical;
use crate::wire::parameters::parameters_encodable;
use crate::wire::parameters::parse_parameters;
use crate::wire::parameters::Parameters;
use crate::wire::tuple::lemma_tuple_roundtrip;
use crate::wire::tuple::parse_tuple;
use crate::wire::tuple::tuple_bytes;
use crate::wire::tuple::tuple_encodable;
use crate::wire::varint::holds_at;
use crate::wire::varint::lemma_holds_at_split;
use crate::wire::varint::varint_len;
use crate::wire::varint::MAX_VAR_INT;
use crate::wire::version_until_10;
use crate::wire::RequestId;
use crate::wire::Version;
use crate::wire::ANNOUNCE_CONTROL_MESSAGE_ID;
use vstd::prelude::*;

verus! {

#[derive(Debug)]
pub struct AnnounceMessage {
    /// Set on drafts 11 to 13.
    pub request_id: Option<RequestId>,
    pub track_namespace: Namespace,
    pub parameters: Parameters,
}

/// What an ANNOUNCE is in contracts.
pub struct AnnounceView {
    pub request_id: Option<RequestId>,
    pub track_namespace: Seq<Seq<u8>>,
    pub parameters: Seq<PairView>,
}

impl View for AnnounceMessage {
    type V = AnnounceView;

    open spec fn view(&self) -> AnnounceView {
        AnnounceView {
            request_id: self.request_id,
            track_namespace: self.track_namespace@,
            parameters: self.parameters@,
        }
    }
}

/// Reading an ANNOUNCE: the header, the request id on drafts 11 to 13, the
/// namespace, the parameters. The payload must be as long as the header
/// says.
pub open spec fn parse_announce(bytes: Seq<u8>, off: int, version: Version) -> Parsed<
    AnnounceView,
> {
    match parse_header_of(bytes, off, version, ANNOUNCE_CONTROL_MESSAGE_ID) {
        Err(f) => Err(f),
        Ok((h, o0)) => match parse_optional_varint(bytes, o0, !version_until_10(version)) {
            Err(f) => Err(f),
            Ok((request_id, o1)) => match parse_tuple(bytes, o1) {
                Err(f) => Err(f),
                Ok((track_namespace, o2)) => match parse_parameters(bytes, o2, version) {
                    Err(f) => Err(f),
                    Ok((parameters, o3)) => if o3 - o0 == h.len {
                        Ok((AnnounceView { request_id, track_namespace, parameters }, o3))
                    } else {
                        Err(Fault::Violation)
                    },
                },
            },
        },
    }
}

/// The bytes of the payload of an ANNOUNCE.
pub open spec fn announce_payload(m: AnnounceView, version: Version) -> Seq<u8> {
    optional_varint_bytes(only_if(!version_until_10(version), m.request_id)) + tuple_bytes(
        m.track_namespace,
    ) + parameters_bytes(m.parameters, version)
}

pub open spec fn announce_encodable(m: AnnounceView, version: Version) -> bool {
    &&& !version_until_10(version) ==> m.request_id is Some
    &&& m.request_id matches Some(id) ==> id <= MAX_VAR_INT
    &&& tuple_encodable(m.track_namespace)
    &&& parameters_encodable(m.parameters, version)
}

impl AnnounceMessage {
    pub fn new(request_id: Option<RequestId>, track_namespace: Namespace, parameters: Parameters) -> (m:
        Self)
        ensures
            m@ == (AnnounceView {
                request_id,
                track_namespace: track_namespace@,
                parameters: parameters@,
            }),
    {
        Self { request_id, track_namespace, parameters }
    }

    /// Set on drafts 11 to 13.
    pub fn request_id(&self) -> (r: Option<RequestId>)
        ensures
            r == self@.request_id,
    {
        self.request_id
    }
}

impl FromBytes for AnnounceMessage {
    open spec fn parse(bytes: Seq<u8>, off: int, version: Version) -> Parsed<AnnounceView> {
        parse_announce(bytes, off, version)
    }

    fn from_bytes(b: &mut Reader, version: Version) -> (r: Result<Self>) {
        proof {
            let _ = Self::parse(b.bytes(), b.pos(), version);
        }
        let header = read_header_of(b, version, ANNOUNCE_CONTROL_MESSAGE_ID)?;
        let payload_start = b.off();
        let request_id = get_optional_varint(b, !is_version_until_10(version))?;
        let track_namespace = Namespace::from_bytes(b, version)?;
        let parameters = Parameters::from_bytes(b, version)?;
        let payload_end = b.off();
        if (payload_end - payload_start) as u64 != header.len {
            return Err(Error::violation("announce payload length mismatch"));
        }
        Ok(Self { request_id, track_namespace, parameters })
    }
}

impl Payload for AnnounceMessage {
    open spec fn message_type(version: Version) -> u64 {
        ANNOUNCE_CONTROL_MESSAGE_ID
    }

    open spec fn payload_encodable(v: AnnounceView, version: Version) -> bool {
        announce_encodable(v, version)
    }

    open spec fn payload_bytes(v: AnnounceView, version: Version) -> Seq<u8> {
        announce_payload(v, version)
    }

    fn type_id(version: Version) -> (r: u64) {
        proof {
            let _ = Self::message_type(version);
        }
        ANNOUNCE_CONTROL_MESSAGE_ID
    }

    fn write_payload(&self, b: &mut Writer, version: Version) -> (r: Result<()>) {
        proof {
            let _ = Self::payload_encodable(self@, version);
            let _ = Self::payload_bytes(self@, version);
        }
        let ghost m = self@;
        let ghost s0 = optional_varint_bytes(only_if(!version_until_10(version), m.request_id));
        let ghost s1 = tuple_bytes(m.track_namespace);
        let ghost s2 = parameters_bytes(m.parameters, version);
        let ghost whole = announce_payload(m, version);

        let id = if is_version_until_10(version) {
            None
        } else {
            self.request_id
        };
        let r = put_optional_varint(b, id);
        proof {
            lemma_encoded_first(*old(b), *b, r, s0, whole, false);
        }
        r?;

        let ghost w = *b;
        let r = self.track_namespace.to_bytes(b, version);
        proof {
            lemma_encoded_step(*old(b), w, *b, r, s0, s1, whole, false);
        }
        r?;

        let ghost w = *b;
        let r = self.parameters.to_bytes(b, version);
        proof {
            lemma_encoded_step(*old(b), w, *b, r, s0 + s1, s2, whole, false);
        }
        r?;
        Ok(())
    }
}

impl ToBytes for AnnounceMessage {
    open spec fn encodable(v: AnnounceView, version: Version) -> bool {
        announce_encodable(v, version)
    }

    open spec fn invalid(v: AnnounceView, version: Version) -> bool {
        false
    }

    open spec fn too_long(v: AnnounceView, version: Version) -> bool {
        message_too_long::<AnnounceMessage>(v, version)
    }

    open spec fn serialized(v: AnnounceView, version: Version) -> Seq<u8> {
        message_bytes::<AnnounceMessage>(v, version)
    }

    fn to_bytes(&self, b: &mut Writer, version: Version) -> (r: Result<()>) {
        proof {
            let _ = Self::encodable(self@, version);
            let _ = Self::invalid(self@, version);
            let _ = Self::too_long(self@, version);
            let _ = Self::serialized(self@, version);
        }
        write_framed(self, b, version)
    }
}

/// The message is one that reading can yield on the given draft.
pub open spec fn announce_canonical(m: AnnounceView, version: Version) -> bool {
    &&& announce_encodable(m, version)
    &&& m.request_id is Some <==> !version_until_10(version)
    &&& parameters_canonical(m.parameters, version)
}

/// An ANNOUNCE that reading can yield, once written, reads back as it was.
pub proof fn lemma_announce_roundtrip(bytes: Seq<u8>, off: int, m: AnnounceView, version: Version)
    requires
        announce_canonical(m, version),
        !message_too_long::<AnnounceMessage>(m, version),
        holds_at(bytes, off, message_bytes::<AnnounceMessage>(m, version)),
    ensures
        parse_announce(bytes, off, version) == Ok::<(AnnounceView, int), Fault>(
            (m, off + message_bytes::<AnnounceMessage>(m, version).len()),
        ),
{
    let payload = announce_payload(m, version);
    assert(AnnounceMessage::payload_bytes(m, version) == payload);
    assert(AnnounceMessage::message_type(version) == ANNOUNCE_CONTROL_MESSAGE_ID);
    lemma_frame_roundtrip(bytes, off, ANNOUNCE_CONTROL_MESSAGE_ID, payload, version);
    let o0 = off + varint_len(ANNOUNCE_CONTROL_MESSAGE_ID) + 2;
    let s0 = optional_varint_bytes(only_if(!version_until_10(version), m.request_id));
    let s1 = tuple_bytes(m.track_namespace);
    let s2 = parameters_bytes(m.parameters, version);
    lemma_holds_at_split(bytes, o0, s0 + s1, s2);
    lemma_holds_at_split(bytes, o0, s0, s1);
    lemma_optional_varint_roundtrip(bytes, o0, !version_until_10(version), m.request_id);
    lemma_tuple_roundtrip(bytes, o0 + s0.len(), m.track_namespace);
    lemma_parameters_roundtrip(bytes, o0 + s0.len() + s1.len(), m.parameters, version);
}

} // verus!
