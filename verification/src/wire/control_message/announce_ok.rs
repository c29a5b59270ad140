//! ANNOUNCE_OK: the answer to an ANNOUNCE. It names the announcement by its
//! namespace on drafts 07 to 10 and by its request id on drafts 11 to 13, and
//! ends with the draft.

use super::encode_control_message;
use super::framed;
use super::lemma_frame_roundtrip;
use super::max_payload_len;
use super::parse_header_with_payload;
use super::read_header_with_payload;
use crate::wire::bytes::encoded;
use crate::wire::bytes::lemma_encoded_first;
use crate::wire::bytes::lemma_encoded_step;
use crate::wire::bytes::FromBytes;
use crate::wire::bytes::ToBytes;
use crate::wire::error::Error;
use crate::wire::error::Fault;
use crate::wire::error::Parsed;
use crate::wire::error::Result;
use crate::wire::is_version_until_10;
use crate::wire::namespace::Namespace;
use crate::wire::octets::Reader;
use crate::wire::octets::Writer;
use crate::wire::tuple::lemma_tuple_roundtrip;
use crate::wire::tuple::parse_tuple;
use crate::wire::tuple::tuple_bytes;
use crate::wire::tuple::tuple_encodable;
use crate::wire::varint::holds_at;
use crate::wire::varint::lemma_holds_at_split;
use crate::wire::varint::lemma_parse_varint_roundtrip;
use crate::wire::varint::parse_varint;
use crate::wire::varint::varint_len;
use crate::wire::varint::varint_bytes;
use crate::wire::varint::MAX_VAR_INT;
use crate::wire::version_known;
use crate::wire::version_until_10;
use crate::wire::RequestId;
use crate::wire::Version;
use crate::wire::ANNOUNCE_OK_CONTROL_MESSAGE_ID;
use vstd::prelude::*;

verus! {

#[derive(Debug)]
pub struct AnnounceOkMessage {
    /// Set on drafts 11 to 13.
    pub request_id: Option<RequestId>,
    /// Set on drafts 07 to 10.
    pub track_namespace: Option<Namespace>,
}

/// What an ANNOUNCE_OK is in contracts.
pub struct AnnounceOkView {
    pub request_id: Option<RequestId>,
    pub track_namespace: Option<Seq<Seq<u8>>>,
}

impl View for AnnounceOkMessage {
    type V = AnnounceOkView;

    open spec fn view(&self) -> AnnounceOkView {
        AnnounceOkView {
            request_id: self.request_id,
            track_namespace: match self.track_namespace {
                Some(n) => Some(n@),
                None => None,
            },
        }
    }
}

/// Reading what names the announcement: the namespace on drafts 07 to 10,
/// the request id on drafts 11 to 13.
pub open spec fn parse_announce_ok_name(bytes: Seq<u8>, off: int, version: Version) -> Parsed<
    AnnounceOkView,
> {
    if version_until_10(version) {
        match parse_tuple(bytes, off) {
            Err(f) => Err(f),
            Ok((n, o)) => Ok((AnnounceOkView { request_id: None, track_namespace: Some(n) }, o)),
        }
    } else {
        match parse_varint(bytes, off) {
            Err(f) => Err(f),
            Ok((id, o)) => Ok((AnnounceOkView { request_id: Some(id), track_namespace: None }, o)),
        }
    }
}

/// Reading an ANNOUNCE_OK: the header, then what names the announcement.
/// What the payload holds behind that is passed over.
pub open spec fn parse_announce_ok(bytes: Seq<u8>, off: int, version: Version) -> Parsed<
    AnnounceOkView,
> {
    match parse_header_with_payload(bytes, off, version, ANNOUNCE_OK_CONTROL_MESSAGE_ID) {
        Err(f) => Err(f),
        Ok((h, o0)) => match parse_announce_ok_name(bytes, o0, version) {
            Err(f) => Err(f),
            Ok((m, o1)) => if o1 - o0 <= h.len {
                Ok((m, o0 + h.len))
            } else {
                Err(Fault::Violation)
            },
        },
    }
}

/// The bytes of what names the announcement.
pub open spec fn announce_ok_name_bytes(m: AnnounceOkView, version: Version) -> Seq<u8> {
    if version_until_10(version) {
        match m.track_namespace {
            Some(n) => tuple_bytes(n),
            None => Seq::empty(),
        }
    } else {
        match m.request_id {
            Some(id) => varint_bytes(id),
            None => Seq::empty(),
        }
    }
}

/// The bytes of the payload of an ANNOUNCE_OK.
pub open spec fn announce_ok_payload(m: AnnounceOkView, version: Version) -> Seq<u8> {
    announce_ok_name_bytes(m, version) + varint_bytes(version)
}

/// The message holds the field by which the draft names the announcement.
pub open spec fn announce_ok_encodable(m: AnnounceOkView, version: Version) -> bool {
    if version_until_10(version) {
        m.track_namespace matches Some(n) && tuple_encodable(n)
    } else {
        m.request_id matches Some(id) && id <= MAX_VAR_INT
    }
}

impl AnnounceOkMessage {
    pub fn new(request_id: Option<RequestId>, track_namespace: Option<Namespace>) -> (m: Self)
        ensures
            m.request_id == request_id,
            m.track_namespace == track_namespace,
    {
        AnnounceOkMessage { request_id, track_namespace }
    }

    /// Writes the payload.
    fn write_payload(&self, b: &mut Writer, version: Version) -> (r: Result<()>)
        requires
            version_known(version),
            announce_ok_encodable(self@, version),
        ensures
            encoded(*old(b), *final(b), r, false, false, announce_ok_payload(self@, version)),
    {
        let ghost s0 = announce_ok_name_bytes(self@, version);
        let ghost s1 = varint_bytes(version);
        let ghost whole = announce_ok_payload(self@, version);
        let r = if is_version_until_10(version) {
            match &self.track_namespace {
                Some(n) => n.to_bytes(b, version),
                None => Ok(()),
            }
        } else {
            match self.request_id {
                Some(id) => b.put_varint(id),
                None => Ok(()),
            }
        };
        proof {
            lemma_encoded_first(*old(b), *b, r, s0, whole, false);
        }
        r?;
        let ghost w = *b;
        let r = b.put_varint(version);
        proof {
            lemma_encoded_step(*old(b), w, *b, r, s0, s1, whole, false);
        }
        r?;
        Ok(())
    }
}

impl FromBytes for AnnounceOkMessage {
    open spec fn parse(bytes: Seq<u8>, off: int, version: Version) -> Parsed<AnnounceOkView> {
        parse_announce_ok(bytes, off, version)
    }

    fn from_bytes(b: &mut Reader, version: Version) -> (r: Result<Self>) {
        proof {
            let _ = Self::parse(b.bytes(), b.pos(), version);
        }
        let header = read_header_with_payload(b, version, ANNOUNCE_OK_CONTROL_MESSAGE_ID)?;
        let payload_start = b.off();
        let m = if is_version_until_10(version) {
            let n = Namespace::from_bytes(b, version)?;
            AnnounceOkMessage { request_id: None, track_namespace: Some(n) }
        } else {
            let id = b.get_varint()?;
            AnnounceOkMessage { request_id: Some(id), track_namespace: None }
        };
        let read = (b.off() - payload_start) as u64;
        if read > header.len {
            return Err(Error::violation("announce ok payload length mismatch"));
        }
        assert(header.len - read <= usize::MAX);
        b.skip((header.len - read) as usize)?;
        Ok(m)
    }
}

impl ToBytes for AnnounceOkMessage {
    open spec fn encodable(v: AnnounceOkView, version: Version) -> bool {
        announce_ok_encodable(v, version)
    }

    open spec fn invalid(v: AnnounceOkView, version: Version) -> bool {
        false
    }

    open spec fn too_long(v: AnnounceOkView, version: Version) -> bool {
        announce_ok_payload(v, version).len() > max_payload_len(version)
    }

    open spec fn serialized(v: AnnounceOkView, version: Version) -> Seq<u8> {
        framed(ANNOUNCE_OK_CONTROL_MESSAGE_ID, announce_ok_payload(v, version), version)
    }

    fn to_bytes(&self, b: &mut Writer, version: Version) -> (r: Result<()>) {
        proof {
            let _ = Self::encodable(self@, version);
            let _ = Self::invalid(self@, version);
            let _ = Self::too_long(self@, version);
            let _ = Self::serialized(self@, version);
        }
        let room = b.cap();
        let mut payload = Writer::with_capacity(room);
        match self.write_payload(&mut payload, version) {
            Ok(()) => {},
            Err(e) => {
                assert(b.written().subrange(0, b.written().len() as int) =~= b.written());
                return Err(e);
            },
        }
        assert(payload.written() =~= announce_ok_payload(self@, version));
        encode_control_message(ANNOUNCE_OK_CONTROL_MESSAGE_ID, version, b, payload.as_slice())
    }
}

/// The message is one that reading can yield on the given draft: it names
/// the announcement in the way of the draft and in no other.
pub open spec fn announce_ok_canonical(m: AnnounceOkView, version: Version) -> bool {
    &&& announce_ok_encodable(m, version)
    &&& version_known(version)
    &&& if version_until_10(version) {
        m.request_id is None
    } else {
        m.track_namespace is None
    }
}

/// An ANNOUNCE_OK that reading can yield, once written, reads back as it
/// was.
pub proof fn lemma_announce_ok_roundtrip(
    bytes: Seq<u8>,
    off: int,
    m: AnnounceOkView,
    version: Version,
)
    requires
        announce_ok_canonical(m, version),
        announce_ok_payload(m, version).len() <= max_payload_len(version),
        holds_at(
            bytes,
            off,
            framed(ANNOUNCE_OK_CONTROL_MESSAGE_ID, announce_ok_payload(m, version), version),
        ),
    ensures
        parse_announce_ok(bytes, off, version) == Ok::<(AnnounceOkView, int), Fault>(
            (
                m,
                off + framed(
                    ANNOUNCE_OK_CONTROL_MESSAGE_ID,
                    announce_ok_payload(m, version),
                    version,
                ).len(),
            ),
        ),
{
    let payload = announce_ok_payload(m, version);
    lemma_frame_roundtrip(bytes, off, ANNOUNCE_OK_CONTROL_MESSAGE_ID, payload, version);
    let o0 = off + varint_len(ANNOUNCE_OK_CONTROL_MESSAGE_ID) + 2;
    let s0 = announce_ok_name_bytes(m, version);
    lemma_holds_at_split(bytes, o0, s0, varint_bytes(version));
    if version_until_10(version) {
        lemma_tuple_roundtrip(bytes, o0, m.track_namespace->Some_0);
    } else {
        lemma_parse_varint_roundtrip(bytes, o0, m.request_id->Some_0);
    }
}

} // verus!
