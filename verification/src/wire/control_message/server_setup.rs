//! SERVER_SETUP: the answer of a server to CLIENT_SETUP. It picks a draft.

use super::lemma_frame_roundtrip;
use super::message_bytes;
use super::message_too_long;
use super::parse_header_with_payload;
use super::read_header_with_payload;
use super::write_framed;
use super::Payload;
use crate::wire::bytes::lemma_encoded_first;
use crate::wire::bytes::lemma_encoded_step;
use crate::wire::bytes::FromBytes;
use crate::wire::bytes::ToBytes;
use crate::wire::error::Parsed;
use crate::wire::error::Result;
use crate::wire::is_version_until_10;
use crate::wire::octets::Reader;
use crate::wire::octets::Writer;
use crate::wire::setup_parameters::lemma_setup_parameters_roundtrip;
use crate::wire::setup_parameters::parse_setup_parameters;
use crate::wire::setup_parameters::setup_parameters_canonical;
use crate::wire::setup_parameters::setup_parameters_bytes;
use crate::wire::setup_parameters::setup_parameters_encodable;
use crate::wire::setup_parameters::SetupParameters;
use crate::wire::setup_parameters::SetupParametersView;
use crate::wire::error::Fault;
use crate::wire::varint::holds_at;
use crate::wire::varint::lemma_holds_at_split;
use crate::wire::varint::lemma_parse_varint_roundtrip;
use crate::wire::varint::parse_varint;
use crate::wire::varint::varint_len;
use crate::wire::varint::varint_bytes;
use crate::wire::varint::MAX_VAR_INT;
use crate::wire::version_known;
use crate::wire::version_until_10;
use crate::wire::Version;
use crate::wire::SERVER_SETUP_CONTROL_MESSAGE_ID;
use crate::wire::SERVER_SETUP_CONTROL_MESSAGE_ID_VERSION_UNTIL_10;
use vstd::prelude::*;

verus! {

#[derive(Debug, PartialEq, Eq)]
pub struct ServerSetupMessage {
    pub selected_version: Version,
    pub setup_parameters: SetupParameters,
}

/// What a SERVER_SETUP is in contracts.
pub struct ServerSetupView {
    pub selected_version: Version,
    pub setup_parameters: SetupParametersView,
}

impl View for ServerSetupMessage {
    type V = ServerSetupView;

    open spec fn view(&self) -> ServerSetupView {
        ServerSetupView {
            selected_version: self.selected_version,
            setup_parameters: self.setup_parameters@,
        }
    }
}

/// The type of a SERVER_SETUP on the given draft.
pub open spec fn server_setup_type(version: Version) -> u64 {
    if version_until_10(version) {
        SERVER_SETUP_CONTROL_MESSAGE_ID_VERSION_UNTIL_10
    } else {
        SERVER_SETUP_CONTROL_MESSAGE_ID
    }
}

/// Reading a SERVER_SETUP: the header, the draft that was picked, the setup
/// parameters.
pub open spec fn parse_server_setup(bytes: Seq<u8>, off: int, version: Version) -> Parsed<
    ServerSetupView,
> {
    match parse_header_with_payload(bytes, off, version, server_setup_type(version)) {
        Err(f) => Err(f),
        Ok((_, o0)) => match parse_varint(bytes, o0) {
            Err(f) => Err(f),
            Ok((selected_version, o1)) => match parse_setup_parameters(bytes, o1, version) {
                Err(f) => Err(f),
                Ok((setup_parameters, o2)) => Ok(
                    (ServerSetupView { selected_version, setup_parameters }, o2),
                ),
            },
        },
    }
}

/// The bytes of the payload of a SERVER_SETUP.
pub open spec fn server_setup_payload(m: ServerSetupView, version: Version) -> Seq<u8> {
    varint_bytes(m.selected_version) + setup_parameters_bytes(m.setup_parameters, version)
}

pub open spec fn server_setup_encodable(m: ServerSetupView, version: Version) -> bool {
    m.selected_version <= MAX_VAR_INT && setup_parameters_encodable(m.setup_parameters, version)
}

impl ServerSetupMessage {
    pub fn new(selected_version: Version, setup_parameters: SetupParameters) -> (m: Self)
        ensures
            m@ == (ServerSetupView { selected_version, setup_parameters: setup_parameters@ }),
    {
        Self { selected_version, setup_parameters }
    }
}

impl FromBytes for ServerSetupMessage {
    open spec fn parse(bytes: Seq<u8>, off: int, version: Version) -> Parsed<ServerSetupView> {
        parse_server_setup(bytes, off, version)
    }

    fn from_bytes(b: &mut Reader, version: Version) -> (r: Result<Self>) {
        proof {
            let _ = Self::parse(b.bytes(), b.pos(), version);
        }
        let _header = read_header_with_payload(b, version, <Self as Payload>::type_id(version))?;
        let selected_version = b.get_varint()?;
        let setup_parameters = SetupParameters::from_bytes(b, version)?;
        Ok(Self { selected_version, setup_parameters })
    }
}

impl Payload for ServerSetupMessage {
    open spec fn message_type(version: Version) -> u64 {
        server_setup_type(version)
    }

    open spec fn payload_encodable(v: ServerSetupView, version: Version) -> bool {
        server_setup_encodable(v, version)
    }

    open spec fn payload_bytes(v: ServerSetupView, version: Version) -> Seq<u8> {
        server_setup_payload(v, version)
    }

    fn type_id(version: Version) -> (r: u64) {
        proof {
            let _ = Self::message_type(version);
        }
        if is_version_until_10(version) {
            SERVER_SETUP_CONTROL_MESSAGE_ID_VERSION_UNTIL_10
        } else {
            SERVER_SETUP_CONTROL_MESSAGE_ID
        }
    }

    fn write_payload(&self, b: &mut Writer, version: Version) -> (r: Result<()>) {
        proof {
            let _ = Self::payload_encodable(self@, version);
            let _ = Self::payload_bytes(self@, version);
        }
        let ghost m = self@;
        let ghost s0 = varint_bytes(m.selected_version);
        let ghost s1 = setup_parameters_bytes(m.setup_parameters, version);
        let ghost whole = server_setup_payload(m, version);
        let r = b.put_varint(self.selected_version);
        proof {
            lemma_encoded_first(*old(b), *b, r, s0, whole, false);
        }
        r?;
        let ghost w = *b;
        let r = self.setup_parameters.to_bytes(b, version);
        proof {
            lemma_encoded_step(*old(b), w, *b, r, s0, s1, whole, false);
        }
        r?;
        Ok(())
    }
}

impl ToBytes for ServerSetupMessage {
    open spec fn encodable(v: ServerSetupView, version: Version) -> bool {
        server_setup_encodable(v, version)
    }

    open spec fn invalid(v: ServerSetupView, version: Version) -> bool {
        false
    }

    open spec fn too_long(v: ServerSetupView, version: Version) -> bool {
        message_too_long::<ServerSetupMessage>(v, version)
    }

    open spec fn serialized(v: ServerSetupView, version: Version) -> Seq<u8> {
        message_bytes::<ServerSetupMessage>(v, version)
    }

    fn to_bytes(&self, b: &mut Writer, version: Version) -> (r: Result<()>) {
        proof {
            let _ = Self::encodable(self@, version);
            let _ = Self::invalid(self@, version);
            let _ = Self::too_long(self@, version);
            let _ = Self::serialized(self@, version);
        }
        write_framed(self, b, version)
    }
}

/// The message is one that reading can yield on the given draft.
pub open spec fn server_setup_canonical(m: ServerSetupView, version: Version) -> bool {
    &&& m.selected_version <= MAX_VAR_INT
    &&& setup_parameters_canonical(m.setup_parameters, version)
}

/// A SERVER_SETUP that reading can yield, once written, reads back as it
/// was.
pub proof fn lemma_server_setup_roundtrip(
    bytes: Seq<u8>,
    off: int,
    m: ServerSetupView,
    version: Version,
)
    requires
        version_known(version),
        server_setup_canonical(m, version),
        !message_too_long::<ServerSetupMessage>(m, version),
        holds_at(bytes, off, message_bytes::<ServerSetupMessage>(m, version)),
    ensures
        parse_server_setup(bytes, off, version) == Ok::<(ServerSetupView, int), Fault>(
            (m, off + message_bytes::<ServerSetupMessage>(m, version).len()),
        ),
{
    let payload = server_setup_payload(m, version);
    let ty = server_setup_type(version);
    assert(ServerSetupMessage::payload_bytes(m, version) == payload);
    assert(ServerSetupMessage::message_type(version) == ty);
    lemma_frame_roundtrip(bytes, off, ty, payload, version);
    let o0 = off + varint_len(ty) + 2;
    let s0 = varint_bytes(m.selected_version);
    let s1 = setup_parameters_bytes(m.setup_parameters, version);
    lemma_holds_at_split(bytes, o0, s0, s1);
    lemma_parse_varint_roundtrip(bytes, o0, m.selected_version);
    lemma_setup_parameters_roundtrip(bytes, o0 + s0.len(), m.setup_parameters, version);
}

} // verus!
