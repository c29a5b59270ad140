//! CLIENT_SETUP: the first message of a client. It offers drafts.

use super::lemma_frame_roundtrip;
use super::message_bytes;
use super::message_too_long;
use super::parse_header_of;
use super::read_header_of;
use super::write_framed;
use super::Payload;
use crate::wire::bytes::encoded;
use crate::wire::bytes::is_prefix;
use crate::wire::bytes::lemma_encoded_first;
use crate::wire::bytes::lemma_encoded_step;
use crate::wire::bytes::lemma_parse_repeat_stays_failed;
use crate::wire::bytes::lemma_repeat_bytes_grows;
use crate::wire::bytes::lemma_repeat_bytes_step;
use crate::wire::bytes::lemma_repeat_roundtrip;
use crate::wire::bytes::parse_repeat;
use crate::wire::bytes::repeat_bytes;
use crate::wire::bytes::FromBytes;
use crate::wire::bytes::ToBytes;
use crate::wire::error::Error;
use crate::wire::error::Fault;
use crate::wire::error::Parsed;
use crate::wire::error::Result;
use crate::wire::is_version_until_10;
use crate::wire::octets::reads_view;
use crate::wire::octets::Reader;
use crate::wire::octets::Writer;
use crate::wire::setup_parameters::lemma_setup_parameters_roundtrip;
use crate::wire::setup_parameters::parse_setup_parameters;
use crate::wire::setup_parameters::setup_parameters_canonical;
use crate::wire::setup_parameters::setup_parameters_bytes;
use crate::wire::setup_parameters::setup_parameters_encodable;
use crate::wire::setup_parameters::SetupParameters;
use crate::wire::setup_parameters::SetupParametersView;
use crate::wire::varint::holds_at;
use crate::wire::varint::lemma_holds_at_split;
use crate::wire::varint::lemma_parse_varint_roundtrip;
use crate::wire::varint::parse_varint;
use crate::wire::varint::varint_len;
use crate::wire::varint::varint_bytes;
use crate::wire::varint::MAX_VAR_INT;
use crate::wire::version_known;
use crate::wire::version_until_10;
use crate::wire::Version;
use crate::wire::CLIENT_SETUP_CONTROL_MESSAGE_ID;
use crate::wire::CLIENT_SETUP_CONTROL_MESSAGE_ID_VERSION_UNTIL_10;
use vstd::prelude::*;

verus! {

#[derive(Debug, PartialEq, Eq)]
pub struct ClientSetupMessage {
    pub supported_versions: Vec<Version>,
    pub setup_parameters: SetupParameters,
}

/// What a CLIENT_SETUP is in contracts.
pub struct ClientSetupView {
    pub supported_versions: Seq<Version>,
    pub setup_parameters: SetupParametersView,
}

impl View for ClientSetupMessage {
    type V = ClientSetupView;

    open spec fn view(&self) -> ClientSetupView {
        ClientSetupView {
            supported_versions: self.supported_versions@,
            setup_parameters: self.setup_parameters@,
        }
    }
}

/// The type of a CLIENT_SETUP on the given draft.
pub open spec fn client_setup_type(version: Version) -> u64 {
    if version_until_10(version) {
        CLIENT_SETUP_CONTROL_MESSAGE_ID_VERSION_UNTIL_10
    } else {
        CLIENT_SETUP_CONTROL_MESSAGE_ID
    }
}

/// How one variable-length integer of a list is read.
pub open spec fn varint_parser() -> spec_fn(Seq<u8>, int) -> Parsed<u64> {
    |bs: Seq<u8>, o: int| parse_varint(bs, o)
}

/// How one variable-length integer of a list is written.
pub open spec fn varint_ser() -> spec_fn(u64) -> Seq<u8> {
    |v: u64| varint_bytes(v)
}

/// Reading a list of drafts: the count, then that many numbers.
pub open spec fn parse_versions(bytes: Seq<u8>, off: int) -> Parsed<Seq<Version>> {
    match parse_varint(bytes, off) {
        Err(f) => Err(f),
        Ok((n, o)) => parse_repeat(varint_parser(), bytes, o, n as nat),
    }
}

pub open spec fn versions_bytes(vs: Seq<Version>) -> Seq<u8> {
    varint_bytes(vs.len() as u64) + repeat_bytes(varint_ser(), vs)
}

pub open spec fn versions_encodable(vs: Seq<Version>) -> bool {
    &&& vs.len() <= MAX_VAR_INT
    &&& forall|i: int| 0 <= i < vs.len() ==> #[trigger] vs[i] <= MAX_VAR_INT
}

/// Reading a CLIENT_SETUP: the header, the drafts on offer, the setup
/// parameters. The payload must be as long as the header says.
pub open spec fn parse_client_setup(bytes: Seq<u8>, off: int, version: Version) -> Parsed<
    ClientSetupView,
> {
    match parse_header_of(bytes, off, version, client_setup_type(version)) {
        Err(f) => Err(f),
        Ok((h, o0)) => match parse_versions(bytes, o0) {
            Err(f) => Err(f),
            Ok((supported_versions, o1)) => match parse_setup_parameters(bytes, o1, version) {
                Err(f) => Err(f),
                Ok((setup_parameters, o2)) => if o2 - o0 == h.len {
                    Ok((ClientSetupView { supported_versions, setup_parameters }, o2))
                } else {
                    Err(Fault::Violation)
                },
            },
        },
    }
}

/// The bytes of the payload of a CLIENT_SETUP.
pub open spec fn client_setup_payload(m: ClientSetupView, version: Version) -> Seq<u8> {
    versions_bytes(m.supported_versions) + setup_parameters_bytes(m.setup_parameters, version)
}

pub open spec fn client_setup_encodable(m: ClientSetupView, version: Version) -> bool {
    versions_encodable(m.supported_versions) && setup_parameters_encodable(
        m.setup_parameters,
        version,
    )
}

/// Reads a list of drafts.
pub fn read_versions(b: &mut Reader) -> (r: Result<Vec<Version>>)
    ensures
        reads_view(*old(b), *final(b), r, parse_versions(old(b).bytes(), old(b).pos())),
{
    let ghost bytes = b.bytes();
    let n = b.get_varint()?;
    let start = b.off();
    let mut versions: Vec<Version> = Vec::new();
    let mut i: u64 = 0;
    assert(versions@ =~= Seq::<Version>::empty());
    while i < n
        invariant
            i <= n,
            b.bytes() == bytes,
            bytes == old(b).bytes(),
            old(b).pos() <= start <= b.pos() <= bytes.len(),
            parse_varint(bytes, old(b).pos()) == Ok::<(u64, int), Fault>((n, start as int)),
            parse_repeat(varint_parser(), bytes, start as int, i as nat) == Ok::<
                (Seq<Version>, int),
                Fault,
            >((versions@, b.pos())),
        decreases n - i,
    {
        let ghost at = b.pos();
        assert(varint_parser()(bytes, at) == parse_varint(bytes, at));
        match b.get_varint() {
            Ok(v) => {
                versions.push(v);
            },
            Err(e) => {
                proof {
                    lemma_parse_repeat_stays_failed(
                        varint_parser(),
                        bytes,
                        start as int,
                        (i + 1) as nat,
                        n as nat,
                    );
                }
                return Err(e);
            },
        }
        i += 1;
    }
    Ok(versions)
}

/// Writes a list of drafts.
pub fn write_versions(versions: &Vec<Version>, b: &mut Writer) -> (r: Result<()>)
    requires
        versions_encodable(versions@),
    ensures
        encoded(*old(b), *final(b), r, false, false, versions_bytes(versions@)),
{
    let ghost all = versions@;
    let ghost ser = varint_ser();
    b.put_varint(versions.len() as u64)?;
    let ghost head = b.written();
    let mut i: usize = 0;
    assert(all.take(0) =~= Seq::<Version>::empty());
    while i < versions.len()
        invariant
            i <= versions@.len(),
            all == versions@,
            ser == varint_ser(),
            versions_encodable(all),
            b.capacity() == old(b).capacity(),
            head == old(b).written() + varint_bytes(versions@.len() as u64),
            b.written() == head + repeat_bytes(ser, all.take(i as int)),
        decreases versions@.len() - i,
    {
        proof {
            lemma_repeat_bytes_step(ser, all, i as int);
            lemma_repeat_bytes_grows(ser, all, i + 1);
        }
        let ghost before = b.written();
        match b.put_varint(versions[i]) {
            Ok(()) => {
                assert(b.written() =~= head + repeat_bytes(ser, all.take(i as int + 1)));
            },
            Err(e) => {
                assert(is_prefix(old(b).written(), before));
                return Err(e);
            },
        }
        i += 1;
    }
    assert(all.take(i as int) =~= all);
    assert(b.written() =~= old(b).written() + versions_bytes(all));
    let _end = b.off();
    Ok(())
}

impl FromBytes for ClientSetupMessage {
    open spec fn parse(bytes: Seq<u8>, off: int, version: Version) -> Parsed<ClientSetupView> {
        parse_client_setup(bytes, off, version)
    }

    fn from_bytes(b: &mut Reader, version: Version) -> (r: Result<Self>) {
        proof {
            let _ = Self::parse(b.bytes(), b.pos(), version);
        }
        let header = read_header_of(b, version, <Self as Payload>::type_id(version))?;
        let start_off = b.off();
        let supported_versions = read_versions(b)?;
        let setup_parameters = SetupParameters::from_bytes(b, version)?;
        let payload_len = b.off() - start_off;
        if payload_len as u64 != header.len {
            return Err(Error::violation("client setup payload length mismatch"));
        }
        Ok(Self { supported_versions, setup_parameters })
    }
}

impl Payload for ClientSetupMessage {
    open spec fn message_type(version: Version) -> u64 {
        client_setup_type(version)
    }

    open spec fn payload_encodable(v: ClientSetupView, version: Version) -> bool {
        client_setup_encodable(v, version)
    }

    open spec fn payload_bytes(v: ClientSetupView, version: Version) -> Seq<u8> {
        client_setup_payload(v, version)
    }

    fn type_id(version: Version) -> (r: u64) {
        proof {
            let _ = Self::message_type(version);
        }
        if is_version_until_10(version) {
            CLIENT_SETUP_CONTROL_MESSAGE_ID_VERSION_UNTIL_10
        } else {
            CLIENT_SETUP_CONTROL_MESSAGE_ID
        }
    }

    fn write_payload(&self, b: &mut Writer, version: Version) -> (r: Result<()>) {
        proof {
            let _ = Self::payload_encodable(self@, version);
            let _ = Self::payload_bytes(self@, version);
        }
        let ghost m = self@;
        let ghost s0 = versions_bytes(m.supported_versions);
        let ghost s1 = setup_parameters_bytes(m.setup_parameters, version);
        let ghost whole = client_setup_payload(m, version);
        let r = write_versions(&self.supported_versions, b);
        proof {
            lemma_encoded_first(*old(b), *b, r, s0, whole, false);
        }
        r?;
        let ghost w = *b;
        let r = self.setup_parameters.to_bytes(b, version);
        proof {
            lemma_encoded_step(*old(b), w, *b, r, s0, s1, whole, false);
        }
        r?;
        Ok(())
    }
}

impl ToBytes for ClientSetupMessage {
    open spec fn encodable(v: ClientSetupView, version: Version) -> bool {
        client_setup_encodable(v, version)
    }

    open spec fn invalid(v: ClientSetupView, version: Version) -> bool {
        false
    }

    open spec fn too_long(v: ClientSetupView, version: Version) -> bool {
        message_too_long::<ClientSetupMessage>(v, version)
    }

    open spec fn serialized(v: ClientSetupView, version: Version) -> Seq<u8> {
        message_bytes::<ClientSetupMessage>(v, version)
    }

    fn to_bytes(&self, b: &mut Writer, version: Version) -> (r: Result<()>) {
        proof {
            let _ = Self::encodable(self@, version);
            let _ = Self::invalid(self@, version);
            let _ = Self::too_long(self@, version);
            let _ = Self::serialized(self@, version);
        }
        write_framed(self, b, version)
    }
}

/// A list of drafts that was written reads back as it was.
pub proof fn lemma_versions_roundtrip(bytes: Seq<u8>, off: int, vs: Seq<Version>)
    requires
        versions_encodable(vs),
        holds_at(bytes, off, versions_bytes(vs)),
    ensures
        parse_versions(bytes, off) == Ok::<(Seq<Version>, int), Fault>(
            (vs, off + versions_bytes(vs).len()),
        ),
{
    let item = varint_parser();
    let ser = varint_ser();
    let good = |v: u64| v <= MAX_VAR_INT;
    lemma_holds_at_split(bytes, off, varint_bytes(vs.len() as u64), repeat_bytes(ser, vs));
    lemma_parse_varint_roundtrip(bytes, off, vs.len() as u64);
    assert forall|bs: Seq<u8>, o: int, v: u64|
        good(v) && #[trigger] holds_at(bs, o, ser(v)) implies item(bs, o) == Ok::<
        (u64, int),
        Fault,
    >((v, o + ser(v).len())) by {
        lemma_parse_varint_roundtrip(bs, o, v);
    }
    lemma_repeat_roundtrip(item, ser, good, bytes, off + varint_bytes(vs.len() as u64).len(), vs);
}

/// The message is one that reading can yield on the given draft.
pub open spec fn client_setup_canonical(m: ClientSetupView, version: Version) -> bool {
    &&& versions_encodable(m.supported_versions)
    &&& setup_parameters_canonical(m.setup_parameters, version)
}

/// A CLIENT_SETUP that reading can yield, once written, reads back as it
/// was.
pub proof fn lemma_client_setup_roundtrip(
    bytes: Seq<u8>,
    off: int,
    m: ClientSetupView,
    version: Version,
)
    requires
        version_known(version),
        client_setup_canonical(m, version),
        !message_too_long::<ClientSetupMessage>(m, version),
        holds_at(bytes, off, message_bytes::<ClientSetupMessage>(m, version)),
    ensures
        parse_client_setup(bytes, off, version) == Ok::<(ClientSetupView, int), Fault>(
            (m, off + message_bytes::<ClientSetupMessage>(m, version).len()),
        ),
{
    let payload = client_setup_payload(m, version);
    let ty = client_setup_type(version);
    assert(ClientSetupMessage::payload_bytes(m, version) == payload);
    assert(ClientSetupMessage::message_type(version) == ty);
    lemma_frame_roundtrip(bytes, off, ty, payload, version);
    let o0 = off + varint_len(ty) + 2;
    let s0 = versions_bytes(m.supported_versions);
    let s1 = setup_parameters_bytes(m.setup_parameters, version);
    lemma_holds_at_split(bytes, o0, s0, s1);
    lemma_versions_roundtrip(bytes, o0, m.supported_versions);
    lemma_setup_parameters_roundtrip(bytes, o0 + s0.len(), m.setup_parameters, version);
}

} // verus!
