//! Control messages and their frame: the type, the length of the payload,
//! the payload. The length is written when the payload is, over two bytes
//! that were left free for it.

use crate::wire::bytes::encoded;
use crate::wire::bytes::is_prefix;
use crate::wire::error::Error;
use crate::wire::error::Fault;
use crate::wire::error::Parsed;
use crate::wire::error::Result;
use crate::wire::is_version_until_10;
use crate::wire::octets::put_u16_at;
use crate::wire::octets::put_varint_with_len_at;
use crate::wire::octets::Reader;
use crate::wire::octets::Writer;
use crate::wire::varint::holds_at;
use crate::wire::varint::lemma_holds_at_split;
use crate::wire::varint::lemma_parse_varint_of_bytes;
use crate::wire::varint::lemma_parse_varint_roundtrip;
use crate::wire::varint::lemma_varint_bytes_len;
use crate::wire::bytes::FromBytes;
use crate::wire::location::location_bytes;
use crate::wire::location::location_encodable;
use crate::wire::location::parse_location;
use crate::wire::location::Location;
use crate::wire::octets::reads;
use crate::wire::varint::parse_u8;
use crate::wire::varint::parse_varint;
use crate::wire::varint::splice;
use crate::wire::varint::u16_bytes;
use crate::wire::varint::varint_bytes;
use crate::wire::varint::varint_bytes_with_len;
use crate::wire::varint::varint_len;
use crate::wire::varint::MAX_VAR_INT;
use crate::wire::version_known;
use crate::wire::version_until_10;
use crate::wire::Version;
use crate::wire::bytes::ToBytes;
use crate::wire::octets::peek_varint;
use crate::wire::ANNOUNCE_CONTROL_MESSAGE_ID;
use crate::wire::ANNOUNCE_OK_CONTROL_MESSAGE_ID;
use crate::wire::CLIENT_SETUP_CONTROL_MESSAGE_ID;
use crate::wire::CLIENT_SETUP_CONTROL_MESSAGE_ID_VERSION_UNTIL_10;
use crate::wire::REQUEST_BLOCKED_CONTROL_MESSAGE_ID;
use crate::wire::SERVER_SETUP_CONTROL_MESSAGE_ID;
use crate::wire::SERVER_SETUP_CONTROL_MESSAGE_ID_VERSION_UNTIL_10;
use crate::wire::SUBSCRIBE_CONTROL_MESSAGE_ID;
use crate::wire::SUBSCRIBE_DONE_CONTROL_MESSAGE_ID;
use crate::wire::SUBSCRIBE_ERROR_CONTROL_MESSAGE_ID;
use crate::wire::SUBSCRIBE_OK_CONTROL_MESSAGE_ID;
use crate::wire::UNSUBSCRIBE_NAMESPACE_MESSAGE_ID;
use announce::announce_canonical;
use announce::announce_encodable;
use announce::parse_announce;
use announce::AnnounceView;
use announce_ok::announce_ok_canonical;
use announce_ok::announce_ok_encodable;
use announce_ok::parse_announce_ok;
use announce_ok::AnnounceOkView;
use client_setup::client_setup_canonical;
use client_setup::client_setup_encodable;
use client_setup::parse_client_setup;
use client_setup::ClientSetupView;
use header::parse_header;
use request_blocked::parse_request_blocked;
use server_setup::parse_server_setup;
use server_setup::server_setup_canonical;
use server_setup::server_setup_encodable;
use server_setup::ServerSetupView;
use subscribe::parse_subscribe;
use subscribe::subscribe_canonical;
use subscribe::subscribe_encodable;
use subscribe::SubscribeView;
use subscribe_done::parse_subscribe_done;
use subscribe_done::SubscribeDoneView;
use subscribe_error::parse_subscribe_error;
use subscribe_error::SubscribeErrorView;
use subscribe_ok::parse_subscribe_ok;
use subscribe_ok::subscribe_ok_canonical;
use subscribe_ok::subscribe_ok_encodable;
use subscribe_ok::SubscribeOkView;
use unsubscribe_namespace::parse_unsubscribe_namespace;
use header::ControlMessageHeader;
use crate::stream_id::decimal;
use vstd::prelude::*;

pub mod header;
pub mod subscribe;
pub mod subscribe_ok;
pub mod track_status;
pub mod subscribe_error;
pub mod subscribe_done;
pub mod request_blocked;
pub mod unsubscribe_namespace;
pub mod announce;
pub mod announce_ok;
pub mod client_setup;
pub mod server_setup;

pub use subscribe::SubscribeMessage;
pub use subscribe_ok::SubscribeOkMessage;
pub use track_status::TrackStatusMessage;
pub use subscribe_error::SubscribeErrorMessage;
pub use subscribe_done::SubscribeDoneMessage;
pub use request_blocked::RequestBlockedMessage;
pub use unsubscribe_namespace::UnsubscribeNamespaceMessage;
pub use announce::AnnounceMessage;
pub use announce_ok::AnnounceOkMessage;
pub use client_setup::ClientSetupMessage;
pub use server_setup::ServerSetupMessage;

verus! {

/// The longest payload that the length field of a frame can say.
pub open spec fn max_payload_len(version: Version) -> nat {
    if version_until_10(version) {
        16383
    } else {
        65535
    }
}

/// The two bytes of the length field: a variable-length integer forced to
/// two bytes on drafts 07 to 10, a big-endian 16-bit number on drafts 11 to
/// 13.
pub open spec fn length_bytes(len: nat, version: Version) -> Seq<u8> {
    if version_until_10(version) {
        varint_bytes_with_len(len as u64, 2)
    } else {
        u16_bytes(len as u16)
    }
}

/// The frame of a control message: the type, the length, the payload.
pub open spec fn framed(ty: u64, payload: Seq<u8>, version: Version) -> Seq<u8> {
    varint_bytes(ty) + length_bytes(payload.len(), version) + payload
}

/// The length field has two bytes.
pub proof fn lemma_length_bytes_len(len: nat, version: Version)
    ensures
        length_bytes(len, version).len() == 2,
{
    lemma_varint_bytes_len(len as u64, 2);
}

/// The head of a frame that was written reads back with the type and the
/// length of the payload.
pub proof fn lemma_frame_header_roundtrip(
    bytes: Seq<u8>,
    off: int,
    ty: u64,
    len: nat,
    version: Version,
)
    requires
        ty <= MAX_VAR_INT,
        len <= max_payload_len(version),
        holds_at(bytes, off, varint_bytes(ty) + length_bytes(len, version)),
    ensures
        parse_header(bytes, off, version) == Ok::<(ControlMessageHeader, int), Fault>(
            (ControlMessageHeader { ty, len: len as u64 }, off + varint_len(ty) + 2),
        ),
{
    lemma_holds_at_split(bytes, off, varint_bytes(ty), length_bytes(len, version));
    lemma_parse_varint_roundtrip(bytes, off, ty);
    let o = off + varint_len(ty);
    if version_until_10(version) {
        lemma_parse_varint_of_bytes(bytes, o, len as u64, 2);
    } else {
        let part = u16_bytes(len as u16);
        assert(bytes[o + 0] == part[0]);
        assert(bytes[o + 1] == part[1]);
    }
}

/// Writes the length of the payload of the control message that began two
/// bytes before `len_off + 2` and ends at the offset of the writer, over the
/// two bytes at `len_off`.
pub fn set_control_message_length(b: &mut Writer, len_off: usize, version: Version) -> (r: Result<
    (),
>)
    requires
        version_known(version),
    ensures
        final(b).capacity() == old(b).capacity(),
        if len_off + 2 > old(b).written().len() {
            r is Err && r->Err_0.fault() == Fault::TooShort && final(b).written() == old(
                b,
            ).written()
        } else if old(b).written().len() - len_off - 2 > max_payload_len(version) {
            r is Err && r->Err_0.fault() == Fault::Violation && final(b).written() == old(
                b,
            ).written()
        } else {
            r is Ok && final(b).written() == splice(
                old(b).written(),
                len_off as int,
                length_bytes((old(b).written().len() - len_off - 2) as nat, version),
            )
        },
{
    let end = b.off();
    if len_off > end || end - len_off < 2 {
        return Err(Error::Octets(crate::wire::octets::buffer_too_short()));
    }
    let len = end - len_off - 2;
    if is_version_until_10(version) {
        if len > 16383 {
            return Err(Error::violation("control message payload too long"));
        }
        put_varint_with_len_at(b, len as u64, 2, len_off)
    } else {
        if len > 65535 {
            return Err(Error::violation("control message payload too long"));
        }
        put_u16_at(b, len as u16, len_off)
    }
}

/// Begins a control message: writes the type and leaves two bytes free for
/// the length. Returns the offset of those two bytes.
pub fn begin_control_message(ty: u64, b: &mut Writer) -> (r: Result<usize>)
    requires
        ty <= MAX_VAR_INT,
    ensures
        final(b).capacity() == old(b).capacity(),
        is_prefix(old(b).written(), final(b).written()),
        if old(b).written().len() + varint_len(ty) + 2 <= old(b).capacity() {
            &&& r is Ok
            &&& r->Ok_0 == old(b).written().len() + varint_len(ty)
            &&& final(b).written().len() == r->Ok_0 + 2
            &&& final(b).written().subrange(0, r->Ok_0 as int) == old(b).written() + varint_bytes(
                ty,
            )
        } else {
            r is Err && r->Err_0.fault() == Fault::TooShort
        },
{
    proof {
        lemma_varint_bytes_len(ty, varint_len(ty));
    }
    b.put_varint(ty)?;
    let len_off = b.off();
    b.skip(2)?;
    Ok(len_off)
}

/// Ends a control message that [`begin_control_message`] began and whose
/// payload has been written: fills in the length. With the payload
/// `payload` behind the head, the frame is then complete.
pub(crate) fn end_control_message(
    b: &mut Writer,
    len_off: usize,
    version: Version,
    Ghost(ty): Ghost<u64>,
    Ghost(start): Ghost<Seq<u8>>,
    Ghost(payload): Ghost<Seq<u8>>,
) -> (r: Result<()>)
    requires
        version_known(version),
        ty <= MAX_VAR_INT,
        len_off == start.len() + varint_len(ty),
        old(b).written().len() == len_off + 2 + payload.len(),
        old(b).written().subrange(0, len_off as int) == start + varint_bytes(ty),
        old(b).written().subrange(len_off + 2, old(b).written().len() as int) == payload,
    ensures
        final(b).capacity() == old(b).capacity(),
        if payload.len() > max_payload_len(version) {
            r is Err && r->Err_0.fault() == Fault::Violation && final(b).written() == old(
                b,
            ).written()
        } else {
            r is Ok && final(b).written() == start + framed(ty, payload, version)
        },
{
    proof {
        lemma_length_bytes_len(payload.len(), version);
        lemma_varint_bytes_len(ty, varint_len(ty));
    }
    let r = set_control_message_length(b, len_off, version);
    proof {
        if r is Ok {
            let want = start + framed(ty, payload, version);
            let got = b.written();
            assert(got.len() == want.len());
            assert forall|i: int| 0 <= i < got.len() implies got[i] == want[i] by {
                if i < len_off {
                    assert(old(b).written().subrange(0, len_off as int)[i] == old(b).written()[i]);
                } else if i >= len_off + 2 {
                    assert(old(b).written().subrange(
                        len_off + 2,
                        old(b).written().len() as int,
                    )[i - len_off - 2] == old(b).written()[i]);
                }
            }
            assert(got =~= want);
        }
    }
    r
}

/// Writes a whole control message: the type, the length of `payload`, and
/// `payload`.
pub fn encode_control_message(ty: u64, version: Version, b: &mut Writer, payload: &[u8]) -> (r:
    Result<()>)
    requires
        version_known(version),
        ty <= MAX_VAR_INT,
    ensures
        encoded(
            *old(b),
            *final(b),
            r,
            false,
            payload@.len() > max_payload_len(version),
            framed(ty, payload@, version),
        ),
{
    proof {
        lemma_length_bytes_len(payload@.len(), version);
        lemma_varint_bytes_len(ty, varint_len(ty));
    }
    let len_off = begin_control_message(ty, b)?;
    let ghost mid = b.written();
    b.put_bytes(payload)?;
    assert(b.written().subrange(0, len_off as int) =~= mid.subrange(0, len_off as int));
    assert(b.written().subrange(len_off + 2, b.written().len() as int) =~= payload@);
    end_control_message(b, len_off, version, Ghost(ty), Ghost(old(b).written()), Ghost(payload@))
}

/// Reading a header that must have the type `ty`.
pub open spec fn parse_header_of(bytes: Seq<u8>, off: int, version: Version, ty: u64) -> Parsed<
    ControlMessageHeader,
> {
    match parse_header(bytes, off, version) {
        Err(f) => Err(f),
        Ok((h, o)) => if h.ty == ty {
            Ok((h, o))
        } else {
            Err(Fault::Violation)
        },
    }
}

/// Reads a header and holds it to the type `ty`.
pub fn read_header_of(b: &mut Reader, version: Version, ty: u64) -> (r: Result<
    ControlMessageHeader,
>)
    requires
        version_known(version),
    ensures
        reads(*old(b), *final(b), r, parse_header_of(old(b).bytes(), old(b).pos(), version, ty)),
{
    let h = ControlMessageHeader::from_bytes(b, version)?;
    if h.ty != ty {
        return Err(Error::violation("unexpected control message type"));
    }
    Ok(h)
}

/// Reading a header that must have the type `ty` and whose whole payload
/// must lie in the bytes.
pub open spec fn parse_header_with_payload(
    bytes: Seq<u8>,
    off: int,
    version: Version,
    ty: u64,
) -> Parsed<ControlMessageHeader> {
    match parse_header_of(bytes, off, version, ty) {
        Err(f) => Err(f),
        Ok((h, o)) => if o + h.len <= bytes.len() {
            Ok((h, o))
        } else {
            Err(Fault::TooShort)
        },
    }
}

/// Reads a header, holds it to the type `ty`, and asks for its whole payload
/// to be there.
pub fn read_header_with_payload(b: &mut Reader, version: Version, ty: u64) -> (r: Result<
    ControlMessageHeader,
>)
    requires
        version_known(version),
    ensures
        reads(
            *old(b),
            *final(b),
            r,
            parse_header_with_payload(old(b).bytes(), old(b).pos(), version, ty),
        ),
{
    let h = read_header_of(b, version, ty)?;
    if h.len > b.cap() as u64 {
        return Err(Error::Octets(crate::wire::octets::buffer_too_short()));
    }
    Ok(h)
}

/// Reading a variable-length integer that is there only where `present`.
pub open spec fn parse_optional_varint(bytes: Seq<u8>, off: int, present: bool) -> Parsed<
    Option<u64>,
> {
    if present {
        match parse_varint(bytes, off) {
            Err(f) => Err(f),
            Ok((v, o)) => Ok((Some(v), o)),
        }
    } else {
        Ok((None, off))
    }
}

/// Reading a byte that is there only where `present`.
pub open spec fn parse_optional_u8(bytes: Seq<u8>, off: int, present: bool) -> Parsed<Option<u8>> {
    if present {
        match parse_u8(bytes, off) {
            Err(f) => Err(f),
            Ok((v, o)) => Ok((Some(v), o)),
        }
    } else {
        Ok((None, off))
    }
}

/// Reading a location that is there only where `present`.
pub open spec fn parse_optional_location(bytes: Seq<u8>, off: int, present: bool) -> Parsed<
    Option<Location>,
> {
    if present {
        match parse_location(bytes, off) {
            Err(f) => Err(f),
            Ok((v, o)) => Ok((Some(v), o)),
        }
    } else {
        Ok((None, off))
    }
}

/// The bytes of a variable-length integer that is written only where set.
pub open spec fn optional_varint_bytes(v: Option<u64>) -> Seq<u8> {
    match v {
        Some(v) => varint_bytes(v),
        None => Seq::empty(),
    }
}

/// The byte of a field that is written only where set.
pub open spec fn optional_u8_bytes(v: Option<u8>) -> Seq<u8> {
    match v {
        Some(v) => seq![v],
        None => Seq::empty(),
    }
}

/// The bytes of a location that is written only where set.
pub open spec fn optional_location_bytes(v: Option<Location>) -> Seq<u8> {
    match v {
        Some(v) => location_bytes(v),
        None => Seq::empty(),
    }
}

/// `v` where `keep`, and nothing where not.
pub open spec fn only_if<T>(keep: bool, v: Option<T>) -> Option<T> {
    if keep {
        v
    } else {
        None
    }
}

pub fn get_optional_varint(b: &mut Reader, present: bool) -> (r: Result<Option<u64>>)
    ensures
        reads(
            *old(b),
            *final(b),
            r,
            parse_optional_varint(old(b).bytes(), old(b).pos(), present),
        ),
{
    if present {
        Ok(Some(b.get_varint()?))
    } else {
        let _at = b.off();
        Ok(None)
    }
}

pub fn get_optional_u8(b: &mut Reader, present: bool) -> (r: Result<Option<u8>>)
    ensures
        reads(*old(b), *final(b), r, parse_optional_u8(old(b).bytes(), old(b).pos(), present)),
{
    if present {
        Ok(Some(b.get_u8()?))
    } else {
        let _at = b.off();
        Ok(None)
    }
}

pub fn get_optional_location(b: &mut Reader, present: bool) -> (r: Result<Option<Location>>)
    ensures
        reads(
            *old(b),
            *final(b),
            r,
            parse_optional_location(old(b).bytes(), old(b).pos(), present),
        ),
{
    if present {
        let group = b.get_varint()?;
        let object = b.get_varint()?;
        Ok(Some(Location { group, object }))
    } else {
        let _at = b.off();
        Ok(None)
    }
}

pub fn put_optional_varint(b: &mut Writer, v: Option<u64>) -> (r: Result<()>)
    requires
        v matches Some(x) ==> x <= MAX_VAR_INT,
    ensures
        encoded(*old(b), *final(b), r, false, false, optional_varint_bytes(v)),
{
    match v {
        Some(x) => b.put_varint(x),
        None => {
            let _end = b.off();
            assert(b.written() =~= old(b).written() + Seq::<u8>::empty());
            Ok(())
        },
    }
}

pub fn put_optional_u8(b: &mut Writer, v: Option<u8>) -> (r: Result<()>)
    ensures
        encoded(*old(b), *final(b), r, false, false, optional_u8_bytes(v)),
{
    match v {
        Some(x) => b.put_u8(x),
        None => {
            let _end = b.off();
            assert(b.written() =~= old(b).written() + Seq::<u8>::empty());
            Ok(())
        },
    }
}

pub fn put_optional_location(b: &mut Writer, v: Option<Location>) -> (r: Result<()>)
    requires
        v matches Some(x) ==> location_encodable(x),
    ensures
        encoded(*old(b), *final(b), r, false, false, optional_location_bytes(v)),
{
    match v {
        Some(x) => {
            b.put_varint(x.group)?;
            b.put_varint(x.object)?;
            assert(b.written() =~= old(b).written() + location_bytes(x));
            Ok(())
        },
        None => {
            let _end = b.off();
            assert(b.written() =~= old(b).written() + Seq::<u8>::empty());
            Ok(())
        },
    }
}

/// An integer that is written only where set reads back as it was.
pub proof fn lemma_optional_varint_roundtrip(bytes: Seq<u8>, off: int, present: bool, v: Option<u64>)
    requires
        present ==> v is Some,
        v matches Some(x) ==> x <= MAX_VAR_INT,
        holds_at(bytes, off, optional_varint_bytes(only_if(present, v))),
    ensures
        parse_optional_varint(bytes, off, present) == Ok::<(Option<u64>, int), Fault>(
            (only_if(present, v), off + optional_varint_bytes(only_if(present, v)).len()),
        ),
{
    if present {
        lemma_parse_varint_roundtrip(bytes, off, v->Some_0);
    }
}

/// A byte that is written only where set reads back as it was.
pub proof fn lemma_optional_u8_roundtrip(bytes: Seq<u8>, off: int, present: bool, v: Option<u8>)
    requires
        present ==> v is Some,
        holds_at(bytes, off, optional_u8_bytes(only_if(present, v))),
    ensures
        parse_optional_u8(bytes, off, present) == Ok::<(Option<u8>, int), Fault>(
            (only_if(present, v), off + optional_u8_bytes(only_if(present, v)).len()),
        ),
{
    if present {
        crate::wire::varint::lemma_u8_roundtrip(bytes, off, v->Some_0);
    }
}

/// A location that is written only where set reads back as it was.
pub proof fn lemma_optional_location_roundtrip(
    bytes: Seq<u8>,
    off: int,
    present: bool,
    v: Option<Location>,
)
    requires
        present ==> v is Some,
        v matches Some(x) ==> location_encodable(x),
        holds_at(bytes, off, optional_location_bytes(only_if(present, v))),
    ensures
        parse_optional_location(bytes, off, present) == Ok::<(Option<Location>, int), Fault>(
            (only_if(present, v), off + optional_location_bytes(only_if(present, v)).len()),
        ),
{
    if present {
        crate::wire::location::lemma_location_roundtrip(bytes, off, v->Some_0);
    }
}

/// Where the bytes hold a frame, they hold its head and then its payload,
/// and the head reads back with the type and the length of the payload.
pub proof fn lemma_frame_roundtrip(
    bytes: Seq<u8>,
    off: int,
    ty: u64,
    payload: Seq<u8>,
    version: Version,
)
    requires
        ty <= MAX_VAR_INT,
        payload.len() <= max_payload_len(version),
        holds_at(bytes, off, framed(ty, payload, version)),
    ensures
        parse_header(bytes, off, version) == Ok::<(ControlMessageHeader, int), Fault>(
            (ControlMessageHeader { ty, len: payload.len() as u64 }, off + varint_len(ty) + 2),
        ),
        holds_at(bytes, off + varint_len(ty) + 2, payload),
        framed(ty, payload, version).len() == varint_len(ty) + 2 + payload.len(),
        parse_varint(bytes, off) == Ok::<(u64, int), Fault>((ty, off + varint_len(ty))),
{
    let head = varint_bytes(ty) + length_bytes(payload.len(), version);
    lemma_length_bytes_len(payload.len(), version);
    lemma_varint_bytes_len(ty, varint_len(ty));
    lemma_holds_at_split(bytes, off, head, payload);
    lemma_frame_header_roundtrip(bytes, off, ty, payload.len(), version);
    lemma_holds_at_split(bytes, off, varint_bytes(ty), length_bytes(payload.len(), version));
    lemma_parse_varint_roundtrip(bytes, off, ty);
}

/// The payload of a control message: what lies behind the type and the
/// length.
pub trait Payload: View {
    /// The type that the message has on the given draft.
    spec fn message_type(version: Version) -> u64;

    /// The message has a form on the given draft.
    spec fn payload_encodable(v: Self::V, version: Version) -> bool;

    /// The bytes of the payload on the given draft.
    spec fn payload_bytes(v: Self::V, version: Version) -> Seq<u8>;

    fn type_id(version: Version) -> (r: u64)
        requires
            version_known(version),
        ensures
            r == Self::message_type(version),
            r <= MAX_VAR_INT,
    ;

    fn write_payload(&self, b: &mut Writer, version: Version) -> (r: Result<()>)
        requires
            version_known(version),
            Self::payload_encodable(self@, version),
        ensures
            encoded(*old(b), *final(b), r, false, false, Self::payload_bytes(self@, version)),
    ;
}

/// The bytes of a message in its frame.
pub open spec fn message_bytes<T: Payload>(v: T::V, version: Version) -> Seq<u8> {
    framed(T::message_type(version), T::payload_bytes(v, version), version)
}

/// The payload is longer than the length field of the frame can say.
pub open spec fn message_too_long<T: Payload>(v: T::V, version: Version) -> bool {
    T::payload_bytes(v, version).len() > max_payload_len(version)
}

/// Writes a message in its frame: the type, two bytes for the length, the
/// payload, and then the length over those two bytes.
pub fn write_framed<T: Payload>(m: &T, b: &mut Writer, version: Version) -> (r: Result<()>)
    requires
        version_known(version),
        T::payload_encodable(m@, version),
    ensures
        encoded(
            *old(b),
            *final(b),
            r,
            false,
            message_too_long::<T>(m@, version),
            message_bytes::<T>(m@, version),
        ),
{
    let ghost payload = T::payload_bytes(m@, version);
    let ty = T::type_id(version);
    proof {
        lemma_length_bytes_len(payload.len(), version);
        lemma_varint_bytes_len(ty, varint_len(ty));
    }
    let len_off = begin_control_message(ty, b)?;
    let ghost mid = *b;
    let r = m.write_payload(b, version);
    match r {
        Ok(()) => {},
        Err(e) => {
            assert(is_prefix(old(b).written(), mid.written()));
            assert(is_prefix(old(b).written(), b.written()));
            return Err(e);
        },
    }
    assert(b.written().subrange(0, len_off as int) =~= mid.written().subrange(0, len_off as int));
    assert(b.written().subrange(len_off + 2, b.written().len() as int) =~= payload);
    end_control_message(b, len_off, version, Ghost(ty), Ghost(old(b).written()), Ghost(payload))
}

#[derive(Debug)]
pub enum ControlMessage {
    Subscribe(SubscribeMessage),
    ClientSetup(ClientSetupMessage),
    ServerSetup(ServerSetupMessage),
    SubscribeOk(SubscribeOkMessage),
    RequestBlocked(RequestBlockedMessage),
    SubscribeDone(SubscribeDoneMessage),
    SubscribeError(SubscribeErrorMessage),
    Announce(AnnounceMessage),
    AnnounceOk(AnnounceOkMessage),
    UnsubscribeNamespace(UnsubscribeNamespaceMessage),
}

/// What a control message is in contracts.
pub enum ControlMessageView {
    Subscribe(SubscribeView),
    ClientSetup(ClientSetupView),
    ServerSetup(ServerSetupView),
    SubscribeOk(SubscribeOkView),
    RequestBlocked(RequestBlockedMessage),
    SubscribeDone(SubscribeDoneView),
    SubscribeError(SubscribeErrorView),
    Announce(AnnounceView),
    AnnounceOk(AnnounceOkView),
    UnsubscribeNamespace(UnsubscribeNamespaceMessage),
}

impl View for ControlMessage {
    type V = ControlMessageView;

    open spec fn view(&self) -> ControlMessageView {
        match self {
            ControlMessage::Subscribe(m) => ControlMessageView::Subscribe(m@),
            ControlMessage::ClientSetup(m) => ControlMessageView::ClientSetup(m@),
            ControlMessage::ServerSetup(m) => ControlMessageView::ServerSetup(m@),
            ControlMessage::SubscribeOk(m) => ControlMessageView::SubscribeOk(m@),
            ControlMessage::RequestBlocked(m) => ControlMessageView::RequestBlocked(m@),
            ControlMessage::SubscribeDone(m) => ControlMessageView::SubscribeDone(m@),
            ControlMessage::SubscribeError(m) => ControlMessageView::SubscribeError(m@),
            ControlMessage::Announce(m) => ControlMessageView::Announce(m@),
            ControlMessage::AnnounceOk(m) => ControlMessageView::AnnounceOk(m@),
            ControlMessage::UnsubscribeNamespace(m) => ControlMessageView::UnsubscribeNamespace(
                m@,
            ),
        }
    }
}

/// The result of a read with its value wrapped by `wrap`.
pub open spec fn wrapped<T, U>(p: Parsed<T>, wrap: spec_fn(T) -> U) -> Parsed<U> {
    match p {
        Err(f) => Err(f),
        Ok((v, o)) => Ok((wrap(v), o)),
    }
}

/// Reading a control message: its type says which message to read, and a
/// type that names none breaks the protocol.
#[verifier::opaque]
pub open spec fn parse_control_message(bytes: Seq<u8>, off: int, version: Version) -> Parsed<
    ControlMessageView,
> {
    match parse_varint(bytes, off) {
        Err(f) => Err(f),
        Ok((ty, _)) => if ty == SERVER_SETUP_CONTROL_MESSAGE_ID_VERSION_UNTIL_10 || ty
            == SERVER_SETUP_CONTROL_MESSAGE_ID {
            wrapped(
                parse_server_setup(bytes, off, version),
                |m: ServerSetupView| ControlMessageView::ServerSetup(m),
            )
        } else if ty == SUBSCRIBE_OK_CONTROL_MESSAGE_ID {
            wrapped(
                parse_subscribe_ok(bytes, off, version),
                |m: SubscribeOkView| ControlMessageView::SubscribeOk(m),
            )
        } else if ty == REQUEST_BLOCKED_CONTROL_MESSAGE_ID {
            wrapped(
                parse_request_blocked(bytes, off, version),
                |m: RequestBlockedMessage| ControlMessageView::RequestBlocked(m),
            )
        } else if ty == SUBSCRIBE_DONE_CONTROL_MESSAGE_ID {
            wrapped(
                parse_subscribe_done(bytes, off, version),
                |m: SubscribeDoneView| ControlMessageView::SubscribeDone(m),
            )
        } else if ty == SUBSCRIBE_ERROR_CONTROL_MESSAGE_ID {
            wrapped(
                parse_subscribe_error(bytes, off, version),
                |m: SubscribeErrorView| ControlMessageView::SubscribeError(m),
            )
        } else if ty == ANNOUNCE_CONTROL_MESSAGE_ID {
            wrapped(
                parse_announce(bytes, off, version),
                |m: AnnounceView| ControlMessageView::Announce(m),
            )
        } else if ty == ANNOUNCE_OK_CONTROL_MESSAGE_ID {
            wrapped(
                parse_announce_ok(bytes, off, version),
                |m: AnnounceOkView| ControlMessageView::AnnounceOk(m),
            )
        } else if ty == CLIENT_SETUP_CONTROL_MESSAGE_ID_VERSION_UNTIL_10 || ty
            == CLIENT_SETUP_CONTROL_MESSAGE_ID {
            wrapped(
                parse_client_setup(bytes, off, version),
                |m: ClientSetupView| ControlMessageView::ClientSetup(m),
            )
        } else if ty == SUBSCRIBE_CONTROL_MESSAGE_ID {
            wrapped(
                parse_subscribe(bytes, off, version),
                |m: SubscribeView| ControlMessageView::Subscribe(m),
            )
        } else if ty == UNSUBSCRIBE_NAMESPACE_MESSAGE_ID {
            wrapped(
                parse_unsubscribe_namespace(bytes, off, version),
                |m: UnsubscribeNamespaceMessage| ControlMessageView::UnsubscribeNamespace(m),
            )
        } else {
            Err(Fault::Violation)
        },
    }
}

/// The message is one that is written, and it has a form on the given draft.
pub open spec fn control_message_encodable(m: ControlMessageView, version: Version) -> bool {
    match m {
        ControlMessageView::Subscribe(m) => subscribe_encodable(m, version),
        ControlMessageView::ClientSetup(m) => client_setup_encodable(m, version),
        ControlMessageView::ServerSetup(m) => server_setup_encodable(m, version),
        ControlMessageView::SubscribeOk(m) => subscribe_ok_encodable(m, version),
        ControlMessageView::Announce(m) => announce_encodable(m, version),
        ControlMessageView::AnnounceOk(m) => announce_ok_encodable(m, version),
        _ => false,
    }
}

/// The bytes of a control message that is written.
pub open spec fn control_message_bytes(m: ControlMessageView, version: Version) -> Seq<u8> {
    match m {
        ControlMessageView::Subscribe(m) => SubscribeMessage::serialized(m, version),
        ControlMessageView::ClientSetup(m) => ClientSetupMessage::serialized(m, version),
        ControlMessageView::ServerSetup(m) => ServerSetupMessage::serialized(m, version),
        ControlMessageView::SubscribeOk(m) => SubscribeOkMessage::serialized(m, version),
        ControlMessageView::Announce(m) => AnnounceMessage::serialized(m, version),
        ControlMessageView::AnnounceOk(m) => AnnounceOkMessage::serialized(m, version),
        _ => Seq::empty(),
    }
}

pub open spec fn control_message_invalid(m: ControlMessageView, version: Version) -> bool {
    match m {
        ControlMessageView::Subscribe(m) => SubscribeMessage::invalid(m, version),
        _ => false,
    }
}

pub open spec fn control_message_too_long(m: ControlMessageView, version: Version) -> bool {
    match m {
        ControlMessageView::Subscribe(m) => SubscribeMessage::too_long(m, version),
        ControlMessageView::ClientSetup(m) => ClientSetupMessage::too_long(m, version),
        ControlMessageView::ServerSetup(m) => ServerSetupMessage::too_long(m, version),
        ControlMessageView::SubscribeOk(m) => SubscribeOkMessage::too_long(m, version),
        ControlMessageView::Announce(m) => AnnounceMessage::too_long(m, version),
        ControlMessageView::AnnounceOk(m) => AnnounceOkMessage::too_long(m, version),
        _ => false,
    }
}

/// The length that the frame at `start` states is the length of what lies
/// behind its head.
pub open spec fn frame_length_ok(written: Seq<u8>, start: int, version: Version) -> bool {
    match parse_header(written, start, version) {
        Ok((h, o)) => written.len() - o == h.len,
        Err(_) => false,
    }
}

/// A frame that was written states the length of its payload.
pub proof fn lemma_framed_length_ok(before: Seq<u8>, ty: u64, payload: Seq<u8>, version: Version)
    requires
        ty <= MAX_VAR_INT,
        payload.len() <= max_payload_len(version),
    ensures
        frame_length_ok(before + framed(ty, payload, version), before.len() as int, version),
{
    let head = varint_bytes(ty) + length_bytes(payload.len(), version);
    let all = before + framed(ty, payload, version);
    lemma_length_bytes_len(payload.len(), version);
    lemma_varint_bytes_len(ty, varint_len(ty));
    crate::wire::varint::lemma_holds_at_self(before, framed(ty, payload, version));
    lemma_holds_at_split(all, before.len() as int, head, payload);
    lemma_frame_header_roundtrip(all, before.len() as int, ty, payload.len(), version);
}

impl ControlMessage {
    /// Whether the frame that starts at `start_off` and ends where the
    /// writer stands states the length of its payload.
    pub fn length_ok(b: &Writer, start_off: usize, version: Version) -> (r: bool)
        requires
            version_known(version),
        ensures
            r == frame_length_ok(b.written(), start_off as int, version),
    {
        let written = b.as_slice();
        let mut reader = Reader::with_slice(written);
        match reader.skip(start_off) {
            Ok(()) => {},
            Err(_) => {
                return false;
            },
        }
        match ControlMessageHeader::from_bytes(&mut reader, version) {
            Ok(h) => (reader.cap() as u64) == h.len,
            Err(_) => false,
        }
    }
}

impl FromBytes for ControlMessage {
    open spec fn parse(bytes: Seq<u8>, off: int, version: Version) -> Parsed<ControlMessageView> {
        parse_control_message(bytes, off, version)
    }

    #[verifier::rlimit(60)]
    fn from_bytes(b: &mut Reader, version: Version) -> (r: Result<Self>) {
        proof {
            let _ = Self::parse(b.bytes(), b.pos(), version);
            reveal(parse_control_message);
        }
        let _at = b.off();
        let ty = peek_varint(b)?;
        if ty == SERVER_SETUP_CONTROL_MESSAGE_ID_VERSION_UNTIL_10 || ty
            == SERVER_SETUP_CONTROL_MESSAGE_ID {
            Ok(ControlMessage::ServerSetup(ServerSetupMessage::from_bytes(b, version)?))
        } else if ty == SUBSCRIBE_OK_CONTROL_MESSAGE_ID {
            Ok(ControlMessage::SubscribeOk(SubscribeOkMessage::from_bytes(b, version)?))
        } else if ty == REQUEST_BLOCKED_CONTROL_MESSAGE_ID {
            Ok(ControlMessage::RequestBlocked(RequestBlockedMessage::from_bytes(b, version)?))
        } else if ty == SUBSCRIBE_DONE_CONTROL_MESSAGE_ID {
            Ok(ControlMessage::SubscribeDone(SubscribeDoneMessage::from_bytes(b, version)?))
        } else if ty == SUBSCRIBE_ERROR_CONTROL_MESSAGE_ID {
            Ok(ControlMessage::SubscribeError(SubscribeErrorMessage::from_bytes(b, version)?))
        } else if ty == ANNOUNCE_CONTROL_MESSAGE_ID {
            Ok(ControlMessage::Announce(AnnounceMessage::from_bytes(b, version)?))
        } else if ty == ANNOUNCE_OK_CONTROL_MESSAGE_ID {
            Ok(ControlMessage::AnnounceOk(AnnounceOkMessage::from_bytes(b, version)?))
        } else if ty == CLIENT_SETUP_CONTROL_MESSAGE_ID_VERSION_UNTIL_10 || ty
            == CLIENT_SETUP_CONTROL_MESSAGE_ID {
            Ok(ControlMessage::ClientSetup(ClientSetupMessage::from_bytes(b, version)?))
        } else if ty == SUBSCRIBE_CONTROL_MESSAGE_ID {
            Ok(ControlMessage::Subscribe(SubscribeMessage::from_bytes(b, version)?))
        } else if ty == UNSUBSCRIBE_NAMESPACE_MESSAGE_ID {
            Ok(
                ControlMessage::UnsubscribeNamespace(
                    UnsubscribeNamespaceMessage::from_bytes(b, version)?,
                ),
            )
        } else {
            Err(Error::ProtocolViolation(unexpected_control_message(ty)))
        }
    }
}

/// `format!`: the reason that refuses a control message of a type that
/// names none, with the type in decimal behind the words.
#[verifier::external_body]
fn unexpected_control_message(ty: u64) -> (s: String)
    ensures
        s@ == "unexpected control message with id "@ + decimal(ty as nat),
{
    format!("unexpected control message with id {}", ty)
}

impl ToBytes for ControlMessage {
    open spec fn encodable(v: ControlMessageView, version: Version) -> bool {
        control_message_encodable(v, version)
    }

    open spec fn invalid(v: ControlMessageView, version: Version) -> bool {
        control_message_invalid(v, version)
    }

    open spec fn too_long(v: ControlMessageView, version: Version) -> bool {
        control_message_too_long(v, version)
    }

    open spec fn serialized(v: ControlMessageView, version: Version) -> Seq<u8> {
        control_message_bytes(v, version)
    }

    fn to_bytes(&self, b: &mut Writer, version: Version) -> (r: Result<()>) {
        proof {
            let _ = Self::encodable(self@, version);
            let _ = Self::invalid(self@, version);
            let _ = Self::too_long(self@, version);
            let _ = Self::serialized(self@, version);
        }
        match self {
            ControlMessage::Subscribe(m) => m.to_bytes(b, version),
            ControlMessage::ClientSetup(m) => m.to_bytes(b, version),
            ControlMessage::AnnounceOk(m) => m.to_bytes(b, version),
            ControlMessage::ServerSetup(m) => m.to_bytes(b, version),
            ControlMessage::SubscribeOk(m) => m.to_bytes(b, version),
            ControlMessage::Announce(m) => m.to_bytes(b, version),
            _ => unreached(),
        }
    }
}

/// The message is one that is written and that reading can yield on the
/// given draft.
pub open spec fn control_message_canonical(m: ControlMessageView, version: Version) -> bool {
    match m {
        ControlMessageView::Subscribe(m) => subscribe_canonical(m, version),
        ControlMessageView::ClientSetup(m) => client_setup_canonical(m, version),
        ControlMessageView::ServerSetup(m) => server_setup_canonical(m, version),
        ControlMessageView::SubscribeOk(m) => subscribe_ok_canonical(m, version),
        ControlMessageView::Announce(m) => announce_canonical(m, version),
        ControlMessageView::AnnounceOk(m) => announce_ok_canonical(m, version),
        _ => false,
    }
}

/// The type that a written control message starts with.
pub open spec fn control_message_type(m: ControlMessageView, version: Version) -> u64 {
    match m {
        ControlMessageView::Subscribe(_) => SUBSCRIBE_CONTROL_MESSAGE_ID,
        ControlMessageView::ClientSetup(_) => client_setup::client_setup_type(version),
        ControlMessageView::ServerSetup(_) => server_setup::server_setup_type(version),
        ControlMessageView::SubscribeOk(_) => SUBSCRIBE_OK_CONTROL_MESSAGE_ID,
        ControlMessageView::Announce(_) => ANNOUNCE_CONTROL_MESSAGE_ID,
        ControlMessageView::AnnounceOk(_) => ANNOUNCE_OK_CONTROL_MESSAGE_ID,
        _ => 0,
    }
}

/// The payload of a written control message.
pub open spec fn control_message_payload(m: ControlMessageView, version: Version) -> Seq<u8> {
    match m {
        ControlMessageView::Subscribe(m) => subscribe::subscribe_payload(m, version),
        ControlMessageView::ClientSetup(m) => client_setup::client_setup_payload(m, version),
        ControlMessageView::ServerSetup(m) => server_setup::server_setup_payload(m, version),
        ControlMessageView::SubscribeOk(m) => subscribe_ok::subscribe_ok_payload(m, version),
        ControlMessageView::Announce(m) => announce::announce_payload(m, version),
        ControlMessageView::AnnounceOk(m) => announce_ok::announce_ok_payload(m, version),
        _ => Seq::empty(),
    }
}

/// A written control message is a frame: its type, the length of its
/// payload, its payload.
pub proof fn lemma_control_message_is_framed(m: ControlMessageView, version: Version)
    requires
        control_message_encodable(m, version),
    ensures
        control_message_bytes(m, version) == framed(
            control_message_type(m, version),
            control_message_payload(m, version),
            version,
        ),
        control_message_too_long(m, version) == (control_message_payload(m, version).len()
            > max_payload_len(version)),
        control_message_type(m, version) <= MAX_VAR_INT,
{
    match m {
        ControlMessageView::Subscribe(x) => {
            assert(SubscribeMessage::serialized(x, version) == message_bytes::<SubscribeMessage>(
                x,
                version,
            ));
            assert(SubscribeMessage::payload_bytes(x, version) == subscribe::subscribe_payload(
                x,
                version,
            ));
            assert(SubscribeMessage::message_type(version) == SUBSCRIBE_CONTROL_MESSAGE_ID);
            assert(SubscribeMessage::too_long(x, version) == message_too_long::<SubscribeMessage>(
                x,
                version,
            ));
        },
        ControlMessageView::ClientSetup(x) => {
            assert(ClientSetupMessage::serialized(x, version) == message_bytes::<
                ClientSetupMessage,
            >(x, version));
            assert(ClientSetupMessage::payload_bytes(x, version)
                == client_setup::client_setup_payload(x, version));
            assert(ClientSetupMessage::message_type(version) == client_setup::client_setup_type(
                version,
            ));
            assert(ClientSetupMessage::too_long(x, version) == message_too_long::<
                ClientSetupMessage,
            >(x, version));
        },
        ControlMessageView::ServerSetup(x) => {
            assert(ServerSetupMessage::serialized(x, version) == message_bytes::<
                ServerSetupMessage,
            >(x, version));
            assert(ServerSetupMessage::payload_bytes(x, version)
                == server_setup::server_setup_payload(x, version));
            assert(ServerSetupMessage::message_type(version) == server_setup::server_setup_type(
                version,
            ));
            assert(ServerSetupMessage::too_long(x, version) == message_too_long::<
                ServerSetupMessage,
            >(x, version));
        },
        ControlMessageView::SubscribeOk(x) => {
            assert(SubscribeOkMessage::serialized(x, version) == message_bytes::<
                SubscribeOkMessage,
            >(x, version));
            assert(SubscribeOkMessage::payload_bytes(x, version)
                == subscribe_ok::subscribe_ok_payload(x, version));
            assert(SubscribeOkMessage::message_type(version) == SUBSCRIBE_OK_CONTROL_MESSAGE_ID);
            assert(SubscribeOkMessage::too_long(x, version) == message_too_long::<
                SubscribeOkMessage,
            >(x, version));
        },
        ControlMessageView::Announce(x) => {
            assert(AnnounceMessage::serialized(x, version) == message_bytes::<AnnounceMessage>(
                x,
                version,
            ));
            assert(AnnounceMessage::payload_bytes(x, version) == announce::announce_payload(
                x,
                version,
            ));
            assert(AnnounceMessage::message_type(version) == ANNOUNCE_CONTROL_MESSAGE_ID);
            assert(AnnounceMessage::too_long(x, version) == message_too_long::<AnnounceMessage>(
                x,
                version,
            ));
        },
        ControlMessageView::AnnounceOk(x) => {
            assert(AnnounceOkMessage::serialized(x, version) == framed(
                ANNOUNCE_OK_CONTROL_MESSAGE_ID,
                announce_ok::announce_ok_payload(x, version),
                version,
            ));
            assert(AnnounceOkMessage::too_long(x, version) == (announce_ok::announce_ok_payload(
                x,
                version,
            ).len() > max_payload_len(version)));
        },
        _ => {},
    }
}

/// A control message that reading can yield, once written, reads back as it
/// was: where the bytes hold what the encoder writes for `m`, the decoder
/// reads `m` and stops behind it.
#[verifier::rlimit(60)]
pub proof fn lemma_control_message_roundtrip_at(
    bytes: Seq<u8>,
    off: int,
    m: ControlMessageView,
    version: Version,
)
    requires
        version_known(version),
        control_message_canonical(m, version),
        !control_message_too_long(m, version),
        holds_at(bytes, off, control_message_bytes(m, version)),
    ensures
        parse_control_message(bytes, off, version) == Ok::<(ControlMessageView, int), Fault>(
            (m, off + control_message_bytes(m, version).len()),
        ),
{
    reveal(parse_control_message);
    lemma_control_message_is_framed(m, version);
    lemma_frame_roundtrip(
        bytes,
        off,
        control_message_type(m, version),
        control_message_payload(m, version),
        version,
    );
    match m {
        ControlMessageView::Subscribe(x) => {
            assert(SubscribeMessage::serialized(x, version) == message_bytes::<SubscribeMessage>(
                x,
                version,
            ));
            assert(SubscribeMessage::too_long(x, version) == message_too_long::<SubscribeMessage>(
                x,
                version,
            ));
            subscribe::lemma_subscribe_roundtrip(bytes, off, x, version);
        },
        ControlMessageView::ClientSetup(x) => {
            assert(ClientSetupMessage::serialized(x, version) == message_bytes::<
                ClientSetupMessage,
            >(x, version));
            assert(ClientSetupMessage::too_long(x, version) == message_too_long::<
                ClientSetupMessage,
            >(x, version));
            client_setup::lemma_client_setup_roundtrip(bytes, off, x, version);
        },
        ControlMessageView::ServerSetup(x) => {
            assert(ServerSetupMessage::serialized(x, version) == message_bytes::<
                ServerSetupMessage,
            >(x, version));
            assert(ServerSetupMessage::too_long(x, version) == message_too_long::<
                ServerSetupMessage,
            >(x, version));
            server_setup::lemma_server_setup_roundtrip(bytes, off, x, version);
        },
        ControlMessageView::SubscribeOk(x) => {
            assert(SubscribeOkMessage::serialized(x, version) == message_bytes::<
                SubscribeOkMessage,
            >(x, version));
            assert(SubscribeOkMessage::too_long(x, version) == message_too_long::<
                SubscribeOkMessage,
            >(x, version));
            subscribe_ok::lemma_subscribe_ok_roundtrip(bytes, off, x, version);
        },
        ControlMessageView::Announce(x) => {
            assert(AnnounceMessage::serialized(x, version) == message_bytes::<AnnounceMessage>(
                x,
                version,
            ));
            assert(AnnounceMessage::too_long(x, version) == message_too_long::<AnnounceMessage>(
                x,
                version,
            ));
            announce::lemma_announce_roundtrip(bytes, off, x, version);
        },
        ControlMessageView::AnnounceOk(x) => {
            announce_ok::lemma_announce_ok_roundtrip(bytes, off, x, version);
        },
        _ => {},
    }
}

/// Decoding what the encoder writes gives the message back: for every draft
/// from 07 to 13 and every control message `m` that reading can yield and
/// that fits its frame, the bytes of `m` decode to `m`, and all of them are
/// read.
pub proof fn lemma_control_message_roundtrip(m: ControlMessageView, version: Version)
    requires
        version_known(version),
        control_message_canonical(m, version),
        !control_message_too_long(m, version),
    ensures
        parse_control_message(control_message_bytes(m, version), 0, version) == Ok::<
            (ControlMessageView, int),
            Fault,
        >((m, control_message_bytes(m, version).len() as int)),
{
    let bytes = control_message_bytes(m, version);
    crate::wire::varint::lemma_holds_at_self(bytes, Seq::<u8>::empty());
    assert(bytes + Seq::<u8>::empty() =~= bytes);
    lemma_control_message_roundtrip_at(bytes, 0, m, version);
}

} // verus!
