//! One outgoing subgroup stream. It sends the header of the subgroup once,
//! and then for each object the header of the object and its payload.

use crate::error::Error;
use crate::error::Result;
use crate::stream_id::StreamID;
use crate::webtransport;
use crate::webtransport::connection::ConnectionView;
use crate::webtransport::stream::sent;
use crate::webtransport::stream::StreamView;
use crate::webtransport::Connection;
use crate::wire::bytes::ToBytes;
use crate::wire::error::Fault;
use crate::wire::object::object_header_bytes;
use crate::wire::object::parse_object_header;
use crate::wire::subgroup::parse_subgroup_header;
use crate::wire::object::ObjectHeader;
use crate::wire::object::ObjectHeaderView;
use crate::wire::octets::Writer;
use crate::wire::subgroup::subgroup_header_bytes;
use crate::wire::subgroup::SubgroupHeader;
use crate::wire::varint::MAX_VAR_INT;
use crate::wire::version_known;
use crate::wire::version_until_10;
use crate::wire::SubgroupType;
use crate::wire::TrackAlias;
use crate::wire::Version;
use crate::wire::STREAM_HEADER_SUBGROUP_STREAM_TYPE_ID;
use vstd::prelude::*;

verus! {

/// What the stream sends next.
#[derive(Debug, Clone, Copy, PartialEq, Eq, Structural)]
pub enum State {
    /// The header of the subgroup.
    SubgroupHeader,
    /// The header of an object.
    ObjectHeader { subgroup_ty: SubgroupType },
    /// The payload of an object, of which `remaining_bytes` are still to
    /// be sent.
    ObjectPayload { subgroup_ty: SubgroupType, remaining_bytes: u64 },
}

#[derive(Debug, Clone, Copy, PartialEq, Eq, Structural)]
pub struct OutStream {
    pub stream_id: StreamID,
    pub state: State,
    pub track_alias: TrackAlias,
    pub version: Version,
}

/// The room that the buffer for a header has.
pub const HEADER_ROOM: usize = 100;

/// The type of the subgroup streams that are sent on the given draft.
pub open spec fn sent_subgroup_type(version: Version) -> SubgroupType {
    if version_until_10(version) {
        STREAM_HEADER_SUBGROUP_STREAM_TYPE_ID
    } else {
        0xD
    }
}

/// The header of the subgroup that a stream of the track sends.
pub open spec fn sent_subgroup_header(track_alias: TrackAlias, version: Version) -> SubgroupHeader {
    SubgroupHeader {
        ty: sent_subgroup_type(version),
        track_alias,
        group_id: 0,
        subgroup_id: Some(0u64),
        publisher_priority: 0,
    }
}

/// The header of an object with `size` bytes of payload.
pub open spec fn sent_object_header(size: u64, subgroup_ty: SubgroupType) -> ObjectHeaderView {
    ObjectHeaderView {
        id: 0,
        subgroup_ty,
        extension_headers: Seq::empty(),
        payload_len: size,
        status: None,
    }
}

impl OutStream {
    /// The stream is of a known draft and its track alias fits 62 bits.
    pub open spec fn wf(&self) -> bool {
        version_known(self.version) && self.track_alias <= MAX_VAR_INT
    }

    /// The bytes of the header of the subgroup where it is still to be sent.
    pub open spec fn subgroup_part(&self) -> Seq<u8> {
        if self.state is SubgroupHeader {
            subgroup_header_bytes(sent_subgroup_header(self.track_alias, self.version), self.version)
        } else {
            Seq::empty()
        }
    }

    /// The type of the subgroup of the stream.
    pub open spec fn subgroup_ty(&self) -> SubgroupType {
        match self.state {
            State::SubgroupHeader => sent_subgroup_type(self.version),
            State::ObjectHeader { subgroup_ty } => subgroup_ty,
            State::ObjectPayload { subgroup_ty, .. } => subgroup_ty,
        }
    }

    pub fn new(stream_id: StreamID, track_alias: TrackAlias, version: Version) -> (s: Self)
        ensures
            s == (OutStream { stream_id, state: State::SubgroupHeader, track_alias, version }),
    {
        Self { stream_id, state: State::SubgroupHeader, track_alias, version }
    }

    /// The bytes of the header of the subgroup.
    fn subgroup_header(&self) -> (r: Vec<u8>)
        requires
            self.wf(),
        ensures
            r@ == subgroup_header_bytes(
                sent_subgroup_header(self.track_alias, self.version),
                self.version,
            ),
            r@.len() <= HEADER_ROOM,
    {
        let subgroup = SubgroupHeader::new(self.track_alias, 0, 0, self.version);
        let mut w = Writer::with_capacity(HEADER_ROOM);
        proof {
            crate::wire::subgroup::lemma_subgroup_header_short(subgroup, self.version);
        }
        let r = subgroup.to_bytes(&mut w, self.version);
        assert(r is Ok);
        assert(w.written() =~= subgroup_header_bytes(subgroup, self.version));
        w.to_vec()
    }

    /// The bytes of the header of an object with `size` bytes of payload.
    fn object_header(&self, size: u64) -> (r: Vec<u8>)
        requires
            self.wf(),
            0 < size <= MAX_VAR_INT,
        ensures
            r@ == object_header_bytes(sent_object_header(size, self.subgroup_ty())),
            r@.len() <= HEADER_ROOM,
    {
        let subgroup_ty = match self.state {
            State::SubgroupHeader => SubgroupHeader::new(
                self.track_alias,
                0,
                0,
                self.version,
            ).ty(),
            State::ObjectHeader { subgroup_ty } => subgroup_ty,
            State::ObjectPayload { subgroup_ty, .. } => subgroup_ty,
        };
        let object_header = ObjectHeader::new(0, size, subgroup_ty);
        let mut w = Writer::with_capacity(HEADER_ROOM);
        proof {
            crate::wire::object::lemma_plain_object_header_short(object_header@);
        }
        let r = object_header.to_bytes(&mut w, self.version);
        assert(r is Ok);
        assert(w.written() =~= object_header_bytes(object_header@));
        w.to_vec()
    }

    /// Begins an object with `size` bytes of payload: sends the header of
    /// the subgroup where it is still to be sent, and then the header of the
    /// object. Each header is sent whole or not at all; `Done` where the
    /// stream has no room for the next one. `UnfinishedPayload` where the
    /// payload of the last object is not complete.
    pub fn send_obj_hdr(&mut self, size: usize, wt: &mut Connection) -> (r: Result<()>)
        requires
            size > 0,
            old(self).wf(),
            old(wt)@.wf(),
            old(wt)@.streams.contains_key(old(self).stream_id.0),
        ensures
            final(self).wf(),
            final(wt)@.wf(),
            began_object(*old(self), *final(self), old(wt)@, final(wt)@, size as u64, r),
    {
        let id = self.stream_id.0;
        if let State::ObjectPayload { .. } = self.state {
            assert(wt@.streams =~= wt@.streams.insert(id, wt@.streams[id]));
            return Err(Error::UnfinishedPayload);
        }
        if let State::SubgroupHeader = self.state {
            let header = self.subgroup_header();
            match wt.stream_send_if_capacity(id, header.as_slice(), false) {
                Ok(()) => {},
                Err(_) => {
                    assert(wt@.streams =~= old(wt)@.streams);
                    return Err(Error::Done);
                },
            }
            self.state = State::ObjectHeader { subgroup_ty: sent_subgroup_type_of(self.version) };
        }
        if size as u64 > MAX_VAR_INT {
            assert(wt@.streams =~= old(wt)@.streams.insert(id, wt@.streams[id]));
            return Err(Error::ObjectToLong);
        }
        let header = self.object_header(size as u64);
        let ghost mid = wt@;
        match wt.stream_send_if_capacity(id, header.as_slice(), false) {
            Ok(()) => {},
            Err(_) => {
                assert(wt@.streams =~= mid.streams);
                return Err(Error::Done);
            },
        }
        let subgroup_ty = match self.state {
            State::ObjectHeader { subgroup_ty } => subgroup_ty,
            _ => 0,
        };
        self.state = State::ObjectPayload { subgroup_ty, remaining_bytes: size as u64 };
        proof {
            let s0 = old(wt)@.streams[id];
            let h = old(self).subgroup_part();
            let o = object_header_bytes(sent_object_header(size as u64, old(self).subgroup_ty()));
            assert(s0.outbound + s0.prefix() + h + o =~= s0.outbound + s0.prefix() + (h + o));
            if old(self).state is SubgroupHeader {
                assert(mid.streams[id].prefix() =~= Seq::<u8>::empty());
                assert(s0.outbound + s0.prefix() + h + Seq::<u8>::empty() + o =~= s0.outbound
                    + s0.prefix() + (h + o));
            } else {
                assert(s0.outbound + s0.prefix() + o =~= s0.outbound + s0.prefix() + (h + o));
            }
            assert(wt@.streams =~= old(wt)@.streams.insert(id, wt@.streams[id]));
        }
        Ok(())
    }

    /// Sends bytes of the payload of the object that was begun, as many as
    /// the stream takes. `Done` where it takes none.
    pub fn send_obj_pld(&mut self, buf: &[u8], wt: &mut Connection) -> (r: Result<usize>)
        requires
            old(self).state matches State::ObjectPayload { remaining_bytes, .. } && buf@.len()
                <= remaining_bytes,
            old(wt)@.wf(),
            old(wt)@.streams.contains_key(old(self).stream_id.0),
        ensures
            final(wt)@.wf(),
            final(wt)@.streams.contains_key(old(self).stream_id.0),
            final(wt)@ == old(wt)@.with_stream(
                old(self).stream_id.0,
                final(wt)@.streams[old(self).stream_id.0],
            ),
            sent_payload(
                *old(self),
                *final(self),
                old(wt)@.streams[old(self).stream_id.0],
                final(wt)@.streams[old(self).stream_id.0],
                buf@,
                r,
            ),
    {
        let id = self.stream_id.0;
        let n = match wt.stream_send(id, buf, false) {
            Ok(v) => v,
            Err(_) => {
                return Err(Error::Done);
            },
        };
        if let State::ObjectPayload { subgroup_ty, remaining_bytes } = self.state {
            let left = remaining_bytes - n as u64;
            if left == 0 {
                self.state = State::ObjectHeader { subgroup_ty };
            } else {
                self.state = State::ObjectPayload { subgroup_ty, remaining_bytes: left };
            }
        }
        Ok(n)
    }

    /// Sends one whole object, its headers and its payload, or nothing:
    /// `Done` where the stream has no room for all of it.
    pub fn send_obj(&mut self, wt: &mut Connection, buf: &[u8]) -> (r: Result<()>)
        requires
            buf@.len() > 0,
            old(self).wf(),
            old(wt)@.wf(),
            old(wt)@.streams.contains_key(old(self).stream_id.0),
        ensures
            final(self).wf(),
            final(wt)@.wf(),
            sent_object(*old(self), *final(self), old(wt)@, final(wt)@, buf@, r),
    {
        let id = self.stream_id.0;
        if let State::ObjectPayload { .. } = self.state {
            return Err(Error::UnfinishedPayload);
        }
        if buf.len() as u64 > MAX_VAR_INT {
            return Err(Error::ObjectToLong);
        }
        let first: usize = if let State::SubgroupHeader = self.state {
            self.subgroup_header().len()
        } else {
            0
        };
        let second = self.object_header(buf.len() as u64).len();
        let capacity = match wt.stream_capacity(id) {
            Ok(c) => c,
            Err(_) => 0,
        };
        let ghost s0 = wt@.streams[id];
        if capacity < first + second || capacity - (first + second) < buf.len() || (
        !wt.stream_ready(id)) {
            return Err(Error::Done);
        }
        let ghost h = self.subgroup_part();
        let ghost o = object_header_bytes(
            sent_object_header(buf@.len() as u64, self.subgroup_ty()),
        );
        let r1 = self.send_obj_hdr(buf.len(), wt);
        assert(r1 is Ok);
        let ghost s1 = wt@.streams[id];
        let r2 = self.send_obj_pld(buf, wt);
        assert(r2 is Ok && r2->Ok_0 == buf@.len());
        proof {
            assert(buf@.take(buf@.len() as int) =~= buf@);
            assert(s1.prefix() =~= Seq::<u8>::empty());
            assert(s0.outbound + s0.prefix() + (h + o) + Seq::<u8>::empty() + buf@ =~= s0.outbound
                + s0.prefix() + (h + o + buf@));
            assert(wt@.streams =~= old(wt)@.streams.insert(id, wt@.streams[id]));
        }
        Ok(())
    }
}

/// The type of the subgroup streams that are sent on the given draft.
pub fn sent_subgroup_type_of(version: Version) -> (r: SubgroupType)
    requires
        version_known(version),
    ensures
        r == sent_subgroup_type(version),
{
    SubgroupHeader::new(0, 0, 0, version).ty()
}

/// What beginning an object of `size` bytes leaves behind, on the stream
/// and on the connection.
pub open spec fn began_object(
    before: OutStream,
    after: OutStream,
    wt_before: ConnectionView,
    wt_after: ConnectionView,
    size: u64,
    r: Result<()>,
) -> bool {
    let id = before.stream_id.0;
    let s0 = wt_before.streams[id];
    let h = before.subgroup_part();
    let o = object_header_bytes(sent_object_header(size, before.subgroup_ty()));
    &&& after.stream_id == before.stream_id
    &&& after.track_alias == before.track_alias
    &&& after.version == before.version
    &&& wt_after.streams.contains_key(id)
    &&& wt_after == wt_before.with_stream(id, wt_after.streams[id])
    &&& if before.state is ObjectPayload {
        r is Err && r->Err_0 is UnfinishedPayload && after == before && wt_after == wt_before
    } else if before.state is SubgroupHeader && (s0.credit < s0.prefix().len() || s0.capacity()
        < h.len()) {
        r is Err && r->Err_0 is Done && after == before && wt_after == wt_before
    } else if size > MAX_VAR_INT || s0.credit < s0.prefix().len() || s0.capacity() < h.len()
        + o.len() {
        &&& r is Err
        &&& size > MAX_VAR_INT ==> r->Err_0 is ObjectToLong
        &&& size <= MAX_VAR_INT ==> r->Err_0 is Done
        &&& after.state == (State::ObjectHeader { subgroup_ty: before.subgroup_ty() })
        &&& if before.state is SubgroupHeader {
            wt_after.streams[id] == (StreamView {
                sent_session_id: true,
                outbound: s0.outbound + s0.prefix() + h,
                credit: (s0.capacity() - h.len()) as nat,
                ..s0
            })
        } else {
            wt_after == wt_before
        }
    } else {
        &&& r is Ok
        &&& after.state == (State::ObjectPayload {
            subgroup_ty: before.subgroup_ty(),
            remaining_bytes: size,
        })
        &&& wt_after.streams[id] == (StreamView {
            sent_session_id: true,
            outbound: s0.outbound + s0.prefix() + (h + o),
            credit: (s0.capacity() - h.len() - o.len()) as nat,
            ..s0
        })
    }
}

/// What sending bytes of a payload leaves behind: the stream has sent what
/// it could take, and the object is complete when nothing of it remains.
pub open spec fn sent_payload(
    before: OutStream,
    after: OutStream,
    s0: StreamView,
    s1: StreamView,
    buf: Seq<u8>,
    r: Result<usize>,
) -> bool {
    let left = before.state->ObjectPayload_remaining_bytes;
    let ty = before.state->ObjectPayload_subgroup_ty;
    &&& after.stream_id == before.stream_id
    &&& after.track_alias == before.track_alias
    &&& after.version == before.version
    &&& match r {
        Ok(n) => {
            &&& sent(s0, s1, buf, Ok::<usize, webtransport::Error>(n))
            &&& after.state == if left == n {
                State::ObjectHeader { subgroup_ty: ty }
            } else {
                State::ObjectPayload { subgroup_ty: ty, remaining_bytes: (left - n) as u64 }
            }
        },
        Err(e) => {
            &&& e is Done
            &&& sent(s0, s1, buf, Err::<usize, webtransport::Error>(webtransport::Error::Done))
            &&& after == before
        },
    }
}

/// What sending one whole object leaves behind: all of it on the stream, or
/// nothing.
pub open spec fn sent_object(
    before: OutStream,
    after: OutStream,
    wt_before: ConnectionView,
    wt_after: ConnectionView,
    buf: Seq<u8>,
    r: Result<()>,
) -> bool {
    let id = before.stream_id.0;
    let s0 = wt_before.streams[id];
    let h = before.subgroup_part();
    let o = object_header_bytes(sent_object_header(buf.len() as u64, before.subgroup_ty()));
    &&& after.stream_id == before.stream_id
    &&& after.track_alias == before.track_alias
    &&& after.version == before.version
    &&& match r {
        Ok(()) => {
            &&& !(before.state is ObjectPayload)
            &&& 0 < buf.len() <= MAX_VAR_INT
            &&& s0.credit >= s0.prefix().len()
            &&& s0.capacity() >= h.len() + o.len() + buf.len()
            &&& after.state == (State::ObjectHeader { subgroup_ty: before.subgroup_ty() })
            &&& wt_after.streams.contains_key(id)
            &&& wt_after == wt_before.with_stream(id, wt_after.streams[id])
            &&& wt_after.streams[id] == (StreamView {
                sent_session_id: true,
                outbound: s0.outbound + s0.prefix() + (h + o + buf),
                credit: (s0.capacity() - h.len() - o.len() - buf.len()) as nat,
                ..s0
            })
        },
        Err(e) => {
            &&& after == before
            &&& wt_after == wt_before
            &&& if before.state is ObjectPayload {
                e is UnfinishedPayload
            } else if buf.len() > MAX_VAR_INT {
                e is ObjectToLong
            } else {
                e is Done && (s0.credit < s0.prefix().len() || s0.capacity() < h.len() + o.len()
                    + buf.len())
            }
        },
    }
}

/// What a new stream sends for its first object reads back on the other
/// side: the bytes that `send_obj` puts on the stream, behind the session
/// id, are the header of the subgroup, the header of the object with the
/// length of the payload, and the payload, byte for byte.
pub proof fn lemma_sent_object_reads_back(
    before: OutStream,
    after: OutStream,
    wt_before: ConnectionView,
    wt_after: ConnectionView,
    buf: Seq<u8>,
)
    requires
        before.wf(),
        before.state is SubgroupHeader,
        sent_object(before, after, wt_before, wt_after, buf, Ok::<(), Error>(())),
    ensures
        ({
            let id = before.stream_id.0;
            let s0 = wt_before.streams[id];
            let sent = wt_after.streams[id].outbound.skip(
                (s0.outbound.len() + s0.prefix().len()) as int,
            );
            let h = sent_subgroup_header(before.track_alias, before.version);
            let o = sent_object_header(buf.len() as u64, h.ty);
            let first = subgroup_header_bytes(h, before.version).len() as int;
            let second = object_header_bytes(o).len() as int;
            &&& parse_subgroup_header(sent, 0, before.version) == Ok::<
                (SubgroupHeader, int),
                Fault,
            >((h, first))
            &&& parse_object_header(sent, first, h.ty) == Ok::<(ObjectHeaderView, int), Fault>(
                (o, first + second),
            )
            &&& o.payload_len == buf.len()
            &&& sent.subrange(first + second, first + second + buf.len()) == buf
        }),
{
    let id = before.stream_id.0;
    let s0 = wt_before.streams[id];
    let h = sent_subgroup_header(before.track_alias, before.version);
    let o = sent_object_header(buf.len() as u64, h.ty);
    let all = subgroup_header_bytes(h, before.version) + object_header_bytes(o) + buf;
    let sent = wt_after.streams[id].outbound.skip((s0.outbound.len() + s0.prefix().len()) as int);
    assert(sent =~= all);
    crate::wire::varint::lemma_holds_at_self(all, Seq::<u8>::empty());
    assert(all + Seq::<u8>::empty() =~= all);
    crate::wire::object::lemma_plain_object_header_short(o);
    crate::wire::object::lemma_object_on_stream_roundtrip(sent, h, o, buf, before.version);
}

} // verus!
