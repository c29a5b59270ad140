//! One incoming subgroup stream. It reads the header of the subgroup once,
//! and then for each object the header of the object and its payload. Bytes
//! of headers are held in a short buffer until a header is complete; the
//! bytes of a payload go to the reader as they come.

use crate::error::Error;
use crate::error::Result;
use crate::short_buf::ShortBuf;
use crate::stream_id::StreamID;
use crate::webtransport;
use crate::webtransport::connection::ConnectionView;
use crate::webtransport::stream::after_read;
use crate::webtransport::stream::drained;
use crate::webtransport::stream::when_starved;
use crate::webtransport::stream::StreamView;
use crate::webtransport::stream::min_len;
use crate::webtransport::stream::next_chunk_len;
use crate::webtransport::stream::starved_stream;
use crate::webtransport::Connection;
use crate::wire::bytes::FromBytes;
use crate::wire::error::Fault;
use crate::wire::object::parse_object_header;
use crate::wire::object::ObjectHeader;
use crate::wire::octets::Reader;
use crate::wire::prefix::decided;
use crate::wire::prefix::lemma_object_header_carries;
use crate::wire::prefix::lemma_object_header_take;
use crate::wire::prefix::lemma_subgroup_header_needs_few_bytes;
use crate::wire::prefix::lemma_subgroup_header_take;
use crate::wire::varint::begins;
use crate::wire::subgroup::parse_subgroup_header;
use crate::wire::subgroup::SubgroupHeader;
use crate::wire::version_known;
use crate::wire::SubgroupType;
use crate::wire::Version;
use vstd::prelude::*;
use vstd::slice::slice_subrange;

verus! {

/// The room of the buffer that holds headers until they are complete.
pub const BUF_LEN: usize = 100;

pub struct InStream {
    stream_id: StreamID,
    session_id: StreamID,
    version: Version,
    subgroup_header: Option<SubgroupHeader>,
    remaining_object_payload: u64,
    readable: bool,
    /// Holds the bytes of a header until the header is complete.
    buf: ShortBuf<BUF_LEN>,
    /// The connection has reported the end of the stream.
    wt_fin: bool,
}

/// What an incoming stream is in contracts.
pub struct InStreamView {
    pub stream_id: StreamID,
    pub session_id: StreamID,
    pub version: Version,
    pub subgroup_header: Option<SubgroupHeader>,
    /// The bytes of the payload of the current object that are not read yet.
    pub remaining_object_payload: u64,
    pub readable: bool,
    /// The bytes that the stream holds back.
    pub held: Seq<u8>,
    pub wt_fin: bool,
}

impl View for InStream {
    type V = InStreamView;

    closed spec fn view(&self) -> InStreamView {
        InStreamView {
            stream_id: self.stream_id,
            session_id: self.session_id,
            version: self.version,
            subgroup_header: self.subgroup_header,
            remaining_object_payload: self.remaining_object_payload,
            readable: self.readable,
            held: self.buf@,
            wt_fin: self.wt_fin,
        }
    }
}

impl InStreamView {
    /// The bytes of the stream that are still to be read: what the stream
    /// holds back, then what waits in the connection.
    pub open spec fn pending(self, wt: ConnectionView) -> Seq<u8> {
        self.held + wt.stream_or_remote(self.stream_id.0).unread()
    }

    /// The stream belongs to the session for which it reads.
    pub open spec fn attached(self, wt: ConnectionView) -> bool {
        wt.streams.contains_key(self.stream_id.0) && wt.streams[self.stream_id.0].session_id
            == Some(self.session_id.0)
    }

    /// The bytes of a header that the stream can look at at once: what it
    /// holds back, then what it can read from the connection, and no more
    /// of them than its buffer takes.
    pub open spec fn window(self, wt: ConnectionView) -> Seq<u8> {
        let all = if self.attached(wt) {
            self.pending(wt)
        } else {
            self.held
        };
        if all.len() <= BUF_LEN {
            all
        } else {
            all.take(BUF_LEN as int)
        }
    }

    /// Why the connection hands out no bytes of the stream: it has no such
    /// stream, the stream belongs to another session or to none yet, the
    /// stream has ended, or nothing has arrived.
    pub open spec fn starved(self, wt: ConnectionView, e: webtransport::Error) -> bool {
        let id = self.stream_id.0;
        if !wt.streams.contains_key(id) {
            e is NoStreamState
        } else if wt.streams[id].session_id != Some(self.session_id.0) {
            e is MissingSessionID
        } else if wt.streams[id].inbound_fin {
            e is Fin
        } else {
            e is Done
        }
    }

    /// How reading the header of an object fails where the bytes that the
    /// stream can look at end before the header does: `ObjectToLong` where
    /// the buffer is full, else what the connection says of the stream.
    /// `Fin` where it has ended, `Done` where more may come.
    pub open spec fn short_of_header(self, wt: ConnectionView, e: Error) -> bool {
        if self.window(wt).len() >= BUF_LEN {
            e is ObjectToLong
        } else {
            match e {
                Error::Done => self.starved(wt, webtransport::Error::Done),
                Error::Fin => self.starved(wt, webtransport::Error::Fin),
                Error::WT(w) => !(w is Done) && !(w is Fin) && self.starved(wt, w),
                _ => false,
            }
        }
    }
}

/// The connection has changed in no stream but `id`, and has the streams
/// that it had.
pub open spec fn only_stream_changed(before: ConnectionView, after: ConnectionView, id: u64) -> bool {
    &&& after == (ConnectionView { streams: after.streams, ..before })
    &&& after.streams.dom() == before.streams.dom()
    &&& forall|k: u64|
        k != id && before.streams.contains_key(k) ==> after.streams[k] == before.streams[k]
}

/// What the stream holds back, and the stream of the connection, once the
/// stream has taken bytes from the connection chunk by chunk until what it
/// holds back is `enough`, its buffer is full, or nothing waits in the
/// connection.
pub open spec fn fetched(held: Seq<u8>, s: StreamView, enough: spec_fn(Seq<u8>) -> bool) -> (
    Seq<u8>,
    StreamView,
)
    decreases BUF_LEN - held.len(),
{
    if enough(held) || held.len() >= BUF_LEN || s.unread().len() == 0 {
        (held, s)
    } else {
        let n = next_chunk_len(s, BUF_LEN - held.len());
        fetched(held + s.unread().take(n), after_read(s, n), enough)
    }
}

/// The bytes are enough for the header of a subgroup: reading it from them
/// does not run out of bytes.
pub open spec fn subgroup_header_enough(version: Version) -> spec_fn(Seq<u8>) -> bool {
    |held: Seq<u8>| decided(parse_subgroup_header(held, 0, version))
}

/// The bytes are enough for the header of an object: reading it from them
/// does not run out of bytes.
pub open spec fn object_header_enough(ty: SubgroupType) -> spec_fn(Seq<u8>) -> bool {
    |held: Seq<u8>| decided(parse_object_header(held, 0, ty))
}

impl InStreamView {
    /// What the stream holds back once it has taken bytes from the
    /// connection until they are `enough`. A stream that does not belong
    /// to the session takes none.
    pub open spec fn taken_in(self, wt: ConnectionView, enough: spec_fn(Seq<u8>) -> bool) -> Seq<
        u8,
    > {
        if self.attached(wt) {
            fetched(self.held, wt.streams[self.stream_id.0], enough).0
        } else {
            self.held
        }
    }

    /// The connection once the stream has taken bytes from it until they
    /// are `enough`. Where `exhausted`, the stream has found the connection
    /// empty at last.
    pub open spec fn left_in(
        self,
        wt: ConnectionView,
        enough: spec_fn(Seq<u8>) -> bool,
        exhausted: bool,
    ) -> ConnectionView {
        if self.attached(wt) {
            let left = fetched(self.held, wt.streams[self.stream_id.0], enough).1;
            wt.with_stream(
                self.stream_id.0,
                if exhausted {
                    when_starved(left)
                } else {
                    left
                },
            )
        } else {
            wt
        }
    }
}

/// What reading the header of the next object leaves behind. The header is
/// what the bytes that the stream can look at decode to, and it leaves the
/// stream; its payload is then to be read. No header is read while a
/// payload is unfinished, nor before the header of the subgroup.
pub open spec fn object_header_read(
    before: InStreamView,
    after: InStreamView,
    wt_before: ConnectionView,
    wt_after: ConnectionView,
    r: Result<ObjectHeader>,
) -> bool {
    let pending = before.pending(wt_before);
    &&& only_stream_changed(wt_before, wt_after, before.stream_id.0)
    &&& after == (InStreamView {
        held: after.held,
        remaining_object_payload: after.remaining_object_payload,
        ..before
    })
    &&& before.attached(wt_before) == after.attached(wt_after)
    &&& if before.remaining_object_payload != 0 {
        r matches Err(Error::UnfinishedPayload) && after == before && wt_after == wt_before
    } else if before.subgroup_header is None {
        r matches Err(Error::Done) && after == before && wt_after == wt_before
    } else {
        let enough = object_header_enough(before.subgroup_header->Some_0.ty);
        let taken = before.taken_in(wt_before, enough);
        match parse_object_header(
            before.window(wt_before),
            0,
            before.subgroup_header->Some_0.ty,
        ) {
            Ok((h, n)) => r is Ok && r->Ok_0@ == h && 0 < n <= pending.len() && after.pending(
                wt_after,
            ) == pending.skip(n) && after.remaining_object_payload == h.payload_len && n
                <= taken.len() && after.held == taken.skip(n) && wt_after == before.left_in(
                wt_before,
                enough,
                false,
            ),
            Err(Fault::TooShort) => r is Err && before.short_of_header(wt_before, r->Err_0)
                && after.pending(wt_after) == pending && after.remaining_object_payload == 0
                && after.held == taken && wt_after == before.left_in(
                wt_before,
                enough,
                taken.len() < BUF_LEN,
            ),
            Err(f) => r matches Err(Error::Wire(e)) && e.fault() == f && after.pending(wt_after)
                == pending && after.remaining_object_payload == 0 && after.held == taken
                && wt_after == before.left_in(wt_before, enough, false),
        }
    }
}

/// What taking in what has arrived on the stream leaves behind. A stream
/// that holds nothing back and finds nothing in the connection can no
/// longer be read, and has ended where the connection says so. A stream
/// that has its subgroup header refills its buffer where that is empty.
/// One that has none takes bytes from the connection until the header is
/// complete, and reads it: the header then leaves the buffer. Where the
/// bytes end before the header does, more are waited for; the buffer has
/// room for any header.
#[verifier::opaque]
pub open spec fn stream_read(
    before: InStreamView,
    after: InStreamView,
    wt_before: ConnectionView,
    wt_after: ConnectionView,
    r: Result<()>,
) -> bool {
    let id = before.stream_id.0;
    let s = wt_before.streams[id];
    let attached = before.attached(wt_before);
    &&& only_stream_changed(wt_before, wt_after, id)
    &&& if before.held.len() == 0 && !attached {
        r matches Err(Error::WT(w)) && before.starved(wt_before, w) && after == before && wt_after
            == wt_before
    } else if before.held.len() == 0 && s.unread().len() == 0 {
        r is Ok && wt_after == wt_before.with_stream(id, when_starved(s)) && after
            == (InStreamView {
            readable: false,
            wt_fin: before.wt_fin || s.inbound_fin,
            ..before
        })
    } else if before.subgroup_header is Some {
        r is Ok && if before.held.len() > 0 {
            after == before && wt_after == wt_before
        } else {
            let n = next_chunk_len(s, BUF_LEN as int);
            after == (InStreamView { held: s.unread().take(n), ..before }) && wt_after
                == wt_before.with_stream(id, after_read(s, n))
        }
    } else {
        let enough = subgroup_header_enough(before.version);
        let taken = before.taken_in(wt_before, enough);
        match parse_subgroup_header(taken, 0, before.version) {
            Ok((h, n)) => r is Ok && 0 < n <= taken.len() && after == (InStreamView {
                subgroup_header: Some(h),
                held: taken.skip(n),
                ..before
            }) && wt_after == before.left_in(wt_before, enough, false),
            Err(Fault::TooShort) => if !attached {
                r matches Err(Error::WT(w)) && before.starved(wt_before, w) && after == before
                    && wt_after == wt_before
            } else {
                r is Ok && after == (InStreamView {
                    held: taken,
                    wt_fin: before.wt_fin || s.inbound_fin,
                    ..before
                }) && wt_after == before.left_in(wt_before, enough, true)
            },
            Err(f) => r matches Err(Error::Wire(e)) && e.fault() == f && after == (InStreamView {
                held: taken,
                ..before
            }) && wt_after == before.left_in(wt_before, enough, false),
        }
    }
}

/// What reading bytes of the payload of the current object leaves behind.
/// The bytes come from what the stream holds back, and from the connection
/// where it holds nothing back: as many as wait there, as the object has
/// left and as the buffer of the reader takes.
pub open spec fn payload_read(
    before: InStreamView,
    after: InStreamView,
    wt_before: ConnectionView,
    wt_after: ConnectionView,
    into: Seq<u8>,
    got: Seq<u8>,
    r: Result<usize>,
) -> bool {
    let id = before.stream_id.0;
    let len = min_len(into.len() as int, before.remaining_object_payload as int);
    &&& only_stream_changed(wt_before, wt_after, id)
    &&& got.len() == into.len()
    &&& if before.held.len() > 0 {
        let n = min_len(before.held.len() as int, len);
        &&& r matches Ok(m) && m == n
        &&& wt_after == wt_before
        &&& got == before.held.take(n) + into.skip(n)
        &&& after == (InStreamView {
            held: before.held.skip(n),
            remaining_object_payload: (before.remaining_object_payload - n) as u64,
            ..before
        })
    } else if !before.attached(wt_before) {
        r matches Err(Error::WT(w)) && before.starved(wt_before, w) && after == before && wt_after
            == wt_before && got == into
    } else {
        let s = wt_before.streams[id];
        if s.unread().len() == 0 {
            &&& r is Err
            &&& if s.inbound_fin {
                r->Err_0 is Fin
            } else {
                r->Err_0 is Done
            }
            &&& starved_stream(s, wt_after.streams[id])
            &&& after == before
            &&& got == into
        } else {
            let n = next_chunk_len(s, len);
            &&& r matches Ok(m) && m == n
            &&& drained(s, wt_after.streams[id], n)
            &&& got == s.unread().take(n) + into.skip(n)
            &&& after == (InStreamView {
                remaining_object_payload: (before.remaining_object_payload - n) as u64,
                ..before
            })
        }
    }
}

/// A connection that has changed in one stream alone is the connection
/// that it was with that stream changed.
pub proof fn lemma_changed_to(before: ConnectionView, after: ConnectionView, id: u64)
    requires
        only_stream_changed(before, after, id),
        before.streams.contains_key(id),
    ensures
        after == before.with_stream(id, after.streams[id]),
{
    assert(after.streams =~= before.streams.insert(id, after.streams[id]));
}

/// What the stream holds back is a start of the bytes that it can look at,
/// as far as its buffer takes them; and these are a start of what waits on
/// the stream.
pub proof fn lemma_window_begins(s: InStreamView, wt: ConnectionView)
    requires
        s.held.len() <= BUF_LEN,
    ensures
        begins(s.window(wt), s.held),
        begins(s.pending(wt), s.window(wt)),
        s.window(wt).len() <= BUF_LEN,
        s.held.len() == BUF_LEN ==> s.window(wt) == s.held,
{
    if s.held.len() == BUF_LEN {
        assert(s.window(wt) =~= s.held);
    }
}

impl InStream {
    pub fn new(stream_id: StreamID, session_id: StreamID, version: Version) -> (s: Self)
        ensures
            s@ == (InStreamView {
                stream_id,
                session_id,
                version,
                subgroup_header: None,
                remaining_object_payload: 0,
                readable: false,
                held: Seq::empty(),
                wt_fin: false,
            }),
    {
        Self {
            stream_id,
            session_id,
            version,
            subgroup_header: None,
            remaining_object_payload: 0,
            readable: false,
            buf: ShortBuf::new(),
            wt_fin: false,
        }
    }

    pub fn mark_readable(&mut self)
        ensures
            final(self)@ == (InStreamView { readable: true, ..old(self)@ }),
    {
        self.readable = true;
    }

    pub fn readable(&self) -> (r: bool)
        ensures
            r == self@.readable,
    {
        self.readable
    }

    /// The bytes of the payload of the current object that are not read
    /// yet. 0 where the header of the next object is to be read.
    pub fn remaining_object_payload(&self) -> (r: u64)
        ensures
            r == self@.remaining_object_payload,
    {
        self.remaining_object_payload
    }

    pub fn subgroup_header(&self) -> (r: Option<&SubgroupHeader>)
        ensures
            match r {
                Some(h) => self@.subgroup_header == Some(*h),
                None => self@.subgroup_header is None,
            },
    {
        self.subgroup_header.as_ref()
    }

    /// Moves bytes that wait in the connection into the buffer, as many as
    /// it has room for. The error of the connection where none wait.
    fn fill(&mut self, wt: &mut Connection) -> (r: core::result::Result<(), webtransport::Error>)
        requires
            old(wt)@.wf(),
            old(self)@.held.len() < BUF_LEN,
        ensures
            final(wt)@.wf(),
            final(self)@.pending(final(wt)@) == old(self)@.pending(old(wt)@),
            final(self)@ == (InStreamView { held: final(self)@.held, ..old(self)@ }),
            final(self)@.held.len() <= BUF_LEN,
            only_stream_changed(old(wt)@, final(wt)@, old(self)@.stream_id.0),
            old(self)@.attached(old(wt)@) == final(self)@.attached(final(wt)@),
            final(self)@.window(final(wt)@) == old(self)@.window(old(wt)@),
            forall|e: webtransport::Error|
                final(self)@.starved(final(wt)@, e) == old(self)@.starved(old(wt)@, e),
            match r {
                Ok(()) => {
                    let s = old(wt)@.streams[old(self)@.stream_id.0];
                    &&& old(self)@.attached(old(wt)@)
                    &&& s.unread().len() > 0
                    &&& final(self)@.held == old(self)@.held + s.unread().take(
                        next_chunk_len(s, BUF_LEN - old(self)@.held.len()),
                    )
                    &&& final(self)@.held.len() > old(self)@.held.len()
                    &&& drained(
                        s,
                        final(wt)@.streams[old(self)@.stream_id.0],
                        next_chunk_len(s, BUF_LEN - old(self)@.held.len()),
                    )
                },
                Err(e) => {
                    &&& final(self)@.held == old(self)@.held
                    &&& old(self)@.held == old(self)@.window(old(wt)@)
                    &&& old(self)@.starved(old(wt)@, e)
                    &&& old(self)@.attached(old(wt)@) ==> old(wt)@.streams[old(self)@.stream_id.0].unread().len() == 0
                    &&& if old(self)@.attached(old(wt)@) {
                        starved_stream(
                            old(wt)@.streams[old(self)@.stream_id.0],
                            final(wt)@.streams[old(self)@.stream_id.0],
                        )
                    } else {
                        final(wt)@ == old(wt)@
                    }
                },
            },
    {
        let id = self.stream_id.0;
        let room = self.buf.compact();
        let mut tmp: Vec<u8> = vec![0u8; room];
        let ghost before = wt@;
        let r = wt.recv_stream(id, self.session_id.0, tmp.as_mut_slice());
        proof {
            assert(wt@.streams.dom() =~= before.streams.dom());
        }
        match r {
            Ok(n) => {
                self.buf.append(slice_subrange(tmp.as_slice(), 0, n));
                proof {
                    let s0 = before.streams[id];
                    assert(tmp@.take(n as int) =~= s0.unread().take(n as int));
                    assert(self@.pending(wt@) =~= old(self)@.pending(before));
                }
                Ok(())
            },
            Err(e) => {
                proof {
                    assert(self@.pending(wt@) =~= old(self)@.pending(before));
                    if old(self)@.attached(before) {
                        assert(old(self)@.pending(before) =~= old(self)@.held);
                    }
                }
                Err(e)
            },
        }
    }

    /// Takes in what has arrived on the stream, and reads the header of the
    /// subgroup once all of it is there.
    pub fn read(&mut self, wt: &mut Connection) -> (r: Result<()>)
        requires
            old(wt)@.wf(),
            version_known(old(self)@.version),
        ensures
            final(wt)@.wf(),
            stream_read(old(self)@, final(self)@, old(wt)@, final(wt)@, r),
            only_stream_changed(old(wt)@, final(wt)@, old(self)@.stream_id.0),
            final(self)@ == (InStreamView {
                subgroup_header: final(self)@.subgroup_header,
                held: final(self)@.held,
                readable: final(self)@.readable,
                wt_fin: final(self)@.wt_fin,
                ..old(self)@
            }),
    {
        reveal(stream_read);
        let ghost id = self@.stream_id.0;
        let ghost s0 = wt@.streams[id];
        let ghost enough = subgroup_header_enough(self@.version);
        proof {
            assert(!enough(Seq::<u8>::empty()));
        }
        if self.buf.is_empty() {
            match self.fill(wt) {
                Ok(()) => {
                    proof {
                        let n = next_chunk_len(s0, BUF_LEN as int);
                        assert(self@.held =~= s0.unread().take(n));
                        assert(old(self)@.held =~= Seq::<u8>::empty());
                        assert(old(self)@.held + s0.unread().take(n) =~= self@.held);
                        lemma_changed_to(old(wt)@, wt@, id);
                    }
                },
                Err(webtransport::Error::Done) => {
                    self.readable = false;
                    proof {
                        lemma_changed_to(old(wt)@, wt@, id);
                    }
                    return Ok(());
                },
                Err(webtransport::Error::Fin) => {
                    self.readable = false;
                    self.wt_fin = true;
                    proof {
                        lemma_changed_to(old(wt)@, wt@, id);
                    }
                    return Ok(());
                },
                Err(e) => {
                    return Err(Error::WT(e));
                },
            }
        }
        if self.subgroup_header.is_some() {
            proof {
                if old(self)@.held.len() > 0 {
                    assert(wt@ == old(wt)@);
                }
            }
            return Ok(());
        }
        let ghost attached = old(self)@.attached(old(wt)@);
        let ghost goal = fetched(old(self)@.held, s0, enough);
        // The buffer holds no more than it has room for.
        let _held = self.buf.len();
        loop
            invariant
                wt@.wf(),
                version_known(self@.version),
                id == old(self)@.stream_id.0,
                s0 == old(wt)@.streams[id],
                enough == subgroup_header_enough(old(self)@.version),
                attached == old(self)@.attached(old(wt)@),
                attached == self@.attached(wt@),
                goal == fetched(old(self)@.held, s0, enough),
                self@ == (InStreamView { held: self@.held, ..old(self)@ }),
                self@.subgroup_header is None,
                self@.held.len() <= BUF_LEN,
                only_stream_changed(old(wt)@, wt@, id),
                forall|e: webtransport::Error|
                    self@.starved(wt@, e) == old(self)@.starved(old(wt)@, e),
                attached ==> fetched(self@.held, wt@.streams[id], enough) == goal
                    && wt@.streams[id].inbound_fin == s0.inbound_fin,
                !attached ==> self@.held == old(self)@.held && wt@ == old(wt)@,
                old(self)@.held.len() == 0 ==> attached && s0.unread().len() > 0,
            decreases BUF_LEN - self@.held.len(),
        {
            reveal(stream_read);
            let ghost held = self@.held;
            let ghost s = wt@.streams[id];
            match self.take_subgroup_header() {
                Ok(true) => {
                    proof {
                        if attached {
                            lemma_changed_to(old(wt)@, wt@, id);
                        }
                    }
                    return Ok(());
                },
                Ok(false) => {},
                Err(e) => {
                    proof {
                        if attached {
                            lemma_changed_to(old(wt)@, wt@, id);
                        }
                    }
                    return Err(e);
                },
            }
            // A header that is not complete leaves room in the buffer.
            let _held = self.buf.len();
            proof {
                if held.len() >= 41 {
                    lemma_subgroup_header_needs_few_bytes(held, self@.version);
                }
            }
            match self.fill(wt) {
                Ok(()) => {},
                Err(webtransport::Error::Done) => {
                    proof {
                        assert(attached);
                        lemma_changed_to(old(wt)@, wt@, id);
                    }
                    return Ok(());
                },
                Err(webtransport::Error::Fin) => {
                    self.wt_fin = true;
                    proof {
                        assert(attached);
                        lemma_changed_to(old(wt)@, wt@, id);
                    }
                    return Ok(());
                },
                Err(e) => {
                    return Err(Error::WT(e));
                },
            }
        }
    }

    /// Reads the header of the subgroup from the buffer, where the buffer
    /// holds all of it. Returns whether it did.
    fn take_subgroup_header(&mut self) -> (r: Result<bool>)
        requires
            version_known(old(self)@.version),
            old(self)@.subgroup_header is None,
        ensures
            match parse_subgroup_header(old(self)@.held, 0, old(self)@.version) {
                Ok((h, n)) => r matches Ok(true) && 0 < n <= old(self)@.held.len() && final(self)@
                    == (InStreamView {
                    subgroup_header: Some(h),
                    held: old(self)@.held.skip(n),
                    ..old(self)@
                }),
                Err(Fault::TooShort) => r matches Ok(false) && final(self)@ == old(self)@,
                Err(f) => r matches Err(Error::Wire(e)) && e.fault() == f && final(self)@ == old(self)@,
            },
    {
        let ghost held = self@.held;
        let mut b = Reader::with_slice(self.buf.buffer());
        proof {
            assert(SubgroupHeader::parse(held, 0, self.version) == parse_subgroup_header(
                held,
                0,
                self.version,
            ));
            assert(held.take(held.len() as int) =~= held);
            lemma_subgroup_header_take(held, held.len() as int, self.version);
        }
        match SubgroupHeader::from_bytes(&mut b, self.version) {
            Ok(header) => {
                let n = b.off();
                self.subgroup_header = Some(header);
                self.buf.consume(n);
                Ok(true)
            },
            Err(e) => {
                if !e.is_too_short() {
                    return Err(Error::Wire(e));
                }
                Ok(false)
            },
        }
    }

    /// Reads the header of the next object. `Done` where not all of it has
    /// arrived, `Fin` where the stream has ended before it.
    pub fn read_obj_hdr(&mut self, wt: &mut Connection) -> (r: Result<ObjectHeader>)
        requires
            old(wt)@.wf(),
            version_known(old(self)@.version),
        ensures
            final(wt)@.wf(),
            object_header_read(old(self)@, final(self)@, old(wt)@, final(wt)@, r),
    {
        self.read_next_object_header(wt)
    }

    /// Reads the header of the next object from the buffer, and fills the
    /// buffer from the connection while the header is not complete.
    fn read_next_object_header(&mut self, wt: &mut Connection) -> (r: Result<ObjectHeader>)
        requires
            old(wt)@.wf(),
            version_known(old(self)@.version),
        ensures
            final(wt)@.wf(),
            object_header_read(old(self)@, final(self)@, old(wt)@, final(wt)@, r),
    {
        // The buffer holds no more than it has room for.
        let _held = self.buf.len();
        if self.remaining_object_payload != 0 {
            return Err(Error::UnfinishedPayload);
        }
        if self.subgroup_header.is_none() {
            return Err(Error::Done);
        }
        let ghost all = self@.pending(wt@);
        let ghost window = self@.window(wt@);
        let ghost ty = self@.subgroup_header->Some_0.ty;
        let ghost id = self@.stream_id.0;
        let ghost s0 = wt@.streams[id];
        let ghost enough = object_header_enough(ty);
        let ghost attached = self@.attached(wt@);
        let ghost goal = fetched(self@.held, s0, enough);
        loop
            invariant
                wt@.wf(),
                version_known(self@.version),
                id == old(self)@.stream_id.0,
                s0 == old(wt)@.streams[id],
                enough == object_header_enough(ty),
                attached == old(self)@.attached(old(wt)@),
                goal == fetched(old(self)@.held, s0, enough),
                attached ==> fetched(self@.held, wt@.streams[id], enough) == goal,
                !attached ==> self@.held == old(self)@.held && wt@ == old(wt)@,
                old(self)@.attached(old(wt)@) == self@.attached(wt@),
                self@.pending(wt@) == all,
                all == old(self)@.pending(old(wt)@),
                window == old(self)@.window(old(wt)@),
                self@.window(wt@) == window,
                forall|e: webtransport::Error|
                    self@.starved(wt@, e) == old(self)@.starved(old(wt)@, e),
                self@.held.len() <= BUF_LEN,
                only_stream_changed(old(wt)@, wt@, old(self)@.stream_id.0),
                self@ == (InStreamView { held: self@.held, ..old(self)@ }),
                old(self)@.subgroup_header is Some,
                ty == old(self)@.subgroup_header->Some_0.ty,
                old(self)@.remaining_object_payload == 0,
            decreases BUF_LEN - self@.held.len(),
        {
            let ghost held = self@.held;
            proof {
                lemma_window_begins(self@, wt@);
                lemma_object_header_carries(held, window, 0, ty);
            }
            proof {
                if attached {
                    lemma_changed_to(old(wt)@, wt@, id);
                }
            }
            match self.take_object_header(Ghost(wt@)) {
                Ok(Some(header)) => {
                    return Ok(header);
                },
                Ok(None) => {},
                Err(e) => {
                    return Err(e);
                },
            }
            if self.buf.len() >= BUF_LEN {
                proof {
                    assert(held =~= window);
                }
                return Err(Error::ObjectToLong);
            }
            let r = self.fill(wt);
            proof {
                if attached {
                    lemma_changed_to(old(wt)@, wt@, id);
                }
            }
            match r {
                Ok(()) => {},
                Err(webtransport::Error::Done) => {
                    return Err(Error::Done);
                },
                Err(webtransport::Error::Fin) => {
                    return Err(Error::Fin);
                },
                Err(e) => {
                    return Err(Error::WT(e));
                },
            }
        }
    }

    /// Reads the header of the next object from the buffer, where the buffer
    /// holds all of it.
    fn take_object_header(&mut self, Ghost(wt): Ghost<ConnectionView>) -> (r: Result<
        Option<ObjectHeader>,
    >)
        requires
            version_known(old(self)@.version),
            old(self)@.subgroup_header is Some,
            old(self)@.remaining_object_payload == 0,
        ensures
            final(self)@ == (InStreamView {
                held: final(self)@.held,
                remaining_object_payload: final(self)@.remaining_object_payload,
                ..old(self)@
            }),
            final(self)@.held.len() <= old(self)@.held.len(),
            match parse_object_header(old(self)@.held, 0, old(self)@.subgroup_header->Some_0.ty) {
                Ok((h, n)) => r matches Ok(Some(m)) && m@ == h && 0 < n <= old(self)@.held.len()
                    && final(self)@.held == old(self)@.held.skip(n) && final(self)@.pending(wt)
                    == old(self)@.pending(wt).skip(n) && final(self)@.remaining_object_payload
                    == h.payload_len,
                Err(Fault::TooShort) => r matches Ok(None) && final(self)@ == old(self)@,
                Err(f) => r matches Err(Error::Wire(e)) && e.fault() == f && final(self)@ == old(self)@,
            },
    {
        let subgroup_header = match self.subgroup_header {
            Some(h) => h,
            None => {
                return Err(Error::Unimplemented);
            },
        };
        let ghost all = self@.pending(wt);
        let ghost held = self@.held;
        let mut b = Reader::with_slice(self.buf.buffer());
        proof {
            assert(held.take(held.len() as int) =~= held);
            lemma_object_header_take(held, held.len() as int, subgroup_header.ty);
        }
        match ObjectHeader::from_bytes(&mut b, self.version, &subgroup_header) {
            Ok(header) => {
                let n = b.off();
                proof {
                    assert(held =~= all.take(held.len() as int));
                }
                self.buf.consume(n);
                self.remaining_object_payload = header.payload_len();
                assert(self@.pending(wt) =~= all.skip(n as int));
                Ok(Some(header))
            },
            Err(e) => {
                if !e.is_too_short() {
                    return Err(Error::Wire(e));
                }
                Ok(None)
            },
        }
    }

    /// Reads bytes of the payload of the current object into `buf`: as many
    /// as have arrived, as `buf` has room for, and as the object has left.
    /// `Done` where none have arrived.
    pub fn read_obj_pld(&mut self, wt: &mut Connection, buf: &mut [u8]) -> (r: Result<usize>)
        requires
            old(wt)@.wf(),
            old(self)@.remaining_object_payload != 0,
            old(buf)@.len() != 0,
        ensures
            final(wt)@.wf(),
            payload_read(old(self)@, final(self)@, old(wt)@, final(wt)@, old(buf)@, final(buf)@, r),
    {
        let id = self.stream_id.0;
        let len = if buf.len() as u64 <= self.remaining_object_payload {
            buf.len()
        } else {
            self.remaining_object_payload as usize
        };
        let ghost s0 = wt@.stream_or_remote(id);
        let (front, back) = buf.split_at_mut(len);
        let n = if !self.buf.is_empty() {
            let n = self.buf.read(front);
            proof {
                assert(wt@.streams.dom() =~= old(wt)@.streams.dom());
            }
            n
        } else {
            let r = wt.recv_stream(id, self.session_id.0, front);
            proof {
                assert(wt@.streams.dom() =~= old(wt)@.streams.dom());
            }
            match r {
                Ok(n) => n,
                Err(webtransport::Error::Fin) => {
                    assert(buf@ =~= old(buf)@);
                    return Err(Error::Fin);
                },
                Err(webtransport::Error::Done) => {
                    assert(buf@ =~= old(buf)@);
                    return Err(Error::Done);
                },
                Err(e) => {
                    assert(buf@ =~= old(buf)@);
                    return Err(Error::WT(e));
                },
            }
        };
        proof {
            if old(self)@.held.len() > 0 {
                assert(buf@ =~= old(self)@.held.take(n as int) + old(buf)@.skip(n as int));
            } else {
                assert(buf@ =~= s0.unread().take(n as int) + old(buf)@.skip(n as int));
            }
        }
        self.remaining_object_payload = self.remaining_object_payload - n as u64;
        Ok(n)
    }
}

} // verus!
