//! One WebTransport stream. QUIC stands behind it as two queues of bytes:
//! what has arrived and is not read yet, and what was sent and is not handed
//! on yet, with the number of bytes that QUIC will take.

use super::error::Error;
use super::error::Result;
use super::MAX_VARINT_LEN;
use crate::short_buf::ShortBuf;
use crate::wire::octets::Reader;
use crate::wire::octets::Writer;
use crate::wire::varint::lemma_parse_varint_take;
use crate::wire::varint::lemma_varint_bytes_len;
use crate::wire::varint::parse_varint;
use crate::wire::varint::varint_bytes;
use crate::wire::varint::varint_len;
use crate::wire::varint::MAX_VAR_INT;
use vstd::prelude::*;
use vstd::slice::slice_subrange;

verus! {

pub struct Stream {
    stream_id: u64,
    session_id: Option<u64>,
    /// Holds the start of a stream until its session id is complete.
    buf: ShortBuf<MAX_VARINT_LEN>,
    readable: bool,
    /// QUIC has delivered the end of the stream and all bytes before it.
    quic_finished: bool,
    /// The stream has ended and nothing is buffered: its state can go.
    finished: bool,
    /// The session id has been sent on the stream. Always true for a stream
    /// that the peer opened.
    sent_session_id: bool,
    inbound: Vec<u8>,
    inbound_fin: bool,
    outbound: Vec<u8>,
    credit: usize,
    reset: Option<u64>,
}

/// What a stream is in contracts.
pub struct StreamView {
    pub stream_id: u64,
    pub session_id: Option<u64>,
    /// The bytes that the stream holds back.
    pub held: Seq<u8>,
    pub readable: bool,
    pub quic_finished: bool,
    pub finished: bool,
    pub sent_session_id: bool,
    /// The bytes that have arrived and were not taken yet.
    pub inbound: Seq<u8>,
    /// The end of the stream has arrived.
    pub inbound_fin: bool,
    /// The bytes that were sent and were not handed on yet.
    pub outbound: Seq<u8>,
    /// How many more bytes can be sent.
    pub credit: nat,
    /// The code with which sending was given up.
    pub reset: Option<u64>,
}

impl View for Stream {
    type V = StreamView;

    closed spec fn view(&self) -> StreamView {
        StreamView {
            stream_id: self.stream_id,
            session_id: self.session_id,
            held: self.buf@,
            readable: self.readable,
            quic_finished: self.quic_finished,
            finished: self.finished,
            sent_session_id: self.sent_session_id,
            inbound: self.inbound@,
            inbound_fin: self.inbound_fin,
            outbound: self.outbound@,
            credit: self.credit as nat,
            reset: self.reset,
        }
    }
}

impl StreamView {
    /// The state of a stream that the peer has opened, before any byte of it
    /// is read.
    pub open spec fn remote(stream_id: u64) -> StreamView {
        StreamView {
            stream_id,
            session_id: None,
            held: Seq::empty(),
            readable: false,
            quic_finished: false,
            finished: false,
            sent_session_id: true,
            inbound: Seq::empty(),
            inbound_fin: false,
            outbound: Seq::empty(),
            credit: 0,
            reset: None,
        }
    }

    /// The state of a stream that this endpoint has opened in a session,
    /// before any byte is sent on it.
    pub open spec fn local(stream_id: u64, session_id: u64) -> StreamView {
        StreamView {
            stream_id,
            session_id: Some(session_id),
            held: Seq::empty(),
            readable: false,
            quic_finished: false,
            finished: false,
            sent_session_id: false,
            inbound: Seq::empty(),
            inbound_fin: false,
            outbound: Seq::empty(),
            credit: 0,
            reset: None,
        }
    }

    /// A stream that still has to send its session id knows it.
    pub open spec fn wf(self) -> bool {
        !self.sent_session_id ==> (self.session_id matches Some(id) && id <= MAX_VAR_INT)
    }

    /// The bytes that the session id takes on the stream where it is still
    /// to be sent.
    pub open spec fn prefix(self) -> Seq<u8> {
        if self.sent_session_id {
            Seq::empty()
        } else {
            varint_bytes(self.session_id->Some_0)
        }
    }

    /// The bytes that the application reads next: what is held back, then
    /// what has arrived.
    pub open spec fn unread(self) -> Seq<u8> {
        self.held + self.inbound
    }

    /// How many bytes of the application can be sent at once.
    pub open spec fn capacity(self) -> nat {
        if self.credit >= self.prefix().len() {
            (self.credit - self.prefix().len()) as nat
        } else {
            0
        }
    }
}

/// The smaller of two lengths.
pub open spec fn min_len(a: int, b: int) -> int {
    if a <= b {
        a
    } else {
        b
    }
}

/// How many bytes one read takes from the stream into a buffer with `room`
/// bytes: what the stream holds back goes first, and it goes alone.
pub open spec fn next_chunk_len(s: StreamView, room: int) -> int {
    min_len(
        if s.held.len() > 0 {
            s.held.len() as int
        } else {
            s.inbound.len() as int
        },
        room,
    )
}

/// The stream after `n` bytes were read from it: from what it holds back,
/// or from what has arrived where it holds nothing back. QUIC has finished
/// once the end has arrived and nothing that has arrived is left.
pub open spec fn after_read(before: StreamView, n: int) -> StreamView {
    let inbound = if before.held.len() > 0 {
        before.inbound
    } else {
        before.inbound.skip(n)
    };
    StreamView {
        held: if before.held.len() > 0 {
            before.held.skip(n)
        } else {
            before.held
        },
        inbound,
        quic_finished: before.quic_finished || (before.inbound_fin && inbound.len() == 0),
        ..before
    }
}

/// `after` is the stream `before` after `n` bytes were read from it.
pub open spec fn drained(before: StreamView, after: StreamView, n: int) -> bool {
    after == after_read(before, n)
}

/// A stream of a session after a read that found no bytes: it is finished
/// where its end has arrived.
pub open spec fn when_starved(before: StreamView) -> StreamView {
    StreamView {
        finished: before.finished || before.inbound_fin,
        quic_finished: before.quic_finished || before.inbound_fin,
        ..before
    }
}

/// The stream with the bytes that have arrived moved into its buffer, as
/// many as the buffer has room for.
pub open spec fn buffered(s: StreamView) -> StreamView {
    let n = min_len(MAX_VARINT_LEN - s.held.len(), s.inbound.len() as int);
    StreamView { held: s.held + s.inbound.take(n), inbound: s.inbound.skip(n), ..s }
}

/// A stream of a session after a read that found no bytes: it is finished
/// where its end has arrived.
pub open spec fn starved_stream(before: StreamView, after: StreamView) -> bool {
    after == when_starved(before)
}

/// What reading from a stream into a buffer leaves behind. Where bytes
/// wait, as many as the buffer takes are read, first from what the stream
/// holds back and else from what has arrived. Where none wait the read fails:
/// with `Fin` once the end of the stream has arrived, with `Done` before.
/// A stream that knows no session yet is not read.
pub open spec fn received(
    before: StreamView,
    after: StreamView,
    into: Seq<u8>,
    got: Seq<u8>,
    r: Result<usize>,
) -> bool {
    &&& got.len() == into.len()
    &&& if before.session_id is None {
        r == Err::<usize, Error>(Error::MissingSessionID) && got == into && after == before
    } else if before.unread().len() == 0 {
        &&& r == Err::<usize, Error>(
            if before.inbound_fin {
                Error::Fin
            } else {
                Error::Done
            },
        )
        &&& got == into
        &&& starved_stream(before, after)
    } else {
        let n = next_chunk_len(before, into.len() as int);
        &&& r == Ok::<usize, Error>(n as usize)
        &&& got == before.unread().take(n) + into.skip(n)
        &&& drained(before, after, n)
    }
}

/// What sending bytes on a stream leaves behind. The session id goes first
/// where it is still to be sent, then as many of the bytes as the stream
/// takes. `Done` where it takes none.
pub open spec fn sent(before: StreamView, after: StreamView, buf: Seq<u8>, r: Result<usize>) -> bool {
    &&& after.wf()
    &&& match r {
        Ok(n) => {
            &&& before.credit >= before.prefix().len()
            &&& n == min_len(before.capacity() as int, buf.len() as int)
            &&& n > 0 || buf.len() == 0
            &&& after == (StreamView {
                sent_session_id: true,
                outbound: before.outbound + before.prefix() + buf.take(n as int),
                credit: (before.capacity() - n) as nat,
                ..before
            })
        },
        Err(e) => {
            &&& e == Error::Done
            &&& before.capacity() == 0
            &&& if before.credit >= before.prefix().len() {
                buf.len() > 0 && after == (StreamView {
                    sent_session_id: true,
                    outbound: before.outbound + before.prefix(),
                    credit: 0,
                    ..before
                })
            } else {
                after == before
            }
        },
    }
}

/// What sending all of some bytes or nothing leaves behind.
pub open spec fn sent_whole(before: StreamView, after: StreamView, buf: Seq<u8>, r: Result<()>) -> bool {
    &&& after.wf()
    &&& match r {
        Ok(()) => before.capacity() >= buf.len() && before.credit >= before.prefix().len()
            && after == (StreamView {
            sent_session_id: true,
            outbound: before.outbound + before.prefix() + buf,
            credit: (before.capacity() - buf.len()) as nat,
            ..before
        }),
        Err(e) => e == Error::InsufficientCapacity && (before.capacity() < buf.len()
            || before.credit < before.prefix().len()) && after == before,
    }
}

/// Takes `n` bytes off the front of `v`.
fn drop_front(v: &mut Vec<u8>, n: usize)
    requires
        n <= old(v)@.len(),
    ensures
        final(v)@ == old(v)@.skip(n as int),
{
    let rest = v.split_off(n);
    *v = rest;
    assert(v@ =~= old(v)@.skip(n as int));
}

/// Copies the first `n` bytes of `src` to the front of `dst`.
fn copy_front(dst: &mut [u8], src: &[u8], n: usize)
    requires
        n <= src@.len(),
        n <= old(dst)@.len(),
    ensures
        final(dst)@ == src@.take(n as int) + old(dst)@.skip(n as int),
{
    let mut i: usize = 0;
    while i < n
        invariant
            i <= n,
            n <= src@.len(),
            n <= dst@.len(),
            dst@.len() == old(dst)@.len(),
            forall|k: int| 0 <= k < i ==> dst@[k] == src@[k],
            forall|k: int| i <= k < dst@.len() ==> dst@[k] == old(dst)@[k],
        decreases n - i,
    {
        dst[i] = src[i];
        i += 1;
    }
    assert(dst@ =~= src@.take(n as int) + old(dst)@.skip(n as int));
}

impl Stream {
    /// The state of a stream that the peer opened. Its session id is read
    /// from its first bytes.
    pub fn new_remote(stream_id: u64) -> (s: Self)
        ensures
            s@ == StreamView::remote(stream_id),
            s@.wf(),
    {
        Self {
            stream_id,
            buf: ShortBuf::new(),
            session_id: None,
            readable: false,
            quic_finished: false,
            finished: false,
            sent_session_id: true,
            inbound: Vec::new(),
            inbound_fin: false,
            outbound: Vec::new(),
            credit: 0,
            reset: None,
        }
    }

    /// The state of a stream that this endpoint opened in the session
    /// `session_id`. The session id is sent before the first bytes.
    pub fn with_session(stream_id: u64, session_id: u64) -> (s: Self)
        requires
            session_id <= MAX_VAR_INT,
        ensures
            s@ == StreamView::local(stream_id, session_id),
            s@.wf(),
    {
        Self {
            stream_id,
            buf: ShortBuf::new(),
            session_id: Some(session_id),
            readable: false,
            quic_finished: false,
            finished: false,
            sent_session_id: false,
            inbound: Vec::new(),
            inbound_fin: false,
            outbound: Vec::new(),
            credit: 0,
            reset: None,
        }
    }

    pub fn stream_id(&self) -> (r: u64)
        ensures
            r == self@.stream_id,
    {
        self.stream_id
    }

    pub fn session_id(&self) -> (r: Option<u64>)
        ensures
            r == self@.session_id,
    {
        self.session_id
    }

    pub fn readable(&self) -> (r: bool)
        ensures
            r == self@.readable,
    {
        self.readable
    }

    pub fn set_readable(&mut self, readable: bool)
        ensures
            final(self)@ == (StreamView { readable, ..old(self)@ }),
    {
        self.readable = readable;
    }

    /// The stream has ended and nothing is buffered: its state can go.
    pub fn finished(&self) -> (r: bool)
        ensures
            r == self@.finished,
    {
        self.finished
    }

    /// Bytes have arrived, or the end of the stream has.
    pub fn has_inbound(&self) -> (r: bool)
        ensures
            r == (self@.inbound.len() > 0 || (self@.inbound_fin && !self@.quic_finished)),
    {
        self.inbound.len() > 0 || (self.inbound_fin && !self.quic_finished)
    }

    /// Takes in bytes that QUIC has delivered on the stream, and the end of
    /// the stream where `fin`.
    pub fn deliver(&mut self, data: &[u8], fin: bool)
        ensures
            final(self)@ == (StreamView {
                inbound: old(self)@.inbound + data@,
                inbound_fin: old(self)@.inbound_fin || fin,
                ..old(self)@
            }),
    {
        self.inbound.extend_from_slice(data);
        self.inbound_fin = self.inbound_fin || fin;
        assert(self.inbound@ =~= old(self).inbound@ + data@);
    }

    /// Lets the stream send `credit` bytes more.
    pub fn grant(&mut self, credit: usize)
        ensures
            final(self)@ == (StreamView {
                credit: if old(self)@.credit + credit <= usize::MAX {
                    (old(self)@.credit + credit) as nat
                } else {
                    usize::MAX as nat
                },
                ..old(self)@
            }),
    {
        self.credit = self.credit.saturating_add(credit);
    }

    /// Hands out the bytes that were sent on the stream, for QUIC to take.
    pub fn take_outbound(&mut self) -> (r: Vec<u8>)
        ensures
            r@ == old(self)@.outbound,
            final(self)@ == (StreamView { outbound: Seq::empty(), ..old(self)@ }),
    {
        let mut out: Vec<u8> = Vec::new();
        std::mem::swap(&mut out, &mut self.outbound);
        out
    }

    /// Gives up sending on the stream with the code `code`.
    pub fn shutdown(&mut self, code: u64)
        ensures
            final(self)@ == (StreamView { reset: Some(code), ..old(self)@ }),
    {
        self.reset = Some(code);
    }

    /// The code with which sending was given up.
    pub fn reset(&self) -> (r: Option<u64>)
        ensures
            r == self@.reset,
    {
        self.reset
    }

    /// Moves bytes that have arrived into the buffer of the stream, as many
    /// as it has room for.
    pub fn fill_buf(&mut self) -> (r: Result<()>)
        ensures
            final(self)@ == buffered(old(self)@),
            final(self)@.unread() == old(self)@.unread(),
            final(self)@.held.len() == min_len(
                (old(self)@.held.len() + old(self)@.inbound.len()) as int,
                MAX_VARINT_LEN as int,
            ),
            r == if old(self)@.inbound.len() > 0 {
                Ok::<(), Error>(())
            } else {
                Err::<(), Error>(Error::Done)
            },
    {
        if self.inbound.len() == 0 {
            // The buffer holds no more than it has room for.
            let _held = self.buf.len();
            assert(self@.held + self@.inbound.take(0) =~= self@.held);
            assert(self@.inbound.skip(0) =~= self@.inbound);
            return Err(Error::Done);
        }
        let room = self.buf.compact();
        let n = if room <= self.inbound.len() {
            room
        } else {
            self.inbound.len()
        };
        self.buf.append(slice_subrange(self.inbound.as_slice(), 0, n));
        drop_front(&mut self.inbound, n);
        assert(self@.unread() =~= old(self)@.unread());
        Ok(())
    }

    /// The id of the session that the stream belongs to. A stream that the
    /// peer opened says it in its first bytes; `Done` where these have not
    /// all arrived.
    pub fn read_session_id(&mut self) -> (r: Result<u64>)
        ensures
            match old(self)@.session_id {
                Some(id) => r == Ok::<u64, Error>(id) && final(self)@ == old(self)@,
                None => match parse_varint(old(self)@.unread(), 0) {
                    Ok((id, next)) => r == Ok::<u64, Error>(id) && final(self)@.unread() == old(self)@.unread().skip(next) && final(self)@ == (StreamView {
                        session_id: Some(id),
                        held: buffered(old(self)@).held.skip(next),
                        ..buffered(old(self)@)
                    }),
                    Err(_) => r == Err::<u64, Error>(Error::Done) && final(self)@ == buffered(
                        old(self)@,
                    ),
                },
            },
    {
        match self.session_id {
            Some(v) => Ok(v),
            None => {
                let _ = self.fill_buf();
                let ghost all = self@.unread();
                let ghost held = self@.held;
                proof {
                    assert(held =~= all.take(held.len() as int));
                    lemma_parse_varint_take(all, held.len() as int);
                }
                let mut b = Reader::with_slice(self.buf.buffer());
                match b.get_varint() {
                    Ok(session_id) => {
                        let n = b.off();
                        self.buf.consume(n);
                        self.session_id = Some(session_id);
                        assert(self@.unread() =~= all.skip(n as int));
                        Ok(session_id)
                    },
                    Err(_) => Err(Error::Done),
                }
            },
        }
    }

    /// Reads from the stream into `b`: first what the stream holds back,
    /// then what has arrived. `Fin` where the stream has ended and all of it
    /// has been read, `Done` where nothing has arrived.
    pub fn recv(&mut self, b: &mut [u8]) -> (r: Result<usize>)
        ensures
            received(old(self)@, final(self)@, old(b)@, final(b)@, r),
    {
        if self.session_id.is_none() {
            return Err(Error::MissingSessionID);
        }
        if !self.buf.is_empty() {
            let n = self.buf.read(b);
            if self.inbound_fin && self.inbound.len() == 0 {
                self.quic_finished = true;
            }
            assert(old(self)@.unread().take(n as int) =~= old(self)@.held.take(n as int));
            assert(self@.unread() =~= old(self)@.unread().skip(n as int));
            return Ok(n);
        }
        assert(old(self)@.unread() =~= old(self)@.inbound);
        if self.inbound.len() == 0 {
            if self.inbound_fin {
                self.quic_finished = true;
                self.finished = true;
                return Err(Error::Fin);
            }
            return Err(Error::Done);
        }
        let n = if self.inbound.len() <= b.len() {
            self.inbound.len()
        } else {
            b.len()
        };
        copy_front(b, self.inbound.as_slice(), n);
        drop_front(&mut self.inbound, n);
        if self.inbound_fin && self.inbound.len() == 0 {
            self.quic_finished = true;
        }
        assert(self@.unread() =~= old(self)@.unread().skip(n as int));
        Ok(n)
    }

    /// How many bytes the session id takes on the stream where it is still
    /// to be sent.
    fn prefix_len(&self) -> (r: usize)
        requires
            self@.wf(),
        ensures
            r == self@.prefix().len(),
            r <= MAX_VARINT_LEN,
    {
        if self.sent_session_id {
            return 0;
        }
        let id = match self.session_id {
            Some(id) => id,
            None => 0,
        };
        proof {
            lemma_varint_bytes_len(id, varint_len(id));
        }
        if id <= 63 {
            1
        } else if id <= 16383 {
            2
        } else if id <= 1_073_741_823 {
            4
        } else {
            8
        }
    }

    /// The stream has room for its session id where that is still to be
    /// sent.
    pub fn ready(&self) -> (r: bool)
        requires
            self@.wf(),
        ensures
            r == (self@.credit >= self@.prefix().len()),
    {
        self.credit >= self.prefix_len()
    }

    /// How many bytes of the application the stream can send at once: what
    /// QUIC takes, less what the session id takes where it is still to be
    /// sent.
    pub fn capacity(&self) -> (r: Result<usize>)
        requires
            self@.wf(),
        ensures
            r is Ok,
            r->Ok_0 == self@.capacity(),
    {
        let len = self.prefix_len();
        if self.credit >= len {
            Ok(self.credit - len)
        } else {
            Ok(0)
        }
    }

    /// Sends the session id where it is still to be sent.
    fn send_prefix(&mut self) -> (r: Result<()>)
        requires
            old(self)@.wf(),
        ensures
            final(self)@.wf(),
            match r {
                Ok(()) => old(self)@.credit >= old(self)@.prefix().len() && final(self)@ == (
                StreamView {
                    sent_session_id: true,
                    outbound: old(self)@.outbound + old(self)@.prefix(),
                    credit: (old(self)@.credit - old(self)@.prefix().len()) as nat,
                    ..old(self)@
                }),
                Err(e) => e == Error::Done && old(self)@.credit < old(self)@.prefix().len()
                    && final(self)@ == old(self)@,
            },
    {
        if self.sent_session_id {
            assert(self.outbound@ + Seq::<u8>::empty() =~= self.outbound@);
            return Ok(());
        }
        let id = match self.session_id {
            Some(id) => id,
            None => 0,
        };
        let mut w = Writer::with_capacity(MAX_VARINT_LEN);
        proof {
            lemma_varint_bytes_len(id, varint_len(id));
        }
        match w.put_varint(id) {
            Ok(()) => {},
            Err(_) => {
                return Err(Error::Done);
            },
        }
        assert(w.written() =~= varint_bytes(id));
        let prefix = w.as_slice();
        if self.credit < prefix.len() {
            return Err(Error::Done);
        }
        self.outbound.extend_from_slice(prefix);
        self.credit = self.credit - prefix.len();
        self.sent_session_id = true;
        assert(self.outbound@ =~= old(self).outbound@ + old(self)@.prefix());
        Ok(())
    }

    /// Sends bytes on the stream, as many as it can take, behind the session
    /// id where that is still to be sent. `Done` where it can take none.
    pub fn send(&mut self, buf: &[u8], fin: bool) -> (r: Result<usize>)
        requires
            old(self)@.wf(),
        ensures
            sent(old(self)@, final(self)@, buf@, r),
    {
        self.send_prefix()?;
        let n = if self.credit <= buf.len() {
            self.credit
        } else {
            buf.len()
        };
        if n == 0 && buf.len() > 0 {
            return Err(Error::Done);
        }
        self.outbound.extend_from_slice(slice_subrange(buf, 0, n));
        self.credit = self.credit - n;
        assert(self.outbound@ =~= old(self).outbound@ + old(self)@.prefix() + buf@.take(n as int));
        Ok(n)
    }

    /// Sends all of `buf` or nothing.
    pub fn send_if_capacity(&mut self, buf: &[u8], fin: bool) -> (r: Result<()>)
        requires
            old(self)@.wf(),
        ensures
            sent_whole(old(self)@, final(self)@, buf@, r),
    {
        let len = self.prefix_len();
        if self.credit < len || self.credit - len < buf.len() {
            return Err(Error::InsufficientCapacity);
        }
        match self.send(buf, fin) {
            Ok(n) => {
                assert(buf@.take(n as int) =~= buf@);
                Ok(())
            },
            Err(_) => unreached(),
        }
    }
}

/// What a poll of the connection does to one stream. A stream on which
/// something has arrived reads its session id where it has none yet, and can
/// be read once it has one.
pub open spec fn polled(before: StreamView, after: StreamView) -> bool {
    if before.inbound.len() > 0 || (before.inbound_fin && !before.quic_finished) {
        match before.session_id {
            Some(_) => after == (StreamView { readable: true, ..before }),
            None => match parse_varint(before.unread(), 0) {
                Ok((id, next)) => after == (StreamView {
                    session_id: Some(id),
                    readable: true,
                    held: buffered(before).held.skip(next),
                    ..buffered(before)
                }),
                Err(_) => after == buffered(before),
            },
        }
    } else {
        after == before
    }
}

impl Stream {
    /// Takes in what has arrived on the stream since the last poll.
    pub fn poll(&mut self)
        requires
            old(self)@.wf(),
        ensures
            final(self)@.wf(),
            polled(old(self)@, final(self)@),
    {
        if !self.has_inbound() {
            return ;
        }
        match self.read_session_id() {
            Ok(_) => {
                self.readable = true;
            },
            Err(_) => {},
        }
    }
}

} // verus!
