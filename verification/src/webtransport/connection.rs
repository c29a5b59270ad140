//! The WebTransport side of one HTTP/3 connection: the sessions that are
//! established on it and the streams that belong to them.

use super::error::Error;
use super::error::Result;
use super::pending_request::PendingRequest;
use super::pending_response::PendingResponse;
use super::session::Session;
use super::stream::polled;
use super::stream::received;
use super::stream::sent;
use super::stream::sent_whole;
use super::stream::Stream;
use super::stream::StreamView;
use super::SessionId;
use crate::in_track::ascending;
use crate::maps::in_ascending_order;
use crate::maps::keys_of;
use crate::maps::retain_marked;
use crate::wire::varint::MAX_VAR_INT;
use std::collections::HashMap;
use vstd::prelude::*;
use vstd::string::StringSliceAdditionalSpecFns;

verus! {

pub struct Connection {
    /// The established sessions, by session id.
    sessions: HashMap<u64, Session>,
    streams: HashMap<u64, Stream>,
    closed: bool,
    is_server: bool,
    /// Requests for a session that the server has not answered, by session
    /// id. A client has them.
    pending_requests: HashMap<u64, PendingRequest>,
    /// Answers to requests for a session that are still to be sent, by
    /// session id. A server has them.
    pending_responds: HashMap<u64, PendingResponse>,
    /// Streams that the host has opened and that no session uses yet.
    free_bidi: Vec<u64>,
    free_uni: Vec<u64>,
    /// How many bytes a stream can send before the host lets it send more.
    initial_credit: usize,
}

/// What a connection is in contracts.
pub struct ConnectionView {
    pub sessions: Set<u64>,
    pub streams: Map<u64, StreamView>,
    pub closed: bool,
    pub is_server: bool,
    pub pending_requests: Set<u64>,
    pub pending_responds: Set<u64>,
    pub free_bidi: Seq<u64>,
    pub free_uni: Seq<u64>,
    pub initial_credit: nat,
}

impl View for Connection {
    type V = ConnectionView;

    closed spec fn view(&self) -> ConnectionView {
        ConnectionView {
            sessions: self.sessions@.dom(),
            streams: Map::new(
                |id: u64| self.streams@.contains_key(id),
                |id: u64| self.streams@[id]@,
            ),
            closed: self.closed,
            is_server: self.is_server,
            pending_requests: self.pending_requests@.dom(),
            pending_responds: self.pending_responds@.dom(),
            free_bidi: self.free_bidi@,
            free_uni: self.free_uni@,
            initial_credit: self.initial_credit as nat,
        }
    }
}

impl ConnectionView {
    /// Each stream is well formed, and each session has an id of 62 bits.
    pub open spec fn wf(self) -> bool {
        &&& forall|id: u64| #[trigger] self.streams.contains_key(id) ==> self.streams[id].wf()
        &&& forall|id: u64| #[trigger] self.sessions.contains(id) ==> id <= MAX_VAR_INT
    }

    /// The streams of the session that can be read.
    pub open spec fn readable_streams(self, session_id: u64) -> Set<u64> {
        Set::new(
            |id: u64|
                self.streams.contains_key(id) && self.streams[id].session_id == Some(session_id)
                    && self.streams[id].readable,
        )
    }

    /// The stream `id`, or where the connection has none a stream that the
    /// peer has just opened.
    pub open spec fn stream_or_remote(self, id: u64) -> StreamView {
        if self.streams.contains_key(id) {
            self.streams[id]
        } else {
            StreamView { credit: self.initial_credit, ..StreamView::remote(id) }
        }
    }

    /// A stream that this endpoint has just opened in a session.
    pub open spec fn fresh_local(self, id: u64, session_id: u64) -> StreamView {
        StreamView { credit: self.initial_credit, ..StreamView::local(id, session_id) }
    }

    /// The connection with the stream `id` changed to `s`.
    pub open spec fn with_stream(self, id: u64, s: StreamView) -> ConnectionView {
        ConnectionView { streams: self.streams.insert(id, s), ..self }
    }
}

impl Connection {
    pub fn new(is_server: bool) -> (c: Self)
        ensures
            c@ == (ConnectionView {
                sessions: Set::empty(),
                streams: Map::empty(),
                closed: false,
                is_server,
                pending_requests: Set::empty(),
                pending_responds: Set::empty(),
                free_bidi: Seq::empty(),
                free_uni: Seq::empty(),
                initial_credit: 0,
            }),
            c@.wf(),
    {
        let c = Self {
            sessions: HashMap::new(),
            streams: HashMap::new(),
            closed: false,
            is_server,
            pending_requests: HashMap::new(),
            pending_responds: HashMap::new(),
            free_bidi: Vec::new(),
            free_uni: Vec::new(),
            initial_credit: 0,
        };
        assert(c@.streams =~= Map::<u64, StreamView>::empty());
        assert(c@.sessions =~= Set::<u64>::empty());
        assert(c@.pending_requests =~= Set::<u64>::empty());
        assert(c@.pending_responds =~= Set::<u64>::empty());
        c
    }

    /// Whether the session has been established.
    pub fn established(&self, session_id: u64) -> (r: bool)
        ensures
            r == self@.sessions.contains(session_id),
    {
        broadcast use vstd::std_specs::hash::group_hash_axioms;

        self.sessions.contains_key(&session_id)
    }

    /// The ids of the established sessions, each once.
    pub fn session_ids(&self) -> (r: Vec<u64>)
        ensures
            r@.to_set() == self@.sessions,
            r@.no_duplicates(),
    {
        keys_of(&self.sessions)
    }

    /// Sets how many bytes a new stream can send before the host lets it
    /// send more.
    pub fn set_initial_credit(&mut self, credit: usize)
        ensures
            final(self)@ == (ConnectionView { initial_credit: credit as nat, ..old(self)@ }),
    {
        self.initial_credit = credit;
    }

    /// Offers a stream that the host has opened for later use.
    pub fn provide_stream(&mut self, stream_id: u64, bidi: bool)
        ensures
            final(self)@ == if bidi {
                ConnectionView { free_bidi: old(self)@.free_bidi.push(stream_id), ..old(self)@ }
            } else {
                ConnectionView { free_uni: old(self)@.free_uni.push(stream_id), ..old(self)@ }
            },
    {
        if bidi {
            self.free_bidi.push(stream_id);
        } else {
            self.free_uni.push(stream_id);
        }
    }

    /// Opens a stream in the session: takes the stream that was offered
    /// last. `InsufficientCapacity` where none is on offer.
    pub fn open_stream(&mut self, session_id: u64, bidi: bool) -> (r: Result<u64>)
        requires
            old(self)@.wf(),
            old(self)@.sessions.contains(session_id),
        ensures
            final(self)@.wf(),
            match r {
                Ok(id) => {
                    let free = if bidi {
                        old(self)@.free_bidi
                    } else {
                        old(self)@.free_uni
                    };
                    &&& free.len() > 0
                    &&& id == free.last()
                    &&& final(self)@ == (ConnectionView {
                        streams: old(self)@.streams.insert(
                            id,
                            old(self)@.fresh_local(id, session_id),
                        ),
                        free_bidi: if bidi {
                            free.drop_last()
                        } else {
                            old(self)@.free_bidi
                        },
                        free_uni: if bidi {
                            old(self)@.free_uni
                        } else {
                            free.drop_last()
                        },
                        ..old(self)@
                    })
                },
                Err(e) => e == Error::InsufficientCapacity && final(self)@ == old(self)@ && (if bidi {
                    old(self)@.free_bidi.len() == 0
                } else {
                    old(self)@.free_uni.len() == 0
                }),
            },
    {
        broadcast use vstd::std_specs::hash::group_hash_axioms;

        let popped = if bidi {
            self.free_bidi.pop()
        } else {
            self.free_uni.pop()
        };
        let stream_id = match popped {
            Some(id) => id,
            None => {
                return Err(Error::InsufficientCapacity);
            },
        };
        let mut stream = Stream::with_session(stream_id, session_id);
        stream.grant(self.initial_credit);
        self.streams.insert(stream_id, stream);
        assert(self@.streams =~= old(self)@.streams.insert(stream_id, stream@));
        Ok(stream_id)
    }

    /// Takes the stream out of the table, to change it and put it back.
    fn take_stream(&mut self, stream_id: u64) -> (r: Option<Stream>)
        ensures
            match r {
                Some(s) => old(self)@.streams.contains_key(stream_id) && s@ == old(self)@.streams[stream_id] && final(self)@ == (ConnectionView {
                    streams: old(self)@.streams.remove(stream_id),
                    ..old(self)@
                }),
                None => !old(self)@.streams.contains_key(stream_id) && final(self)@ == old(self)@,
            },
    {
        broadcast use vstd::std_specs::hash::group_hash_axioms;

        let r = self.streams.remove(&stream_id);
        proof {
            if r is Some {
                assert(old(self).streams@.contains_key(stream_id));
                assert(old(self).streams@[stream_id] == r->Some_0);
                assert(old(self)@.streams.contains_key(stream_id));
            } else {
                assert(!old(self).streams@.contains_key(stream_id));
                assert(self.streams@ =~= old(self).streams@);
            }
            assert(self@.streams =~= old(self)@.streams.remove(stream_id));
        }
        r
    }

    /// Puts a stream into the table.
    fn put_stream(&mut self, stream_id: u64, stream: Stream)
        ensures
            final(self)@ == old(self)@.with_stream(stream_id, stream@),
    {
        broadcast use vstd::std_specs::hash::group_hash_axioms;

        self.streams.insert(stream_id, stream);
        assert(self@.streams =~= old(self)@.streams.insert(stream_id, stream@));
    }

    /// Reads from the stream into `b`. `NoStreamState` where the connection
    /// has no such stream, `MissingSessionID` where the stream belongs to
    /// another session or to none yet.
    pub fn recv_stream(&mut self, stream_id: u64, session_id: u64, b: &mut [u8]) -> (r: Result<
        usize,
    >)
        requires
            old(self)@.wf(),
        ensures
            final(self)@.wf(),
            final(b)@.len() == old(b)@.len(),
            if !old(self)@.streams.contains_key(stream_id) {
                r == Err::<usize, Error>(Error::NoStreamState) && final(self)@ == old(self)@
                    && final(b)@ == old(b)@
            } else if old(self)@.streams[stream_id].session_id != Some(session_id) {
                r == Err::<usize, Error>(Error::MissingSessionID) && final(self)@ == old(self)@
                    && final(b)@ == old(b)@
            } else {
                &&& final(self)@.streams.contains_key(stream_id)
                &&& final(self)@ == old(self)@.with_stream(
                    stream_id,
                    final(self)@.streams[stream_id],
                )
                &&& received(
                    old(self)@.streams[stream_id],
                    final(self)@.streams[stream_id],
                    old(b)@,
                    final(b)@,
                    r,
                )
            },
    {
        let mut stream = match self.take_stream(stream_id) {
            Some(s) => s,
            None => {
                return Err(Error::NoStreamState);
            },
        };
        if stream.session_id() != Some(session_id) {
            self.put_stream(stream_id, stream);
            assert(self@.streams =~= old(self)@.streams);
            return Err(Error::MissingSessionID);
        }
        let r = stream.recv(b);
        self.put_stream(stream_id, stream);
        assert(self@.streams =~= old(self)@.streams.insert(stream_id, stream@));
        r
    }

    /// How many bytes the stream can send at once.
    pub fn stream_capacity(&self, stream_id: u64) -> (r: Result<usize>)
        requires
            self@.wf(),
        ensures
            match r {
                Ok(n) => self@.streams.contains_key(stream_id) && n
                    == self@.streams[stream_id].capacity(),
                Err(e) => e == Error::NoStreamState && !self@.streams.contains_key(stream_id),
            },
    {
        broadcast use vstd::std_specs::hash::group_hash_axioms;

        match self.streams.get(&stream_id) {
            Some(stream) => {
                assert(self.streams@.contains_key(stream_id));
                assert(self@.streams.contains_key(stream_id));
                assert(self@.streams[stream_id] == stream@);
                stream.capacity()
            },
            None => Err(Error::NoStreamState),
        }
    }

    /// The stream that the next call of `open_stream` takes, where one is on
    /// offer.
    pub fn next_free(&self, bidi: bool) -> (r: Option<u64>)
        ensures
            match r {
                Some(id) => if bidi {
                    self@.free_bidi.len() > 0 && id == self@.free_bidi.last()
                } else {
                    self@.free_uni.len() > 0 && id == self@.free_uni.last()
                },
                None => if bidi {
                    self@.free_bidi.len() == 0
                } else {
                    self@.free_uni.len() == 0
                },
            },
    {
        let free = if bidi {
            &self.free_bidi
        } else {
            &self.free_uni
        };
        if free.len() > 0 {
            Some(free[free.len() - 1])
        } else {
            None
        }
    }

    /// Whether the connection knows the stream.
    pub fn has_stream(&self, stream_id: u64) -> (r: bool)
        ensures
            r == self@.streams.contains_key(stream_id),
    {
        broadcast use vstd::std_specs::hash::group_hash_axioms;

        self.streams.contains_key(&stream_id)
    }

    /// The stream can send: it has room for its session id where that is
    /// still to be sent.
    pub fn stream_ready(&self, stream_id: u64) -> (r: bool)
        requires
            self@.wf(),
        ensures
            r == (self@.streams.contains_key(stream_id) && self@.streams[stream_id].credit
                >= self@.streams[stream_id].prefix().len()),
    {
        broadcast use vstd::std_specs::hash::group_hash_axioms;

        match self.streams.get(&stream_id) {
            Some(stream) => {
                assert(self.streams@.contains_key(stream_id));
                assert(self@.streams.contains_key(stream_id));
                assert(self@.streams[stream_id] == stream@);
                stream.ready()
            },
            None => false,
        }
    }

    /// Sends bytes on the stream, as many as it takes.
    pub fn stream_send(&mut self, stream_id: u64, buf: &[u8], fin: bool) -> (r: Result<usize>)
        requires
            old(self)@.wf(),
        ensures
            final(self)@.wf(),
            if !old(self)@.streams.contains_key(stream_id) {
                r == Err::<usize, Error>(Error::NoStreamState) && final(self)@ == old(self)@
            } else {
                &&& final(self)@.streams.contains_key(stream_id)
                &&& final(self)@ == old(self)@.with_stream(
                    stream_id,
                    final(self)@.streams[stream_id],
                )
                &&& sent(old(self)@.streams[stream_id], final(self)@.streams[stream_id], buf@, r)
            },
    {
        let mut stream = match self.take_stream(stream_id) {
            Some(s) => s,
            None => {
                return Err(Error::NoStreamState);
            },
        };
        let r = stream.send(buf, fin);
        self.put_stream(stream_id, stream);
        assert(self@.streams =~= old(self)@.streams.insert(stream_id, stream@));
        r
    }

    /// Sends all of `buf` on the stream, or nothing.
    pub fn stream_send_if_capacity(&mut self, stream_id: u64, buf: &[u8], fin: bool) -> (r: Result<
        (),
    >)
        requires
            old(self)@.wf(),
        ensures
            final(self)@.wf(),
            if !old(self)@.streams.contains_key(stream_id) {
                r == Err::<(), Error>(Error::NoStreamState) && final(self)@ == old(self)@
            } else {
                &&& final(self)@.streams.contains_key(stream_id)
                &&& final(self)@ == old(self)@.with_stream(
                    stream_id,
                    final(self)@.streams[stream_id],
                )
                &&& sent_whole(
                    old(self)@.streams[stream_id],
                    final(self)@.streams[stream_id],
                    buf@,
                    r,
                )
            },
    {
        let mut stream = match self.take_stream(stream_id) {
            Some(s) => s,
            None => {
                return Err(Error::NoStreamState);
            },
        };
        let r = stream.send_if_capacity(buf, fin);
        self.put_stream(stream_id, stream);
        assert(self@.streams =~= old(self)@.streams.insert(stream_id, stream@));
        r
    }

    /// Gives up sending on the stream with the code `code`.
    pub fn stream_shutdown(&mut self, stream_id: u64, code: u64) -> (r: Result<()>)
        requires
            old(self)@.wf(),
        ensures
            final(self)@.wf(),
            if !old(self)@.streams.contains_key(stream_id) {
                r == Err::<(), Error>(Error::NoStreamState) && final(self)@ == old(self)@
            } else {
                r is Ok && final(self)@ == old(self)@.with_stream(
                    stream_id,
                    StreamView { reset: Some(code), ..old(self)@.streams[stream_id] },
                )
            },
    {
        let mut stream = match self.take_stream(stream_id) {
            Some(s) => s,
            None => {
                return Err(Error::NoStreamState);
            },
        };
        stream.shutdown(code);
        self.put_stream(stream_id, stream);
        assert(self@.streams =~= old(self)@.streams.insert(stream_id, stream@));
        Ok(())
    }

    /// The streams of the session that can be read, each once.
    pub fn readable_streams(&self, session_id: u64) -> (r: Vec<u64>)
        ensures
            r@.to_set() == self@.readable_streams(session_id),
            r@.no_duplicates(),
    {
        broadcast use vstd::std_specs::hash::group_hash_axioms;

        let keys = keys_of(&self.streams);
        let mut marks: Vec<bool> = Vec::new();
        let mut i: usize = 0;
        while i < keys.len()
            invariant
                i <= keys@.len(),
                marks@.len() == i,
                keys@.to_set() == self.streams@.dom(),
                forall|k: int|
                    0 <= k < i ==> marks@[k] == self@.readable_streams(session_id).contains(
                        keys@[k],
                    ),
            decreases keys@.len() - i,
        {
            let id = keys[i];
            assert(keys@.to_set().contains(id));
            let stream = self.streams.get(&id).unwrap();
            assert(self@.streams[id] == stream@);
            marks.push(stream.session_id() == Some(session_id) && stream.readable());
            i += 1;
        }
        let readable = retain_marked(&keys, &marks);
        assert(readable@.to_set() =~= self@.readable_streams(session_id)) by {
            assert forall|x: u64| readable@.to_set().contains(x) <==> self@.readable_streams(
                session_id,
            ).contains(x) by {
                if self@.readable_streams(session_id).contains(x) {
                    assert(keys@.to_set().contains(x));
                    let k = choose|k: int| 0 <= k < keys@.len() && keys@[k] == x;
                    assert(keys@[k] == x && marks@[k]);
                }
            }
        }
        readable
    }

    /// Takes in bytes that QUIC has delivered on the stream, and the end of
    /// the stream where `fin`. A stream that the connection does not know is
    /// one that the peer has opened.
    pub fn deliver(&mut self, stream_id: u64, data: &[u8], fin: bool)
        requires
            old(self)@.wf(),
        ensures
            final(self)@.wf(),
            final(self)@ == old(self)@.with_stream(
                stream_id,
                StreamView {
                    inbound: old(self)@.stream_or_remote(stream_id).inbound + data@,
                    inbound_fin: old(self)@.stream_or_remote(stream_id).inbound_fin || fin,
                    ..old(self)@.stream_or_remote(stream_id)
                },
            ),
    {
        let mut stream = match self.take_stream(stream_id) {
            Some(s) => s,
            None => {
                let mut s = Stream::new_remote(stream_id);
                s.grant(self.initial_credit);
                s
            },
        };
        stream.deliver(data, fin);
        self.put_stream(stream_id, stream);
        assert(self@.streams =~= old(self)@.streams.insert(stream_id, stream@));
    }

    /// Lets the stream send `credit` bytes more.
    pub fn grant(&mut self, stream_id: u64, credit: usize)
        requires
            old(self)@.wf(),
        ensures
            final(self)@.wf(),
            if old(self)@.streams.contains_key(stream_id) {
                final(self)@ == old(self)@.with_stream(
                    stream_id,
                    StreamView {
                        credit: if old(self)@.streams[stream_id].credit + credit <= usize::MAX {
                            (old(self)@.streams[stream_id].credit + credit) as nat
                        } else {
                            usize::MAX as nat
                        },
                        ..old(self)@.streams[stream_id]
                    },
                )
            } else {
                final(self)@ == old(self)@
            },
    {
        let mut stream = match self.take_stream(stream_id) {
            Some(s) => s,
            None => {
                return ;
            },
        };
        stream.grant(credit);
        self.put_stream(stream_id, stream);
        assert(self@.streams =~= old(self)@.streams.insert(stream_id, stream@));
    }

    /// Hands out the bytes that were sent on the stream, for QUIC to take.
    pub fn take_outbound(&mut self, stream_id: u64) -> (r: Vec<u8>)
        requires
            old(self)@.wf(),
        ensures
            final(self)@.wf(),
            if old(self)@.streams.contains_key(stream_id) {
                r@ == old(self)@.streams[stream_id].outbound && final(self)@ == old(self)@.with_stream(
                    stream_id,
                    StreamView { outbound: Seq::empty(), ..old(self)@.streams[stream_id] },
                )
            } else {
                r@ == Seq::<u8>::empty() && final(self)@ == old(self)@
            },
    {
        let mut stream = match self.take_stream(stream_id) {
            Some(s) => s,
            None => {
                return Vec::new();
            },
        };
        let out = stream.take_outbound();
        self.put_stream(stream_id, stream);
        assert(self@.streams =~= old(self)@.streams.insert(stream_id, stream@));
        out
    }

    /// The code with which sending on the stream was given up.
    pub fn stream_reset(&self, stream_id: u64) -> (r: Option<u64>)
        ensures
            r == if self@.streams.contains_key(stream_id) {
                self@.streams[stream_id].reset
            } else {
                None
            },
    {
        broadcast use vstd::std_specs::hash::group_hash_axioms;

        match self.streams.get(&stream_id) {
            Some(stream) => {
                assert(self.streams@.contains_key(stream_id));
                assert(self@.streams[stream_id] == stream@);
                stream.reset()
            },
            None => None,
        }
    }

    /// The ids of all the streams that the connection knows, each once.
    pub fn stream_ids(&self) -> (r: Vec<u64>)
        ensures
            r@.to_set() == self@.streams.dom(),
            r@.no_duplicates(),
    {
        let r = keys_of(&self.streams);
        assert(self@.streams.dom() =~= self.streams@.dom());
        r
    }

    /// Marks the session as established.
    pub fn establish(&mut self, session_id: u64)
        requires
            old(self)@.wf(),
            session_id <= MAX_VAR_INT,
        ensures
            final(self)@.wf(),
            final(self)@ == (ConnectionView {
                sessions: old(self)@.sessions.insert(session_id),
                ..old(self)@
            }),
    {
        broadcast use vstd::std_specs::hash::group_hash_axioms;

        self.sessions.insert(session_id, Session::accept(session_id));
        assert(self@.sessions =~= old(self)@.sessions.insert(session_id));
        assert(self@.streams =~= old(self)@.streams);
    }
}

/// What a poll does to the streams of a connection: those that have ended
/// and hold nothing go, and each other one is polled.
pub open spec fn connection_polled(before: ConnectionView, after: ConnectionView) -> bool {
    &&& after == (ConnectionView { streams: after.streams, ..before })
    &&& forall|id: u64|
        after.streams.contains_key(id) <==> before.streams.contains_key(id)
            && !before.streams[id].finished
    &&& forall|id: u64| #[trigger]
        after.streams.contains_key(id) ==> polled(before.streams[id], after.streams[id])
}

impl Connection {
    /// Takes in what has arrived on the streams since the last poll. The
    /// state of a stream that has ended, and of which all is read, is
    /// dropped.
    pub fn poll(&mut self)
        requires
            old(self)@.wf(),
        ensures
            final(self)@.wf(),
            connection_polled(old(self)@, final(self)@),
    {
        broadcast use vstd::std_specs::hash::group_hash_axioms;

        let keys = keys_of(&self.streams);
        let mut i: usize = 0;
        while i < keys.len()
            invariant
                i <= keys@.len(),
                keys@.to_set() == old(self).streams@.dom(),
                keys@.no_duplicates(),
                old(self)@.wf(),
                self@.wf(),
                self@ == (ConnectionView { streams: self@.streams, ..old(self)@ }),
                forall|k: int|
                    i <= k < keys@.len() ==> self@.streams.contains_key(#[trigger] keys@[k])
                        && self@.streams[keys@[k]] == old(self)@.streams[keys@[k]],
                forall|k: int|
                    0 <= k < i ==> (self@.streams.contains_key(#[trigger] keys@[k]) <==> !old(self)@.streams[keys@[k]].finished),
                forall|k: int|
                    0 <= k < i && self@.streams.contains_key(#[trigger] keys@[k]) ==> polled(
                        old(self)@.streams[keys@[k]],
                        self@.streams[keys@[k]],
                    ),
                forall|id: u64| self@.streams.contains_key(id) ==> old(self)@.streams.contains_key(id),
            decreases keys@.len() - i,
        {
            let id = keys[i];
            let ghost before = self@;
            assert(keys@.to_set().contains(id));
            assert(self@.streams.contains_key(keys@[i as int]));
            let mut stream = match self.take_stream(id) {
                Some(s) => s,
                None => unreached(),
            };
            if !stream.finished() {
                stream.poll();
                self.put_stream(id, stream);
                proof {
                    assert(self@.streams =~= before.streams.insert(id, stream@));
                }
            }
            proof {
                assert forall|k: int| i + 1 <= k < keys@.len() implies self@.streams.contains_key(
                    #[trigger] keys@[k],
                ) && self@.streams[keys@[k]] == old(self)@.streams[keys@[k]] by {
                    assert(keys@[k] != keys@[i as int]);
                }
                assert forall|k: int| 0 <= k < i + 1 implies (self@.streams.contains_key(
                    #[trigger] keys@[k],
                ) <==> !old(self)@.streams[keys@[k]].finished) by {
                    if k < i {
                        assert(keys@[k] != keys@[i as int]);
                    }
                }
                assert forall|k: int|
                    0 <= k < i + 1 && self@.streams.contains_key(#[trigger] keys@[k]) implies polled(
                    old(self)@.streams[keys@[k]],
                    self@.streams[keys@[k]],
                ) by {
                    if k < i {
                        assert(keys@[k] != keys@[i as int]);
                    }
                }
            }
            i += 1;
        }
        proof {
            assert forall|id: u64|
                self@.streams.contains_key(id) <==> old(self)@.streams.contains_key(id) && !old(self)@.streams[id].finished by {
                if old(self)@.streams.contains_key(id) {
                    assert(keys@.to_set().contains(id));
                    let k = choose|k: int| 0 <= k < keys@.len() && keys@[k] == id;
                    assert(keys@[k] == id);
                }
            }
            assert forall|id: u64| #[trigger] self@.streams.contains_key(id) implies polled(
                old(self)@.streams[id],
                self@.streams[id],
            ) by {
                assert(keys@.to_set().contains(id));
                let k = choose|k: int| 0 <= k < keys@.len() && keys@[k] == id;
                assert(keys@[k] == id);
            }
        }
    }

    /// The sessions to which a stream belongs that the connection knows,
    /// each once, in ascending order.
    pub fn readable_sessions(&self) -> (r: Vec<u64>)
        ensures
            ascending(r@),
            forall|sid: u64|
                r@.contains(sid) <==> exists|id: u64|
                    self@.streams.contains_key(id) && #[trigger] self@.streams[id].session_id
                        == Some(sid),
    {
        broadcast use vstd::std_specs::hash::group_hash_axioms;

        let keys = keys_of(&self.streams);
        let mut sessions: Vec<u64> = Vec::new();
        let mut i: usize = 0;
        while i < keys.len()
            invariant
                i <= keys@.len(),
                keys@.to_set() == self.streams@.dom(),
                sessions@.no_duplicates(),
                forall|sid: u64|
                    sessions@.contains(sid) <==> exists|k: int|
                        0 <= k < i && #[trigger] self@.streams[keys@[k]].session_id == Some(sid),
            decreases keys@.len() - i,
        {
            let id = keys[i];
            assert(keys@.to_set().contains(id));
            let stream = self.streams.get(&id).unwrap();
            assert(self@.streams[id] == stream@);
            let ghost before = sessions@;
            match stream.session_id() {
                Some(sid) => {
                    if !contains_id(&sessions, sid) {
                        sessions.push(sid);
                        assert forall|x: u64| sessions@.contains(x) <==> exists|k: int|
                            0 <= k < i + 1 && #[trigger] self@.streams[keys@[k]].session_id == Some(
                                x,
                            ) by {
                            if sessions@.contains(x) {
                                let j = choose|j: int| 0 <= j < sessions@.len() && sessions@[j] == x;
                                if j < before.len() {
                                    assert(before[j] == x);
                                    assert(before.contains(x));
                                    let k = choose|k: int|
                                        0 <= k < i && #[trigger] self@.streams[keys@[k]].session_id
                                            == Some(x);
                                    assert(0 <= k < i + 1);
                                } else {
                                    assert(self@.streams[keys@[i as int]].session_id == Some(x));
                                }
                            }
                            if exists|k: int|
                                0 <= k < i + 1 && #[trigger] self@.streams[keys@[k]].session_id
                                    == Some(x) {
                                let k = choose|k: int|
                                    0 <= k < i + 1 && #[trigger] self@.streams[keys@[k]].session_id
                                        == Some(x);
                                if k < i {
                                    assert(before.contains(x));
                                    let j = choose|j: int| 0 <= j < before.len() && before[j] == x;
                                    assert(sessions@[j] == x);
                                } else {
                                    assert(sessions@[before.len() as int] == x);
                                }
                            }
                        }
                    } else {
                        assert forall|x: u64| sessions@.contains(x) <==> exists|k: int|
                            0 <= k < i + 1 && #[trigger] self@.streams[keys@[k]].session_id == Some(
                                x,
                            ) by {
                            if sessions@.contains(x) {
                                let k = choose|k: int|
                                    0 <= k < i && #[trigger] self@.streams[keys@[k]].session_id
                                        == Some(x);
                                assert(0 <= k < i + 1);
                            }
                            if exists|k: int|
                                0 <= k < i + 1 && #[trigger] self@.streams[keys@[k]].session_id
                                    == Some(x) {
                                let k = choose|k: int|
                                    0 <= k < i + 1 && #[trigger] self@.streams[keys@[k]].session_id
                                        == Some(x);
                                if k == i {
                                    assert(x == sid);
                                }
                            }
                        }
                    }
                },
                None => {
                    assert forall|x: u64| sessions@.contains(x) <==> exists|k: int|
                        0 <= k < i + 1 && #[trigger] self@.streams[keys@[k]].session_id == Some(
                            x,
                        ) by {
                        if sessions@.contains(x) {
                            let k = choose|k: int|
                                0 <= k < i && #[trigger] self@.streams[keys@[k]].session_id == Some(
                                    x,
                                );
                            assert(0 <= k < i + 1);
                        }
                        if exists|k: int|
                            0 <= k < i + 1 && #[trigger] self@.streams[keys@[k]].session_id == Some(
                                x,
                            ) {
                            let k = choose|k: int|
                                0 <= k < i + 1 && #[trigger] self@.streams[keys@[k]].session_id
                                    == Some(x);
                            assert(k < i);
                        }
                    }
                },
            }
            i += 1;
        }
        proof {
            assert forall|sid: u64|
                sessions@.contains(sid) <==> exists|id: u64|
                    self@.streams.contains_key(id) && #[trigger] self@.streams[id].session_id
                        == Some(sid) by {
                if sessions@.contains(sid) {
                    let k = choose|k: int|
                        0 <= k < i && #[trigger] self@.streams[keys@[k]].session_id == Some(sid);
                    assert(keys@.to_set().contains(keys@[k]));
                    assert(self@.streams.contains_key(keys@[k]));
                }
                if exists|id: u64|
                    self@.streams.contains_key(id) && #[trigger] self@.streams[id].session_id
                        == Some(sid) {
                    let id = choose|id: u64|
                        self@.streams.contains_key(id) && #[trigger] self@.streams[id].session_id
                            == Some(sid);
                    assert(keys@.to_set().contains(id));
                    let k = choose|k: int| 0 <= k < keys@.len() && keys@[k] == id;
                    assert(self@.streams[keys@[k]].session_id == Some(sid));
                }
            }
        }
        let sorted = in_ascending_order(&sessions);
        proof {
            assert forall|sid: u64| sorted@.contains(sid) <==> sessions@.contains(sid) by {
                assert(sorted@.to_set().contains(sid) <==> sessions@.to_set().contains(sid));
            }
        }
        sorted
    }
}

/// Whether the list holds the id.
pub fn contains_id(list: &Vec<u64>, id: u64) -> (r: bool)
    ensures
        r == list@.contains(id),
{
    let mut i: usize = 0;
    while i < list.len()
        invariant
            i <= list@.len(),
            forall|k: int| 0 <= k < i ==> list@[k] != id,
        decreases list@.len() - i,
    {
        if list[i] == id {
            return true;
        }
        i += 1;
    }
    false
}

/// One header of an HTTP/3 request or response.
#[derive(Debug, Clone, PartialEq, Eq)]
pub struct Header {
    pub name: Vec<u8>,
    pub value: Vec<u8>,
}

/// What a header is in contracts.
pub struct HeaderView {
    pub name: Seq<u8>,
    pub value: Seq<u8>,
}

impl View for Header {
    type V = HeaderView;

    open spec fn view(&self) -> HeaderView {
        HeaderView { name: self.name@, value: self.value@ }
    }
}

impl Header {
    pub fn new(name: &[u8], value: &[u8]) -> (h: Self)
        ensures
            h@ == (HeaderView { name: name@, value: value@ }),
    {
        Self { name: vstd::slice::slice_to_vec(name), value: vstd::slice::slice_to_vec(value) }
    }
}

/// The headers hold one with this name and this value.
pub open spec fn has_header(hs: Seq<HeaderView>, name: Seq<u8>, value: Seq<u8>) -> bool {
    exists|i: int| 0 <= i < hs.len() && (#[trigger] hs[i]).name == name && hs[i].value == value
}

/// The headers ask for a WebTransport session: the method CONNECT, the
/// protocol webtransport, and an offer of the draft that both sides speak.
pub open spec fn asks_for_session(hs: Seq<HeaderView>) -> bool {
    &&& has_header(hs, ":method".spec_bytes(), "CONNECT".spec_bytes())
    &&& has_header(hs, ":protocol".spec_bytes(), "webtransport".spec_bytes())
    &&& has_header(hs, "sec-webtransport-http3-draft02".spec_bytes(), "1".spec_bytes())
}

/// The headers grant a WebTransport session: the status 200 and the draft
/// that both sides speak.
pub open spec fn grants_session(hs: Seq<HeaderView>) -> bool {
    &&& has_header(hs, ":status".spec_bytes(), "200".spec_bytes())
    &&& has_header(hs, "sec-webtransport-http3-draft".spec_bytes(), "draft02".spec_bytes())
}

/// Whether two byte strings are the same.
pub fn bytes_eq(a: &[u8], b: &[u8]) -> (r: bool)
    ensures
        r == (a@ == b@),
{
    if a.len() != b.len() {
        return false;
    }
    let mut i: usize = 0;
    while i < a.len()
        invariant
            i <= a@.len(),
            a@.len() == b@.len(),
            forall|k: int| 0 <= k < i ==> a@[k] == b@[k],
        decreases a@.len() - i,
    {
        if a[i] != b[i] {
            return false;
        }
        i += 1;
    }
    assert(a@ =~= b@);
    true
}

/// Whether the headers hold one with this name and this value.
pub fn find_header(headers: &Vec<Header>, name: &str, value: &str) -> (r: bool)
    ensures
        r == has_header(views_of(headers@), name.spec_bytes(), value.spec_bytes()),
{
    let mut i: usize = 0;
    while i < headers.len()
        invariant
            i <= headers@.len(),
            forall|k: int|
                0 <= k < i ==> !((#[trigger] views_of(headers@)[k]).name == name.spec_bytes()
                    && views_of(headers@)[k].value == value.spec_bytes()),
        decreases headers@.len() - i,
    {
        let h = &headers[i];
        assert(views_of(headers@)[i as int] == h@);
        if bytes_eq(h.name.as_slice(), name.as_bytes()) && bytes_eq(
            h.value.as_slice(),
            value.as_bytes(),
        ) {
            return true;
        }
        i += 1;
    }
    false
}

/// The headers as contracts speak of them.
pub open spec fn views_of(hs: Seq<Header>) -> Seq<HeaderView> {
    hs.map_values(|h: Header| h@)
}

/// The header with this name and this value.
pub open spec fn header(name: &str, value: &str) -> HeaderView {
    HeaderView { name: name.spec_bytes(), value: value.spec_bytes() }
}

/// The headers of the request that asks a server at this address for a
/// WebTransport session.
pub open spec fn connect_request(scheme: &str, authority: &str, path: &str) -> Seq<HeaderView> {
    seq![
        header(":method", "CONNECT"),
        header(":protocol", "webtransport"),
        header(":scheme", scheme),
        header(":authority", authority),
        header(":path", path),
        header("sec-webtransport-http3-draft02", "1"),
    ]
}

/// The headers with which a server grants a WebTransport session.
pub open spec fn accept_response() -> Seq<HeaderView> {
    seq![header(":status", "200"), header("sec-webtransport-http3-draft", "draft02")]
}

/// The headers of the request that asks a server at this address for a
/// WebTransport session.
pub fn connect_headers(scheme: &str, authority: &str, path: &str) -> (r: Vec<Header>)
    ensures
        views_of(r@) == connect_request(scheme, authority, path),
        asks_for_session(views_of(r@)),
{
    let mut hdrs: Vec<Header> = Vec::new();
    hdrs.push(Header::new(":method".as_bytes(), "CONNECT".as_bytes()));
    hdrs.push(Header::new(":protocol".as_bytes(), "webtransport".as_bytes()));
    hdrs.push(Header::new(":scheme".as_bytes(), scheme.as_bytes()));
    hdrs.push(Header::new(":authority".as_bytes(), authority.as_bytes()));
    hdrs.push(Header::new(":path".as_bytes(), path.as_bytes()));
    hdrs.push(Header::new("sec-webtransport-http3-draft02".as_bytes(), "1".as_bytes()));
    proof {
        let hs = views_of(hdrs@);
        assert(hs =~= connect_request(scheme, authority, path));
        assert(hs[0] == header(":method", "CONNECT"));
        assert(hs[1] == header(":protocol", "webtransport"));
        assert(hs[5] == header("sec-webtransport-http3-draft02", "1"));
    }
    hdrs
}

/// The headers with which a server grants a WebTransport session.
pub fn accept_headers() -> (r: Vec<Header>)
    ensures
        views_of(r@) == accept_response(),
        grants_session(views_of(r@)),
{
    let mut hdrs: Vec<Header> = Vec::new();
    hdrs.push(Header::new(":status".as_bytes(), "200".as_bytes()));
    hdrs.push(Header::new("sec-webtransport-http3-draft".as_bytes(), "draft02".as_bytes()));
    proof {
        let hs = views_of(hdrs@);
        assert(hs =~= accept_response());
        assert(hs[0] == header(":status", "200"));
        assert(hs[1] == header("sec-webtransport-http3-draft", "draft02"));
    }
    hdrs
}

impl Connection {
    /// Notes that the request for a session has been sent on the stream
    /// `session_id`.
    pub fn connect_session(&mut self, session_id: SessionId)
        requires
            old(self)@.wf(),
            !old(self)@.is_server,
        ensures
            final(self)@.wf(),
            final(self)@ == (ConnectionView {
                pending_requests: old(self)@.pending_requests.insert(session_id),
                ..old(self)@
            }),
    {
        broadcast use vstd::std_specs::hash::group_hash_axioms;

        self.pending_requests.insert(session_id, PendingRequest::new(session_id));
        proof {
            assert(self@.pending_requests =~= old(self)@.pending_requests.insert(session_id));
            assert(self@.streams =~= old(self)@.streams);
        }
    }

    /// Takes in the headers that have arrived on the stream. A server
    /// establishes the session that they ask for, and owes an answer. A
    /// client establishes the session that it has asked for on the stream
    /// where they grant it.
    pub fn recv_hdrs(&mut self, stream_id: u64, headers: &Vec<Header>)
        requires
            old(self)@.wf(),
        ensures
            final(self)@.wf(),
            final(self)@ == session_after_headers(old(self)@, stream_id, views_of(headers@)),
    {
        broadcast use vstd::std_specs::hash::group_hash_axioms;

        if self.is_server {
            let method_connect = find_header(headers, ":method", "CONNECT");
            let protocol_webtransport = find_header(headers, ":protocol", "webtransport");
            let wt_draft_supported = find_header(headers, "sec-webtransport-http3-draft02", "1");
            if method_connect && protocol_webtransport && wt_draft_supported && stream_id
                <= MAX_VAR_INT {
                self.sessions.insert(stream_id, Session::accept(stream_id));
                self.pending_responds.insert(stream_id, PendingResponse::new(stream_id));
                proof {
                    assert(self@.sessions =~= old(self)@.sessions.insert(stream_id));
                    assert(self@.pending_responds =~= old(self)@.pending_responds.insert(
                        stream_id,
                    ));
                    assert(self@.streams =~= old(self)@.streams);
                }
            }
        } else {
            if !self.pending_requests.contains_key(&stream_id) {
                return ;
            }
            let _ = self.pending_requests.remove(&stream_id);
            let status_ok = find_header(headers, ":status", "200");
            let wt_draft_selected = find_header(headers, "sec-webtransport-http3-draft", "draft02");
            if status_ok && wt_draft_selected && stream_id <= MAX_VAR_INT {
                self.sessions.insert(stream_id, Session::accept(stream_id));
            }
            proof {
                assert(self@.pending_requests =~= old(self)@.pending_requests.remove(stream_id));
                assert(self@.streams =~= old(self)@.streams);
                if status_ok && wt_draft_selected && stream_id <= MAX_VAR_INT {
                    assert(self@.sessions =~= old(self)@.sessions.insert(stream_id));
                } else {
                    assert(self@.sessions =~= old(self)@.sessions);
                }
            }
        }
    }

    /// Hands out the sessions to which the server owes the answer that
    /// grants them.
    pub fn take_responses(&mut self) -> (r: Vec<u64>)
        requires
            old(self)@.wf(),
        ensures
            final(self)@.wf(),
            r@.to_set() == old(self)@.pending_responds,
            r@.no_duplicates(),
            final(self)@ == (ConnectionView { pending_responds: Set::empty(), ..old(self)@ }),
    {
        let r = keys_of(&self.pending_responds);
        self.pending_responds.clear();
        proof {
            assert(self@.pending_responds =~= Set::<u64>::empty());
            assert(self@.streams =~= old(self)@.streams);
        }
        r
    }
}

/// The connection when headers have arrived on a stream.
pub open spec fn session_after_headers(
    c: ConnectionView,
    stream_id: u64,
    hs: Seq<HeaderView>,
) -> ConnectionView {
    if c.is_server {
        if asks_for_session(hs) && stream_id <= MAX_VAR_INT {
            ConnectionView {
                sessions: c.sessions.insert(stream_id),
                pending_responds: c.pending_responds.insert(stream_id),
                ..c
            }
        } else {
            c
        }
    } else if !c.pending_requests.contains(stream_id) {
        c
    } else if grants_session(hs) && stream_id <= MAX_VAR_INT {
        ConnectionView {
            sessions: c.sessions.insert(stream_id),
            pending_requests: c.pending_requests.remove(stream_id),
            ..c
        }
    } else {
        ConnectionView { pending_requests: c.pending_requests.remove(stream_id), ..c }
    }
}

} // verus!
