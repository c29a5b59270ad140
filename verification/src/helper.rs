//! Brings a connection up to a Media over QUIC session, one layer on the
//! other: QUIC, HTTP/3, WebTransport, Media over QUIC. The host does what
//! needs the network and says what has happened; the helper keeps the state
//! of the layers and decides what comes next.

use crate::config::default_supported_versions;
use crate::config::Config;
use crate::error::Error;
use crate::error::Result;
use crate::session::connected;
use crate::session::session_polled;
use crate::session::MoqTransportSession;
use crate::session::SessionView;
use crate::stream_id::StreamID;
use crate::webtransport::connection::connection_polled;
use crate::webtransport::connection::session_after_headers;
use crate::webtransport::connection::views_of;
use crate::webtransport::connection::ConnectionView;
use crate::webtransport::connection::Header;
use crate::webtransport::Connection;
use crate::wire::version_known;
use crate::wire::Version;
use vstd::prelude::*;

verus! {

/// The layers under a session, as far as they have come up.
pub enum State {
    /// QUIC is not established yet.
    Quic,
    /// HTTP/3 runs, and no WebTransport session is asked for yet.
    H3 { wt_conn: Connection },
    /// The client has asked for the WebTransport session on the stream
    /// `moq_session_id`.
    Wt { wt_conn: Connection, moq_session_id: u64 },
    /// The WebTransport session is established and the Media over QUIC
    /// session runs in it.
    Moq { wt_conn: Connection, moq_session: MoqTransportSession },
}

/// What the layers are in contracts.
pub enum StateView {
    Quic,
    H3 { wt: ConnectionView },
    Wt { wt: ConnectionView, moq_session_id: u64 },
    Moq { wt: ConnectionView, moq: SessionView },
}

impl View for State {
    type V = StateView;

    open spec fn view(&self) -> StateView {
        match self {
            State::Quic => StateView::Quic,
            State::H3 { wt_conn } => StateView::H3 { wt: wt_conn@ },
            State::Wt { wt_conn, moq_session_id } => StateView::Wt {
                wt: wt_conn@,
                moq_session_id: *moq_session_id,
            },
            State::Moq { wt_conn, moq_session } => StateView::Moq {
                wt: wt_conn@,
                moq: moq_session@,
            },
        }
    }
}

impl StateView {
    /// The connection and the session are well formed, and the connection
    /// is of the side `server`. Only a client waits for a session that it
    /// has asked for.
    pub open spec fn wf(self, server: bool) -> bool {
        match self {
            StateView::Quic => true,
            StateView::H3 { wt } => wt.wf() && wt.is_server == server,
            StateView::Wt { wt, .. } => wt.wf() && !wt.is_server && !server,
            StateView::Moq { wt, moq } => wt.wf() && moq.wf(),
        }
    }
}

/// What the host is to do before it calls the helper again.
#[derive(Debug, PartialEq, Eq, Clone, Copy, Structural)]
pub enum Step {
    /// Nothing: call again when more has arrived.
    Wait,
    /// Set up HTTP/3 on the QUIC connection, then call again.
    StartH3,
    /// Send the request that asks for a WebTransport session, tell the
    /// helper its stream, then call again.
    Connect,
    /// A layer has come up: call again.
    Again,
}

/// Keeps the state of the layers of one connection.
pub struct MoqWebTransportHelper {
    pub state: State,
    pub moq_config: Config,
    pub server: bool,
}

impl MoqWebTransportHelper {
    /// The draft of the configuration is one that this library speaks, and
    /// the layers are well formed.
    pub open spec fn wf(&self) -> bool {
        version_known(self.moq_config.setup_version) && self.state@.wf(self.server)
    }

    /// The helper of a client.
    pub fn new_client(moq_config: Config) -> (h: Self)
        requires
            version_known(moq_config.setup_version),
        ensures
            h.wf(),
            h.state@ == StateView::Quic,
            h.moq_config == moq_config,
            !h.server,
    {
        Self { state: State::Quic, moq_config, server: false }
    }

    /// The helper of a server.
    pub fn new_server(moq_config: Config) -> (h: Self)
        requires
            version_known(moq_config.setup_version),
        ensures
            h.wf(),
            h.state@ == StateView::Quic,
            h.moq_config == moq_config,
            h.server,
    {
        Self { state: State::Quic, moq_config, server: true }
    }

    /// The client has sent the request for its WebTransport session on the
    /// stream `stream_id`. Only a client on which HTTP/3 runs takes note.
    pub fn session_requested(&mut self, stream_id: u64)
        requires
            old(self).wf(),
        ensures
            final(self).wf(),
            final(self).moq_config == old(self).moq_config,
            final(self).server == old(self).server,
            final(self).state@ == match old(self).state@ {
                StateView::H3 { wt } => if old(self).server {
                    old(self).state@
                } else {
                    StateView::Wt {
                        wt: ConnectionView {
                            pending_requests: wt.pending_requests.insert(stream_id),
                            ..wt
                        },
                        moq_session_id: stream_id,
                    }
                },
                _ => old(self).state@,
            },
    {
        let mut state = State::Quic;
        core::mem::swap(&mut self.state, &mut state);
        match state {
            State::H3 { mut wt_conn } => {
                if self.server {
                    self.state = State::H3 { wt_conn };
                } else {
                    wt_conn.connect_session(stream_id);
                    self.state = State::Wt { wt_conn, moq_session_id: stream_id };
                }
            },
            other => {
                self.state = other;
            },
        }
    }

    /// HTTP/3 has received headers on the stream `stream_id`: they go to
    /// the WebTransport layer, which establishes the session that they ask
    /// for or grant.
    pub fn recv_hdrs(&mut self, stream_id: u64, headers: &Vec<Header>)
        requires
            old(self).wf(),
        ensures
            final(self).wf(),
            final(self).moq_config == old(self).moq_config,
            final(self).server == old(self).server,
            final(self).state@ == with_headers(old(self).state@, stream_id, views_of(headers@)),
    {
        let mut state = State::Quic;
        core::mem::swap(&mut self.state, &mut state);
        match state {
            State::Quic => {},
            State::H3 { mut wt_conn } => {
                wt_conn.recv_hdrs(stream_id, headers);
                self.state = State::H3 { wt_conn };
            },
            State::Wt { mut wt_conn, moq_session_id } => {
                wt_conn.recv_hdrs(stream_id, headers);
                self.state = State::Wt { wt_conn, moq_session_id };
            },
            State::Moq { mut wt_conn, moq_session } => {
                wt_conn.recv_hdrs(stream_id, headers);
                self.state = State::Moq { wt_conn, moq_session };
            },
        }
    }

    /// To be called when QUIC has handled packets or a timeout has fired.
    /// `quic_ready` says whether QUIC is established or takes early data,
    /// `webtransport_enabled` whether the peer has switched WebTransport on.
    /// One layer comes up at a call; once all are up, the session takes in
    /// what has arrived.
    pub fn on_post_handle_recvs(&mut self, quic_ready: bool, webtransport_enabled: bool) -> (r:
        Result<Step>)
        requires
            old(self).wf(),
        ensures
            final(self).wf(),
            final(self).moq_config == old(self).moq_config,
            final(self).server == old(self).server,
            stepped(
                old(self).state@,
                final(self).state@,
                old(self).server,
                old(self).moq_config,
                quic_ready,
                webtransport_enabled,
                r,
            ),
    {
        let mut state = State::Quic;
        core::mem::swap(&mut self.state, &mut state);
        match state {
            State::Quic => {
                if !quic_ready {
                    return Ok(Step::Wait);
                }
                let wt_conn = Connection::new(self.server);
                assert(wt_conn@ == new_connection(self.server));
                self.state = State::H3 { wt_conn };
                Ok(Step::StartH3)
            },
            State::H3 { wt_conn } => {
                if !self.server {
                    self.state = State::H3 { wt_conn };
                    return Ok(
                        if webtransport_enabled {
                            Step::Connect
                        } else {
                            Step::Wait
                        },
                    );
                }
                let ids = wt_conn.session_ids();
                if ids.len() == 0 {
                    proof {
                        assert forall|id: u64| !wt_conn@.sessions.contains(id) by {
                            if wt_conn@.sessions.contains(id) {
                                assert(ids@.to_set().contains(id));
                            }
                        }
                    }
                    self.state = State::H3 { wt_conn };
                    return Ok(Step::Wait);
                }
                let id = ids[0];
                proof {
                    assert(ids@.to_set().contains(id));
                }
                let moq_session = MoqTransportSession::accept(StreamID(id), self.moq_config.clone());
                proof {
                    assert(moq_session@ == server_session(id, self.moq_config));
                }
                self.state = State::Moq { wt_conn, moq_session };
                assert(old(self).state@->H3_wt.sessions.contains(id) && self.state@ == (StateView::Moq {
                    wt: old(self).state@->H3_wt,
                    moq: server_session(id, self.moq_config),
                }));
                Ok(Step::Again)
            },
            State::Wt { mut wt_conn, moq_session_id } => {
                wt_conn.poll();
                let ghost polled = wt_conn@;
                if !wt_conn.established(moq_session_id) {
                    self.state = State::Wt { wt_conn, moq_session_id };
                    return Ok(Step::Wait);
                }
                let config = self.moq_config.clone();
                let made = MoqTransportSession::connect(
                    StreamID(moq_session_id),
                    &mut wt_conn,
                    config,
                );
                proof {
                    assert(connected(polled, wt_conn@, moq_session_id, self.moq_config, made));
                }
                let ghost before = old(self).state@->Wt_wt;
                match made {
                    Ok(moq_session) => {
                        self.state = State::Moq { wt_conn, moq_session };
                        assert(client_stepped(
                            before,
                            moq_session_id,
                            self.state@,
                            self.moq_config,
                            Ok::<Step, Error>(Step::Again),
                        ));
                        Ok(Step::Again)
                    },
                    Err(e) => {
                        self.state = State::Wt { wt_conn, moq_session_id };
                        assert(client_stepped(
                            before,
                            moq_session_id,
                            self.state@,
                            self.moq_config,
                            Err::<Step, Error>(e),
                        ));
                        Err(e)
                    },
                }
            },
            State::Moq { mut wt_conn, mut moq_session } => {
                let ghost wt_before = wt_conn@;
                let ghost moq_before = moq_session@;
                wt_conn.poll();
                let ghost polled = wt_conn@;
                let taken = moq_session.poll(&mut wt_conn);
                let ghost wt_after = wt_conn@;
                let ghost moq_after = moq_session@;
                self.state = State::Moq { wt_conn, moq_session };
                proof {
                    assert(old(self).state@ == (StateView::Moq { wt: wt_before, moq: moq_before }));
                    assert(self.state@ == (StateView::Moq { wt: wt_after, moq: moq_after }));
                    assert(connection_polled(wt_before, polled));
                    assert(session_polled(moq_before, moq_after, polled, wt_after, taken));
                }
                match taken {
                    Ok(()) => Ok(Step::Wait),
                    Err(e) => Err(e),
                }
            },
        }
    }
}

/// The helper of a client that writes its setup in a given draft and
/// subscribes without waiting for the server to allow requests.
pub struct ClientHelper {
    pub helper: MoqWebTransportHelper,
}

impl ClientHelper {
    pub fn new(setup_version: Version) -> (h: Self)
        requires
            version_known(setup_version),
        ensures
            h.helper.wf(),
            h.helper.state@ == StateView::Quic,
            !h.helper.server,
            h.helper.moq_config.setup_version == setup_version,
            h.helper.moq_config.supported_versions@ == default_supported_versions(),
            h.helper.moq_config.ignore_max_request_quota,
    {
        let mut config = Config::default();
        config.setup_version = setup_version;
        config.ignore_max_request_quota = true;
        Self { helper: MoqWebTransportHelper::new_client(config) }
    }

    /// As [`MoqWebTransportHelper::on_post_handle_recvs`].
    pub fn on_post_handle_recvs(&mut self, quic_ready: bool, webtransport_enabled: bool) -> (r:
        Result<Step>)
        requires
            old(self).helper.wf(),
        ensures
            final(self).helper.wf(),
            final(self).helper.moq_config == old(self).helper.moq_config,
            final(self).helper.server == old(self).helper.server,
            stepped(
                old(self).helper.state@,
                final(self).helper.state@,
                old(self).helper.server,
                old(self).helper.moq_config,
                quic_ready,
                webtransport_enabled,
                r,
            ),
    {
        self.helper.on_post_handle_recvs(quic_ready, webtransport_enabled)
    }
}

/// The layers when headers have arrived on a stream: the WebTransport
/// layer takes them in, where there is one.
pub open spec fn with_headers(state: StateView, stream_id: u64, headers: Seq<
    crate::webtransport::connection::HeaderView,
>) -> StateView {
    match state {
        StateView::Quic => StateView::Quic,
        StateView::H3 { wt } => StateView::H3 {
            wt: session_after_headers(wt, stream_id, headers),
        },
        StateView::Wt { wt, moq_session_id } => StateView::Wt {
            wt: session_after_headers(wt, stream_id, headers),
            moq_session_id,
        },
        StateView::Moq { wt, moq } => StateView::Moq {
            wt: session_after_headers(wt, stream_id, headers),
            moq,
        },
    }
}

/// The session of a server that has just been made.
pub open spec fn server_session(session_id: u64, config: Config) -> SessionView {
    SessionView {
        server: true,
        control_stream_id: None,
        session_id,
        ctrl_held: Seq::empty(),
        selected_version: None,
        next_request_id: 0,
        max_request_id: 0,
        in_streams: Map::empty(),
        in_tracks: Map::empty(),
        in_track_alias: Map::empty(),
        out_tracks: Map::empty(),
        next_out_track_alias: 0,
        pending_subscribe: Map::empty(),
        responses: Map::empty(),
        pending_streams: Map::empty(),
        pending_received_subscriptions: Map::empty(),
        out_streams: Map::empty(),
        setup_version: config.setup_version,
        supported_versions: config.supported_versions@,
        ignore_max_request_quota: config.ignore_max_request_quota,
    }
}

/// A connection on which nothing has happened yet.
pub open spec fn new_connection(is_server: bool) -> ConnectionView {
    ConnectionView {
        sessions: Set::empty(),
        streams: Map::empty(),
        closed: false,
        is_server,
        pending_requests: Set::empty(),
        pending_responds: Set::empty(),
        free_bidi: Seq::empty(),
        free_uni: Seq::empty(),
        initial_credit: 0,
    }
}

/// What a client does while it waits for its WebTransport session: it
/// takes in what has arrived, and once the session is established it makes
/// the Media over QUIC session in it. Where that fails the error is
/// returned and the client goes on waiting.
pub open spec fn client_stepped(
    wt: ConnectionView,
    moq_session_id: u64,
    after: StateView,
    config: Config,
    r: Result<Step>,
) -> bool {
    exists|polled: ConnectionView| #[trigger]
        connection_polled(wt, polled) && if !polled.sessions.contains(moq_session_id) {
            r matches Ok(Step::Wait) && after == (StateView::Wt { wt: polled, moq_session_id })
        } else {
            exists|made: Result<MoqTransportSession>, wt_after: ConnectionView| #[trigger]
                connected(polled, wt_after, moq_session_id, config, made) && match made {
                    Ok(session) => r matches Ok(Step::Again) && after == (StateView::Moq {
                        wt: wt_after,
                        moq: session@,
                    }),
                    Err(e) => r == Err::<Step, Error>(e) && after == (StateView::Wt {
                        wt: wt_after,
                        moq_session_id,
                    }),
                }
        }
}

/// What a call does once all layers are up: the connection and then the
/// session take in what has arrived.
pub open spec fn session_stepped(
    wt: ConnectionView,
    moq: SessionView,
    after: StateView,
    r: Result<Step>,
) -> bool {
    exists|polled: ConnectionView, taken: Result<()>| #[trigger]
        connection_polled(wt, polled) && after is Moq && #[trigger] session_polled(
            moq,
            after->Moq_moq,
            polled,
            after->Moq_wt,
            taken,
        ) && match taken {
            Ok(_) => r matches Ok(Step::Wait),
            Err(e) => r == Err::<Step, Error>(e),
        }
}

/// What one call does to the layers. QUIC that is ready gets HTTP/3 on it.
/// A client on which HTTP/3 runs asks for its session once the peer has
/// switched WebTransport on; a server makes the Media over QUIC session in
/// a WebTransport session that a client has opened.
pub open spec fn stepped(
    before: StateView,
    after: StateView,
    server: bool,
    config: Config,
    quic_ready: bool,
    webtransport_enabled: bool,
    r: Result<Step>,
) -> bool {
    match before {
        StateView::Quic => if quic_ready {
            r matches Ok(Step::StartH3) && after == (StateView::H3 { wt: new_connection(server) })
        } else {
            r matches Ok(Step::Wait) && after == before
        },
        StateView::H3 { wt } => if !server {
            after == before && if webtransport_enabled {
                r matches Ok(Step::Connect)
            } else {
                r matches Ok(Step::Wait)
            }
        } else if forall|id: u64| !wt.sessions.contains(id) {
            r matches Ok(Step::Wait) && after == before
        } else {
            r matches Ok(Step::Again) && exists|id: u64| #[trigger]
                wt.sessions.contains(id) && after == (StateView::Moq {
                    wt,
                    moq: server_session(id, config),
                })
        },
        StateView::Wt { wt, moq_session_id } => client_stepped(
            wt,
            moq_session_id,
            after,
            config,
            r,
        ),
        StateView::Moq { wt, moq } => session_stepped(wt, moq, after, r),
    }
}

} // verus!
