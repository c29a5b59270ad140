//! The session: the state of one Media over QUIC session over one
//! WebTransport session. It owns the control stream and every table of the
//! session, and routes what arrives to the track that it belongs to.

use crate::alias_list::AliasList;
use crate::config::Config;
use crate::error::Error;
use crate::error::Result;
use crate::in_stream::InStream;
use crate::in_stream::InStreamView;
use crate::in_stream::object_header_read;
use crate::in_stream::payload_read;
use crate::in_stream::stream_read;
use crate::in_track::ascending;
use crate::in_track::with_id;
use crate::in_track::without_id;
use crate::in_track::InTrack;
use crate::maps::keys_of;
use crate::maps::retain_marked;
use crate::out_stream::OutStream;
use crate::out_stream::State;
use crate::out_track::OutTrack;
use crate::pending_subscribe::PendingSubscribe;
use crate::short_buf::ShortBuf;
use crate::stream_id::StreamID;
use crate::webtransport;
use crate::webtransport::connection::ConnectionView;
use crate::webtransport::Connection;
use crate::webtransport::stream::StreamView;
use crate::wire::bytes::views;
use crate::wire::bytes::ToBytes;
use crate::wire::control_message::client_setup::versions_encodable;
use crate::wire::control_message::client_setup::ClientSetupView;
use crate::wire::control_message::subscribe::full_track_name_len;
use crate::wire::control_message::subscribe::lemma_valid_name_encodable;
use crate::wire::control_message::subscribe::lemma_valid_subscribe_fits;
use crate::wire::SUBSCRIBE_CONTROL_MESSAGE_ID;
use crate::wire::control_message::subscribe::track_name_valid;
use crate::wire::control_message::subscribe::FilterType;
use crate::wire::control_message::subscribe_ok::GroupOrder;
use crate::wire::control_message::subscribe_error::SubscribeErrorView;
use crate::wire::control_message::subscribe_ok::SubscribeOkView;
use crate::wire::control_message::announce::AnnounceView;
use crate::wire::control_message::announce_ok::announce_ok_encodable;
use crate::wire::control_message::announce_ok::AnnounceOkView;
use crate::wire::control_message::server_setup::ServerSetupView;
use crate::wire::bytes::FromBytes;
use crate::wire::control_message::parse_control_message;
use crate::wire::control_message::AnnounceMessage;
use crate::wire::error::Fault;
use crate::wire::namespace::Namespace;
use crate::wire::octets::Reader;
use crate::wire::subgroup::SubgroupHeader;
use crate::wire::tuple::tuple_encodable;
use crate::wire::tuple::Tuple;
use crate::wire::control_message::AnnounceOkMessage;
use crate::wire::control_message::ClientSetupMessage;
use crate::wire::control_message::ServerSetupMessage;
use crate::wire::is_version_known;
use crate::wire::tuple::tuple_fits;
use crate::wire::DEFAULT_MAX_REQUEST_ID_SETUP_PARAMETER;
use crate::wire::control_message::control_message_bytes;
use crate::wire::control_message::control_message_encodable;
use crate::wire::control_message::control_message_payload;
use crate::wire::control_message::control_message_too_long;
use crate::wire::control_message::control_message_type;
use crate::wire::control_message::lemma_control_message_is_framed;
use crate::wire::control_message::lemma_length_bytes_len;
use crate::wire::control_message::max_payload_len;
use crate::wire::control_message::ControlMessageView;
use crate::wire::is_version_until_10;
use crate::wire::is_version_until_11;
use crate::wire::key_value_pair::PairView;
use crate::wire::parameters::Parameters;
use crate::wire::role::Role;
use crate::wire::setup_parameters::setup_parameters_encodable;
use crate::wire::setup_parameters::SetupParameters;
use crate::wire::setup_parameters::SetupParametersView;
use crate::wire::version_until_10;
use crate::wire::version_until_11;
use crate::wire::MOQ_VERSION_DRAFT_07;
use crate::wire::RESET_STREAM_CODE_DELIVERY_TIMEOUT;
use crate::wire::control_message::subscribe::SubscribeView;
use crate::wire::control_message::ControlMessage;
use crate::wire::control_message::SubscribeErrorMessage;
use crate::wire::control_message::SubscribeMessage;
use crate::wire::control_message::SubscribeOkMessage;
use crate::wire::object::ObjectHeader;
use crate::wire::octets::Writer;
use crate::wire::prefix::lemma_control_message_carries;
use crate::wire::prefix::lemma_control_message_take;
use crate::wire::varint::begins;
use crate::wire::varint::lemma_varint_bytes_len;
use crate::wire::varint::varint_bytes;
use crate::wire::varint::varint_len;
use crate::wire::varint::MAX_VAR_INT;
use crate::wire::version_known;
use crate::wire::RequestId;
use crate::wire::TrackAlias;
use crate::wire::Version;
use std::collections::HashMap;
use vstd::prelude::*;

verus! {

/// The answer of the peer to a subscription: the track alias and the
/// SUBSCRIBE_OK, or the SUBSCRIBE_ERROR.
pub type SubscribeResponse = core::result::Result<
    (TrackAlias, SubscribeOkMessage),
    SubscribeErrorMessage,
>;

/// What an answer to a subscription is in contracts.
pub type ResponseView = core::result::Result<(TrackAlias, SubscribeOkView), SubscribeErrorView>;

/// The answer as contracts speak of it.
pub open spec fn response_view(r: SubscribeResponse) -> ResponseView {
    match r {
        Ok((alias, m)) => Ok((alias, m@)),
        Err(e) => Err(e@),
    }
}

/// The room of the buffer that holds a control message until it is
/// complete.
pub const CTRL_BUF_LEN: usize = 1024;

/// The length of the longest frame of a control message: a type of up to
/// eight bytes, the two bytes of the length, and the longest payload that
/// the length can say.
pub open spec fn max_frame_len(version: Version) -> nat {
    10 + max_payload_len(version)
}

/// The room in which a control message of the given draft is written: the
/// length of the longest frame.
pub fn frame_room(version: Version) -> (r: usize)
    ensures
        r == max_frame_len(version),
{
    if is_version_until_10(version) {
        16393
    } else {
        65545
    }
}

/// A control message that its length field can hold is no longer than the
/// longest frame.
pub proof fn lemma_control_message_fits_frame(m: ControlMessageView, version: Version)
    requires
        control_message_encodable(m, version),
        !control_message_too_long(m, version),
    ensures
        control_message_bytes(m, version).len() <= max_frame_len(version),
{
    lemma_control_message_is_framed(m, version);
    lemma_length_bytes_len(control_message_payload(m, version).len(), version);
    let ty = control_message_type(m, version);
    lemma_varint_bytes_len(ty, varint_len(ty));
}

/// The largest request id that this endpoint lets its peer use.
pub const OFFERED_MAX_REQUEST_ID: u64 = 100;

pub struct MoqTransportSession {
    server: bool,
    /// Always set for a client. Not set for a server until the client has
    /// opened the control stream.
    control_stream_id: Option<StreamID>,
    webtransport_session_id: StreamID,
    ctrl_buf: ShortBuf<CTRL_BUF_LEN>,
    /// Not set until the setup is complete.
    selected_version: Option<Version>,
    next_request_id: RequestId,
    max_request_id: RequestId,
    in_streams: HashMap<u64, InStream>,
    in_tracks: HashMap<u64, InTrack>,
    /// The tracks that this endpoint serves.
    out_tracks: HashMap<u64, OutTrack>,
    /// Used on drafts 12 and 13 alone.
    next_out_track_alias: TrackAlias,
    /// Subscriptions that the peer has not answered.
    pending_subscribe: HashMap<u64, PendingSubscribe>,
    /// Answers that the layer above has not fetched.
    pending_subscribe_responses: HashMap<u64, SubscribeResponse>,
    /// Streams of tracks whose SUBSCRIBE_OK has not arrived, by track alias.
    pending_streams: HashMap<u64, u64>,
    /// Subscriptions of the peer that have not been answered.
    pending_received_subscriptions: HashMap<u64, SubscribeMessage>,
    out_streams: HashMap<u64, OutStream>,
    config: Config,
}

/// What a session is in contracts.
pub struct SessionView {
    pub server: bool,
    pub control_stream_id: Option<u64>,
    pub session_id: u64,
    /// The bytes of the control stream that are held until a message is
    /// complete.
    pub ctrl_held: Seq<u8>,
    pub selected_version: Option<Version>,
    pub next_request_id: RequestId,
    pub max_request_id: RequestId,
    pub in_streams: Map<u64, InStreamView>,
    /// For each track that is received, its streams that can be read, in
    /// ascending order.
    pub in_tracks: Map<u64, Seq<u64>>,
    /// For each track that is received, the alias that the track itself
    /// holds.
    pub in_track_alias: Map<u64, TrackAlias>,
    /// For each track that is served, its current stream.
    pub out_tracks: Map<u64, Option<u64>>,
    pub next_out_track_alias: TrackAlias,
    /// For each subscription that is not answered, the track alias that the
    /// subscriber picked.
    pub pending_subscribe: Map<u64, Option<TrackAlias>>,
    /// The answers that wait to be fetched.
    pub responses: Map<u64, ResponseView>,
    pub pending_streams: Map<u64, u64>,
    pub pending_received_subscriptions: Map<u64, SubscribeView>,
    pub out_streams: Map<u64, OutStream>,
    pub setup_version: Version,
    pub supported_versions: Seq<Version>,
    pub ignore_max_request_quota: bool,
}

impl View for MoqTransportSession {
    type V = SessionView;

    closed spec fn view(&self) -> SessionView {
        SessionView {
            server: self.server,
            control_stream_id: match self.control_stream_id {
                Some(id) => Some(id.0),
                None => None,
            },
            session_id: self.webtransport_session_id.0,
            ctrl_held: self.ctrl_buf@,
            selected_version: self.selected_version,
            next_request_id: self.next_request_id,
            max_request_id: self.max_request_id,
            in_streams: Map::new(
                |k: u64| self.in_streams@.contains_key(k),
                |k: u64| self.in_streams@[k]@,
            ),
            in_tracks: Map::new(
                |k: u64| self.in_tracks@.contains_key(k),
                |k: u64| self.in_tracks@[k]@.readable_streams,
            ),
            in_track_alias: Map::new(
                |k: u64| self.in_tracks@.contains_key(k),
                |k: u64| self.in_tracks@[k]@.track_alias,
            ),
            out_tracks: Map::new(
                |k: u64| self.out_tracks@.contains_key(k),
                |k: u64|
                    match self.out_tracks@[k].current_stream_id {
                        Some(id) => Some(id.0),
                        None => None,
                    },
            ),
            next_out_track_alias: self.next_out_track_alias,
            pending_subscribe: Map::new(
                |k: u64| self.pending_subscribe@.contains_key(k),
                |k: u64| self.pending_subscribe@[k].track_alias,
            ),
            responses: Map::new(
                |k: u64| self.pending_subscribe_responses@.contains_key(k),
                |k: u64| response_view(self.pending_subscribe_responses@[k]),
            ),
            pending_streams: self.pending_streams@,
            pending_received_subscriptions: Map::new(
                |k: u64| self.pending_received_subscriptions@.contains_key(k),
                |k: u64| self.pending_received_subscriptions@[k]@,
            ),
            out_streams: self.out_streams@,
            setup_version: self.config.setup_version,
            supported_versions: self.config.supported_versions@,
            ignore_max_request_quota: self.config.ignore_max_request_quota,
        }
    }
}

impl SessionView {
    /// The draft in which the session reads and writes: the one that was
    /// selected, and before that the one of the setup.
    pub open spec fn version(self) -> Version {
        match self.selected_version {
            Some(v) => v,
            None => self.setup_version,
        }
    }

    /// The request ids of a client are odd, those of a server even.
    pub open spec fn request_id_parity(self) -> bool {
        self.next_request_id % 2 == if self.server {
            0int
        } else {
            1int
        }
    }

    pub open spec fn wf(self) -> bool {
        &&& version_known(self.setup_version)
        &&& version_known(self.version())
        &&& self.request_id_parity()
        &&& self.session_id <= MAX_VAR_INT
        &&& forall|k: u64| #[trigger]
            self.in_tracks.contains_key(k) ==> ascending(self.in_tracks[k]) && k <= MAX_VAR_INT
        &&& self.in_track_alias.dom() == self.in_tracks.dom()
        &&& forall|k: u64| #[trigger]
            self.in_track_alias.contains_key(k) ==> self.in_track_alias[k] == k
        &&& forall|k: u64| #[trigger]
            self.out_tracks.contains_key(k) ==> k <= MAX_VAR_INT
        &&& forall|k: u64| #[trigger]
            self.out_streams.contains_key(k) ==> {
                &&& self.out_streams[k].wf()
                &&& self.out_streams[k].stream_id.0 == k
                &&& self.out_streams[k].version == self.version()
            }
        &&& forall|k: u64| #[trigger]
            self.in_streams.contains_key(k) ==> {
                &&& self.in_streams[k].stream_id.0 == k
                &&& self.in_streams[k].session_id.0 == self.session_id
                &&& self.in_streams[k].version == self.version()
            }
        &&& forall|k: u64| #[trigger]
            self.out_tracks.contains_key(k) ==> (self.out_tracks[k] matches Some(id)
                ==> self.out_streams.contains_key(id) && self.out_streams[id].track_alias == k)
        &&& self.selected_version is None ==> self.in_streams.dom() == Set::<u64>::empty()
            && self.out_streams.dom() == Set::<u64>::empty()
        &&& forall|k: u64| #[trigger]
            self.pending_received_subscriptions.contains_key(k) ==> {
                let m = self.pending_received_subscriptions[k];
                &&& m.request_id == k
                &&& k <= MAX_VAR_INT
                &&& m.track_alias matches Some(a) ==> a <= MAX_VAR_INT
            }
    }
}

impl MoqTransportSession {
    /// The control stream is open and the setup messages have been
    /// exchanged.
    pub fn initialized(&self) -> (r: bool)
        ensures
            r == (self@.selected_version is Some),
    {
        self.selected_version.is_some()
    }

    /// The session of a server. Its control stream is the first stream that
    /// the client opens in both directions.
    pub fn accept(session_id: StreamID, config: Config) -> (s: Self)
        requires
            version_known(config.setup_version),
            session_id.0 <= MAX_VAR_INT,
        ensures
            s@ == (SessionView {
                server: true,
                control_stream_id: None,
                session_id: session_id.0,
                ctrl_held: Seq::empty(),
                selected_version: None,
                next_request_id: 0,
                max_request_id: 0,
                in_streams: Map::empty(),
                in_tracks: Map::empty(),
                in_track_alias: Map::empty(),
                out_tracks: Map::empty(),
                next_out_track_alias: 0,
                pending_subscribe: Map::empty(),
                responses: Map::empty(),
                pending_streams: Map::empty(),
                pending_received_subscriptions: Map::empty(),
                out_streams: Map::empty(),
                setup_version: config.setup_version,
                supported_versions: config.supported_versions@,
                ignore_max_request_quota: config.ignore_max_request_quota,
            }),
            s@.wf(),
    {
        Self::fresh(true, None, session_id, 0, config)
    }

    /// A session with nothing in its tables.
    fn fresh(
        server: bool,
        control_stream_id: Option<StreamID>,
        session_id: StreamID,
        next_request_id: RequestId,
        config: Config,
    ) -> (s: Self)
        requires
            version_known(config.setup_version),
            session_id.0 <= MAX_VAR_INT,
            next_request_id == if server {
                0u64
            } else {
                1u64
            },
        ensures
            s@ == (SessionView {
                server,
                control_stream_id: match control_stream_id {
                    Some(id) => Some(id.0),
                    None => None,
                },
                session_id: session_id.0,
                ctrl_held: Seq::empty(),
                selected_version: None,
                next_request_id,
                max_request_id: 0,
                in_streams: Map::empty(),
                in_tracks: Map::empty(),
                in_track_alias: Map::empty(),
                out_tracks: Map::empty(),
                next_out_track_alias: 0,
                pending_subscribe: Map::empty(),
                responses: Map::empty(),
                pending_streams: Map::empty(),
                pending_received_subscriptions: Map::empty(),
                out_streams: Map::empty(),
                setup_version: config.setup_version,
                supported_versions: config.supported_versions@,
                ignore_max_request_quota: config.ignore_max_request_quota,
            }),
            s@.wf(),
    {
        let s = Self {
            server,
            control_stream_id,
            webtransport_session_id: session_id,
            ctrl_buf: ShortBuf::new(),
            selected_version: None,
            next_request_id,
            max_request_id: 0,
            in_streams: HashMap::new(),
            in_tracks: HashMap::new(),
            out_tracks: HashMap::new(),
            next_out_track_alias: 0,
            pending_subscribe: HashMap::new(),
            pending_subscribe_responses: HashMap::new(),
            pending_streams: HashMap::new(),
            pending_received_subscriptions: HashMap::new(),
            out_streams: HashMap::new(),
            config,
        };
        proof {
            assert(s@.in_streams =~= Map::<u64, InStreamView>::empty());
            assert(s@.in_tracks =~= Map::<u64, Seq<u64>>::empty());
            assert(s@.in_track_alias =~= Map::<u64, TrackAlias>::empty());
            assert(s@.out_tracks =~= Map::<u64, Option<u64>>::empty());
            assert(s@.pending_subscribe =~= Map::<u64, Option<TrackAlias>>::empty());
            assert(s@.responses =~= Map::<u64, ResponseView>::empty());
            assert(s@.pending_received_subscriptions =~= Map::<u64, SubscribeView>::empty());
            assert(s@.in_streams.dom() =~= Set::<u64>::empty());
            assert(s@.out_streams.dom() =~= Set::<u64>::empty());
        }
        s
    }

    /// The draft in which the session reads and writes.
    pub fn version(&self) -> (r: Version)
        ensures
            r == self@.version(),
    {
        match self.selected_version {
            Some(v) => v,
            None => self.config.setup_version,
        }
    }

    /// The WebTransport session in which the session runs.
    pub fn session_id(&self) -> (r: StreamID)
        ensures
            r.0 == self@.session_id,
    {
        self.webtransport_session_id
    }

    /// The id of the control stream, once it is known.
    pub fn control_stream_id(&self) -> (r: Option<StreamID>)
        ensures
            match r {
                Some(id) => self@.control_stream_id == Some(id.0),
                None => self@.control_stream_id is None,
            },
    {
        self.control_stream_id
    }

    /// The request id that the next request of this endpoint gets.
    pub fn next_request_id(&self) -> (r: RequestId)
        ensures
            r == self@.next_request_id,
    {
        self.next_request_id
    }

    /// The largest request id that the peer lets this endpoint use.
    pub fn max_request_id(&self) -> (r: RequestId)
        ensures
            r == self@.max_request_id,
    {
        self.max_request_id
    }

    /// Writes the control message and sends it on the control stream, whole
    /// or not at all. `Done` where the control stream is not known yet or
    /// has no room for it.
    pub fn send_control_message(&self, wt: &mut Connection, cm: &ControlMessage) -> (r: Result<()>)
        requires
            self@.wf(),
            old(wt)@.wf(),
            ControlMessage::encodable(cm@, self@.version()),
        ensures
            final(wt)@.wf(),
            sent_control(self@, old(wt)@, final(wt)@, cm@, r),
    {
        let control_stream_id = match self.control_stream_id {
            Some(id) => id,
            None => {
                return Err(Error::Done);
            },
        };
        let version = self.version();
        let mut w = Writer::with_capacity(frame_room(version));
        proof {
            if !ControlMessage::too_long(cm@, version) {
                lemma_control_message_fits_frame(cm@, version);
            }
        }
        match cm.to_bytes(&mut w, version) {
            Ok(()) => {},
            Err(e) => {
                return Err(Error::Wire(e));
            },
        }
        assert(w.written() =~= ControlMessage::serialized(cm@, version));
        match wt.stream_send_if_capacity(control_stream_id.0, w.as_slice(), false) {
            Ok(()) => Ok(()),
            Err(webtransport::Error::InsufficientCapacity) => {
                assert(wt@.streams =~= old(wt)@.streams);
                Err(Error::Done)
            },
            Err(e) => {
                assert(wt@.streams =~= old(wt)@.streams);
                Err(Error::WT(e))
            },
        }
    }
}

/// What sending a control message leaves behind: its bytes on the control
/// stream, or the connection as it was.
pub open spec fn sent_control(
    s: SessionView,
    wt_before: ConnectionView,
    wt_after: ConnectionView,
    cm: crate::wire::control_message::ControlMessageView,
    r: Result<()>,
) -> bool {
    let bytes = ControlMessage::serialized(cm, s.version());
    match r {
        Ok(()) => {
            &&& s.control_stream_id matches Some(id)
            &&& wt_before.streams.contains_key(id)
            &&& !ControlMessage::invalid(cm, s.version())
            &&& !ControlMessage::too_long(cm, s.version())
            &&& crate::webtransport::stream::sent_whole(
                wt_before.streams[id],
                wt_after.streams[id],
                bytes,
                Ok::<(), webtransport::Error>(()),
            )
            &&& wt_after == wt_before.with_stream(id, wt_after.streams[id])
        },
        Err(e) => {
            &&& wt_after == wt_before
            &&& match s.control_stream_id {
                None => e is Done,
                Some(id) => if ControlMessage::invalid(cm, s.version()) || ControlMessage::too_long(
                    cm,
                    s.version(),
                ) {
                    e is Wire
                } else if !wt_before.streams.contains_key(id) {
                    e == Error::WT(webtransport::Error::NoStreamState)
                } else {
                    e is Done && !(wt_before.streams[id].capacity() >= bytes.len()
                        && wt_before.streams[id].credit >= wt_before.streams[id].prefix().len())
                },
            }
        },
    }
}

/// The CLIENT_SETUP that a client sends: the drafts of its configuration,
/// the largest request id that it lets the server use, and on draft 07 its
/// role.
pub open spec fn client_setup_sent(s: SessionView) -> ControlMessageView {
    ControlMessageView::ClientSetup(
        ClientSetupView {
            supported_versions: s.supported_versions,
            setup_parameters: offered_setup_parameters(s.setup_version),
        },
    )
}

/// The setup parameters that this endpoint sends on the given draft.
pub open spec fn offered_setup_parameters(version: Version) -> SetupParametersView {
    SetupParametersView {
        path: None,
        max_request_id: Some(OFFERED_MAX_REQUEST_ID),
        role: if version == MOQ_VERSION_DRAFT_07 {
            Some(Role::PubSub)
        } else {
            None
        },
        extra_parameters: Seq::empty(),
    }
}

/// The SUBSCRIBE that a session sends for a track: from the next group on,
/// with the request id as the track alias on drafts 07 to 11.
pub open spec fn subscribe_sent(
    s: SessionView,
    namespace: Seq<Seq<u8>>,
    trackname: Seq<u8>,
) -> SubscribeView {
    SubscribeView {
        request_id: s.next_request_id,
        track_alias: if version_until_11(s.version()) {
            Some(s.next_request_id)
        } else {
            None
        },
        track_namespace: namespace,
        track_name: trackname,
        subscriber_priority: 1,
        group_order: 2,
        forward: if version_until_10(s.version()) {
            None
        } else {
            Some(0u8)
        },
        filter_type: FilterType::NextGroupStart,
        start_location: None,
        end_group: None,
        parameters: Seq::empty(),
    }
}

/// What a call of `subscribe` leaves behind. Where the peer has not allowed
/// another request, `RequestBlocked` and nothing changes. Where the name of
/// the track breaks the limits, or the SUBSCRIBE cannot be sent, the error
/// and nothing changes. A SUBSCRIBE for a name within the limits is no
/// longer than the name and 360 bytes more, and fails only for want of
/// the control stream or of room on it. Else the SUBSCRIBE is on the control stream, the
/// subscription waits for its answer, and the next request id is the one
/// after the next.
pub open spec fn subscribed(
    before: SessionView,
    after: SessionView,
    wt_before: ConnectionView,
    wt_after: ConnectionView,
    namespace: Seq<Seq<u8>>,
    trackname: Seq<u8>,
    r: Result<RequestId>,
) -> bool {
    let m = subscribe_sent(before, namespace, trackname);
    if (before.next_request_id > before.max_request_id && !before.ignore_max_request_quota)
        || before.next_request_id > MAX_VAR_INT - 2 {
        r is Err && r->Err_0 is RequestBlocked && after == before && wt_after == wt_before
    } else if !track_name_valid(m) {
        r is Err && r->Err_0 is Wire && after == before && wt_after == wt_before
    } else {
        match r {
            Ok(id) => {
                &&& id == before.next_request_id
                &&& sent_control(
                    before,
                    wt_before,
                    wt_after,
                    ControlMessageView::Subscribe(m),
                    Ok::<(), Error>(()),
                )
                &&& after == (SessionView {
                    pending_subscribe: before.pending_subscribe.insert(id, m.track_alias),
                    next_request_id: (id + 2) as u64,
                    ..before
                })
            },
            Err(e) => {
                &&& sent_control(
                    before,
                    wt_before,
                    wt_after,
                    ControlMessageView::Subscribe(m),
                    Err::<(), Error>(e),
                )
                &&& !(e is Wire)
                &&& ControlMessage::serialized(
                    ControlMessageView::Subscribe(m),
                    before.version(),
                ).len() <= full_track_name_len(m) + 360
                &&& after == before
            },
        }
    }
}

/// The SUBSCRIBE_OK that accepts the subscription `m` with the track alias
/// `alias`, which it names on drafts 12 and 13 alone.
pub open spec fn subscribe_ok_sent(s: SessionView, m: SubscribeView, alias: TrackAlias) -> SubscribeOkView {
    SubscribeOkView {
        request_id: m.request_id,
        track_alias: if version_until_11(s.version()) {
            None
        } else {
            Some(alias)
        },
        expires: 0,
        group_order: GroupOrder::Ascending,
        largest_location: None,
        parameters: Seq::empty(),
    }
}

/// The track alias of a subscription that is accepted: the one that the
/// subscriber picked on drafts 07 to 11, the next free one of this endpoint
/// on drafts 12 and 13.
pub open spec fn accepted_alias(s: SessionView, m: SubscribeView) -> TrackAlias {
    if version_until_11(s.version()) {
        m.track_alias->Some_0
    } else {
        s.next_out_track_alias
    }
}

/// What accepting a subscription leaves behind. Where the SUBSCRIBE_OK
/// cannot be sent, the error and nothing changes. Else the SUBSCRIBE_OK is
/// on the control stream, the subscription waits no more, and the track is
/// served under its alias.
pub open spec fn accepted(
    before: SessionView,
    after: SessionView,
    wt_before: ConnectionView,
    wt_after: ConnectionView,
    request_id: RequestId,
    r: Result<TrackAlias>,
) -> bool {
    let m = before.pending_received_subscriptions[request_id];
    let alias = accepted_alias(before, m);
    if version_until_11(before.version()) != (m.track_alias is Some) || (!version_until_11(
        before.version(),
    ) && alias > MAX_VAR_INT - 1) {
        r is Err && r->Err_0 is Unimplemented && after == before && wt_after == wt_before
    } else {
        let ok = ControlMessageView::SubscribeOk(subscribe_ok_sent(before, m, alias));
        match r {
            Ok(a) => {
                &&& a == alias
                &&& sent_control(before, wt_before, wt_after, ok, Ok::<(), Error>(()))
                &&& after == (SessionView {
                    pending_received_subscriptions: before.pending_received_subscriptions.remove(
                        request_id,
                    ),
                    out_tracks: before.out_tracks.insert(alias, None),
                    next_out_track_alias: if version_until_11(before.version()) {
                        before.next_out_track_alias
                    } else {
                        (before.next_out_track_alias + 1) as u64
                    },
                    ..before
                })
            },
            Err(e) => {
                &&& sent_control(before, wt_before, wt_after, ok, Err::<(), Error>(e))
                &&& after == before
            },
        }
    }
}

/// The session of a client that has just been made, with the control
/// stream `control`.
pub open spec fn client_session(session_id: u64, control: u64, config: Config) -> SessionView {
    SessionView {
        server: false,
        control_stream_id: Some(control),
        session_id,
        ctrl_held: Seq::empty(),
        selected_version: None,
        next_request_id: 1,
        max_request_id: 0,
        in_streams: Map::empty(),
        in_tracks: Map::empty(),
        in_track_alias: Map::empty(),
        out_tracks: Map::empty(),
        next_out_track_alias: 0,
        pending_subscribe: Map::empty(),
        responses: Map::empty(),
        pending_streams: Map::empty(),
        pending_received_subscriptions: Map::empty(),
        out_streams: Map::empty(),
        setup_version: config.setup_version,
        supported_versions: config.supported_versions@,
        ignore_max_request_quota: config.ignore_max_request_quota,
    }
}

/// What making the session of a client leaves behind. The control stream
/// is the stream in both directions that the connection has on offer:
/// `InsufficientCapacity` where it has none. `Unimplemented` where a draft
/// of the configuration does not fit 62 bits. Else CLIENT_SETUP is sent on
/// the control stream, and where that fails the error is returned, with
/// the stream left open.
pub open spec fn connected(
    wt_before: ConnectionView,
    wt_after: ConnectionView,
    session_id: u64,
    config: Config,
    r: Result<MoqTransportSession>,
) -> bool {
    if wt_before.free_bidi.len() == 0 {
        r matches Err(Error::InsufficientCapacity) && wt_after == wt_before
    } else {
        let s = client_session(session_id, wt_before.free_bidi.last(), config);
        let wt_open = opened(wt_before, session_id, true);
        if !versions_encodable(config.supported_versions@) {
            r matches Err(Error::Unimplemented) && wt_after == wt_open
        } else {
            match r {
                Ok(session) => session@ == s && s.wf() && sent_control(
                    s,
                    wt_open,
                    wt_after,
                    client_setup_sent(s),
                    Ok::<(), Error>(()),
                ),
                Err(e) => sent_control(
                    s,
                    wt_open,
                    wt_after,
                    client_setup_sent(s),
                    Err::<(), Error>(e),
                ),
            }
        }
    }
}

impl MoqTransportSession {
    /// The session of a client: opens the control stream and sends
    /// CLIENT_SETUP on it.
    pub fn connect(session_id: StreamID, wt: &mut Connection, config: Config) -> (r: Result<Self>)
        requires
            version_known(config.setup_version),
            session_id.0 <= MAX_VAR_INT,
            old(wt)@.wf(),
            old(wt)@.sessions.contains(session_id.0),
        ensures
            final(wt)@.wf(),
            connected(old(wt)@, final(wt)@, session_id.0, config, r),
    {
        let control_stream_id = match wt.open_stream(session_id.0, true) {
            Ok(id) => id,
            Err(_) => {
                return Err(Error::InsufficientCapacity);
            },
        };
        let supported_versions = config.clone().supported_versions;
        let setup_version = config.setup_version;
        let s = Self::fresh(false, Some(StreamID(control_stream_id)), session_id, 1, config);
        if !all_fit(&supported_versions) {
            return Err(Error::Unimplemented);
        }
        let cm = ControlMessage::ClientSetup(
            ClientSetupMessage {
                supported_versions,
                setup_parameters: offered_parameters(setup_version),
            },
        );
        proof {
            lemma_offered_encodable(setup_version);
        }
        match s.send_control_message(wt, &cm) {
            Ok(()) => Ok(s),
            Err(e) => Err(e),
        }
    }

    /// Asks the peer for the objects of a track. Returns the request id of
    /// the subscription.
    pub fn subscribe(
        &mut self,
        wt: &mut Connection,
        namespace: Vec<Vec<u8>>,
        trackname: Vec<u8>,
    ) -> (r: Result<RequestId>)
        requires
            old(self)@.wf(),
            old(wt)@.wf(),
        ensures
            final(self)@.wf(),
            final(wt)@.wf(),
            subscribed(
                old(self)@,
                final(self)@,
                old(wt)@,
                final(wt)@,
                views(namespace@),
                trackname@,
                r,
            ),
    {
        broadcast use vstd::std_specs::hash::group_hash_axioms;

        if (self.next_request_id > self.max_request_id && !self.config.ignore_max_request_quota)
            || self.next_request_id > MAX_VAR_INT - 2 {
            return Err(Error::RequestBlocked);
        }
        let version = self.version();
        let request_id = self.next_request_id;
        let track_alias = if is_version_until_11(version) {
            Some(request_id)
        } else {
            None
        };
        let forward = if is_version_until_10(version) {
            None
        } else {
            Some(0u8)
        };
        let m = SubscribeMessage {
            request_id,
            track_alias,
            track_namespace: namespace,
            track_name: trackname,
            subscriber_priority: 1,
            group_order: 2,
            forward,
            filter_type: FilterType::NextGroupStart,
            start_location: None,
            end_group: None,
            parameters: Parameters(Vec::new()),
        };
        assert(m@.parameters =~= Seq::<PairView>::empty());
        assert(m@ == subscribe_sent(self@, views(namespace@), trackname@));
        match m.validate() {
            Ok(()) => {},
            Err(e) => {
                return Err(Error::Wire(e));
            },
        }
        proof {
            lemma_valid_name_encodable(m@);
            lemma_valid_subscribe_fits(m@, version);
            lemma_control_message_is_framed(ControlMessageView::Subscribe(m@), version);
            lemma_length_bytes_len(
                control_message_payload(ControlMessageView::Subscribe(m@), version).len(),
                version,
            );
            lemma_varint_bytes_len(
                SUBSCRIBE_CONTROL_MESSAGE_ID,
                varint_len(SUBSCRIBE_CONTROL_MESSAGE_ID),
            );
        }
        let cm = ControlMessage::Subscribe(m);
        match self.send_control_message(wt, &cm) {
            Ok(()) => {},
            Err(e) => {
                return Err(e);
            },
        }
        self.pending_subscribe.insert(request_id, PendingSubscribe::new(track_alias));
        self.next_request_id = request_id + 2;
        proof {
            assert(self@.pending_subscribe =~= old(self)@.pending_subscribe.insert(
                request_id,
                track_alias,
            ));
            assert(self@.in_tracks =~= old(self)@.in_tracks);
            assert(self@.out_tracks =~= old(self)@.out_tracks);
            assert(self@.in_streams =~= old(self)@.in_streams);
            assert(self@.pending_received_subscriptions =~= old(self)@.pending_received_subscriptions);
        }
        Ok(request_id)
    }

    /// Whether the subscription of the peer with this request id waits for
    /// an answer.
    pub fn has_pending_received_subscription(&self, request_id: RequestId) -> (r: bool)
        ensures
            r == self@.pending_received_subscriptions.contains_key(request_id),
    {
        broadcast use vstd::std_specs::hash::group_hash_axioms;

        self.pending_received_subscriptions.contains_key(&request_id)
    }

    /// Accepts a subscription of the peer: sends SUBSCRIBE_OK and begins to
    /// serve the track. Returns the alias of the track.
    pub fn accept_subscription(&mut self, wt: &mut Connection, request_id: RequestId) -> (r: Result<
        TrackAlias,
    >)
        requires
            old(self)@.wf(),
            old(wt)@.wf(),
            old(self)@.pending_received_subscriptions.contains_key(request_id),
        ensures
            final(self)@.wf(),
            final(wt)@.wf(),
            accepted(old(self)@, final(self)@, old(wt)@, final(wt)@, request_id, r),
    {
        broadcast use vstd::std_specs::hash::group_hash_axioms;

        let version = self.version();
        let until_11 = is_version_until_11(version);
        let (out_cm, track_alias) = {
            let cm = self.pending_received_subscriptions.get(&request_id).unwrap();
            assert(self@.pending_received_subscriptions[request_id] == cm@);
            if until_11 != cm.track_alias.is_some() {
                return Err(Error::Unimplemented);
            }
            if until_11 {
                let alias = cm.track_alias.unwrap();
                (ControlMessage::SubscribeOk(SubscribeOkMessage::from(cm, None)), alias)
            } else {
                let alias = self.next_out_track_alias;
                if alias > MAX_VAR_INT - 1 {
                    return Err(Error::Unimplemented);
                }
                (ControlMessage::SubscribeOk(SubscribeOkMessage::from(cm, Some(alias))), alias)
            }
        };
        assert(out_cm@ == ControlMessageView::SubscribeOk(
            subscribe_ok_sent(
                self@,
                self@.pending_received_subscriptions[request_id],
                track_alias,
            ),
        ));
        match self.send_control_message(wt, &out_cm) {
            Ok(()) => {},
            Err(e) => {
                return Err(e);
            },
        }
        if !until_11 {
            self.next_out_track_alias = track_alias + 1;
        }
        let _ = self.pending_received_subscriptions.remove(&request_id);
        self.out_tracks.insert(track_alias, OutTrack::new());
        proof {
            assert(self@.pending_received_subscriptions =~= old(self)@.pending_received_subscriptions.remove(request_id));
            assert(self@.out_tracks =~= old(self)@.out_tracks.insert(track_alias, None));
            assert(self@.in_tracks =~= old(self)@.in_tracks);
            assert(self@.in_streams =~= old(self)@.in_streams);
            assert(self@.pending_subscribe =~= old(self)@.pending_subscribe);
            assert(track_alias <= MAX_VAR_INT);
        }
        Ok(track_alias)
    }
}

/// The connection with the stream that is on offer opened in the session.
pub open spec fn opened(wt: ConnectionView, session_id: u64, bidi: bool) -> ConnectionView {
    let free = if bidi {
        wt.free_bidi
    } else {
        wt.free_uni
    };
    ConnectionView {
        streams: wt.streams.insert(free.last(), wt.fresh_local(free.last(), session_id)),
        free_bidi: if bidi {
            free.drop_last()
        } else {
            wt.free_bidi
        },
        free_uni: if bidi {
            wt.free_uni
        } else {
            free.drop_last()
        },
        ..wt
    }
}

/// Whether each of the numbers fits 62 bits.
pub fn all_fit(v: &Vec<u64>) -> (r: bool)
    ensures
        r == versions_encodable(v@),
{
    if v.len() as u64 > MAX_VAR_INT {
        return false;
    }
    let mut i: usize = 0;
    while i < v.len()
        invariant
            i <= v@.len(),
            forall|k: int| 0 <= k < i ==> #[trigger] v@[k] <= MAX_VAR_INT,
        decreases v@.len() - i,
    {
        if v[i] > MAX_VAR_INT {
            return false;
        }
        i += 1;
    }
    true
}

/// The setup parameters that this endpoint sends on the given draft.
pub fn offered_parameters(version: Version) -> (p: SetupParameters)
    ensures
        p@ == offered_setup_parameters(version),
{
    let mut p = SetupParameters::new();
    p.max_request_id = Some(OFFERED_MAX_REQUEST_ID);
    if version == MOQ_VERSION_DRAFT_07 {
        p.role = Some(Role::PubSub);
    }
    p
}

/// The setup parameters that this endpoint sends can be written on every
/// draft.
pub proof fn lemma_offered_encodable(version: Version)
    requires
        version_known(version),
    ensures
        setup_parameters_encodable(offered_setup_parameters(version), version),
{
}

/// The session and the connection with a stream for the track: the one that
/// the track has, or else the stream that is on offer, opened for it.
pub open spec fn with_out_stream(s: SessionView, wt: ConnectionView, alias: TrackAlias) -> (
    SessionView,
    ConnectionView,
) {
    if s.out_tracks[alias] is Some {
        (s, wt)
    } else {
        let id = wt.free_uni.last();
        (
            SessionView {
                out_tracks: s.out_tracks.insert(alias, Some(id)),
                out_streams: s.out_streams.insert(
                    id,
                    OutStream {
                        stream_id: StreamID(id),
                        state: State::SubgroupHeader,
                        track_alias: alias,
                        version: s.version(),
                    },
                ),
                ..s
            },
            opened(wt, s.session_id, false),
        )
    }
}

/// The track has no stream and none can be opened for it: none is on offer,
/// or the one on offer is in use.
pub open spec fn no_out_stream(s: SessionView, wt: ConnectionView, alias: TrackAlias) -> bool {
    s.out_tracks[alias] is None && (wt.free_uni.len() == 0 || s.out_streams.contains_key(
        wt.free_uni.last(),
    ))
}

/// What sending one whole object on a track leaves behind. The track
/// sends on the stream that it has, or on the stream that is on offer,
/// opened for it: `InsufficientCapacity` where it has none and none can be
/// opened. The object goes on that stream whole or not at all.
pub open spec fn object_sent(
    before: SessionView,
    after: SessionView,
    wt_before: ConnectionView,
    wt_after: ConnectionView,
    alias: TrackAlias,
    buf: Seq<u8>,
    r: Result<()>,
) -> bool {
    if no_out_stream(before, wt_before, alias) {
        r is Err && r->Err_0 is InsufficientCapacity && after == before && wt_after == wt_before
    } else {
        let (s, w) = with_out_stream(before, wt_before, alias);
        let id = s.out_tracks[alias]->Some_0;
        if !w.streams.contains_key(id) {
            r is Err && r->Err_0 == Error::WT(webtransport::Error::NoStreamState) && after == s
                && wt_after == w
        } else {
            &&& after.out_streams.contains_key(id)
            &&& after == with_stream_state(s, id, after.out_streams[id])
            &&& crate::out_stream::sent_object(
                s.out_streams[id],
                after.out_streams[id],
                w,
                wt_after,
                buf,
                r,
            )
        }
    }
}

/// What giving up the stream of a track leaves behind: the stream is reset
/// with the code for a delivery that took too long, the session forgets
/// it, and the track has no stream. `Done` where the track has none.
pub open spec fn timed_out(
    before: SessionView,
    after: SessionView,
    wt_before: ConnectionView,
    wt_after: ConnectionView,
    alias: TrackAlias,
    r: Result<()>,
) -> bool {
    match before.out_tracks[alias] {
        None => r is Err && r->Err_0 is Done && after == before && wt_after == wt_before,
        Some(id) => {
            &&& r is Ok
            &&& after == (SessionView {
                out_tracks: before.out_tracks.insert(alias, None),
                out_streams: before.out_streams.remove(id),
                ..before
            })
            &&& wt_after == if wt_before.streams.contains_key(id) {
                wt_before.with_stream(
                    id,
                    StreamView {
                        reset: Some(RESET_STREAM_CODE_DELIVERY_TIMEOUT),
                        ..wt_before.streams[id]
                    },
                )
            } else {
                wt_before
            }
        },
    }
}

/// The session with the outgoing stream `id` changed to `stream`.
pub open spec fn with_stream_state(s: SessionView, id: u64, stream: OutStream) -> SessionView {
    SessionView { out_streams: s.out_streams.insert(id, stream), ..s }
}

impl MoqTransportSession {
    /// Whether the session serves a track under this alias.
    pub fn has_out_track(&self, track_alias: TrackAlias) -> (r: bool)
        ensures
            r == self@.out_tracks.contains_key(track_alias),
    {
        broadcast use vstd::std_specs::hash::group_hash_axioms;

        self.out_tracks.contains_key(&track_alias)
    }

    /// Whether the session receives a track under this alias.
    pub fn has_in_track(&self, track_alias: TrackAlias) -> (r: bool)
        ensures
            r == self@.in_tracks.contains_key(track_alias),
    {
        broadcast use vstd::std_specs::hash::group_hash_axioms;

        self.in_tracks.contains_key(&track_alias)
    }

    /// The stream on which the track sends now.
    pub fn current_out_stream(&self, track_alias: TrackAlias) -> (r: Option<StreamID>)
        requires
            self@.out_tracks.contains_key(track_alias),
        ensures
            match r {
                Some(id) => self@.out_tracks[track_alias] == Some(id.0),
                None => self@.out_tracks[track_alias] is None,
            },
    {
        broadcast use vstd::std_specs::hash::group_hash_axioms;

        let track = self.out_tracks.get(&track_alias).unwrap();
        track.current_stream_id
    }

    /// The aliases of the tracks that are served, each once.
    pub fn writable(&self) -> (r: AliasList)
        ensures
            r@.to_set() == self@.out_tracks.dom(),
            r@.no_duplicates(),
    {
        let keys = keys_of(&self.out_tracks);
        assert(self@.out_tracks.dom() =~= self.out_tracks@.dom());
        AliasList::from_aliases(&keys)
    }

    /// The request id of a subscription of the peer that waits for an
    /// answer, where there is one.
    pub fn next_pending_received_subscription(&self) -> (r: Option<RequestId>)
        ensures
            match r {
                Some(id) => self@.pending_received_subscriptions.contains_key(id),
                None => self@.pending_received_subscriptions.dom() == Set::<u64>::empty(),
            },
    {
        let keys = keys_of(&self.pending_received_subscriptions);
        assert(self@.pending_received_subscriptions.dom()
            =~= self.pending_received_subscriptions@.dom());
        if keys.len() > 0 {
            assert(keys@.to_set().contains(keys@[0]));
            Some(keys[0])
        } else {
            assert(keys@.to_set() =~= Set::<u64>::empty());
            None
        }
    }

    /// The subscription of the peer with this request id.
    pub fn pending_received_subscription(&self, request_id: RequestId) -> (r: &SubscribeMessage)
        requires
            self@.pending_received_subscriptions.contains_key(request_id),
        ensures
            r@ == self@.pending_received_subscriptions[request_id],
    {
        broadcast use vstd::std_specs::hash::group_hash_axioms;

        self.pending_received_subscriptions.get(&request_id).unwrap()
    }

    /// Fetches the answer of the peer to the subscription with this request
    /// id, where it has arrived.
    pub fn poll_subscribe_response(&mut self, request_id: RequestId) -> (r: Option<
        SubscribeResponse,
    >)
        requires
            old(self)@.wf(),
        ensures
            final(self)@.wf(),
            final(self)@ == (SessionView {
                responses: old(self)@.responses.remove(request_id),
                ..old(self)@
            }),
            match r {
                Some(response) => old(self)@.responses.contains_key(request_id) && response_view(
                    response,
                ) == old(self)@.responses[request_id],
                None => !old(self)@.responses.contains_key(request_id),
            },
    {
        broadcast use vstd::std_specs::hash::group_hash_axioms;

        let r = self.pending_subscribe_responses.remove(&request_id);
        proof {
            assert(self@.responses =~= old(self)@.responses.remove(request_id));
            self.lemma_frame(*old(self));
        }
        r
    }

    /// Tables that were not touched look the same.
    proof fn lemma_frame(&self, before: Self)
        ensures
            self.in_streams == before.in_streams ==> self@.in_streams == before@.in_streams,
            self.in_tracks == before.in_tracks ==> self@.in_tracks == before@.in_tracks
                && self@.in_track_alias == before@.in_track_alias,
            self.out_tracks == before.out_tracks ==> self@.out_tracks == before@.out_tracks,
            self.pending_subscribe == before.pending_subscribe ==> self@.pending_subscribe
                == before@.pending_subscribe,
            self.pending_subscribe_responses == before.pending_subscribe_responses
                ==> self@.responses == before@.responses,
            self.pending_received_subscriptions == before.pending_received_subscriptions
                ==> self@.pending_received_subscriptions
                == before@.pending_received_subscriptions,
    {
        if self.in_streams == before.in_streams {
            assert(self@.in_streams =~= before@.in_streams);
        }
        if self.in_tracks == before.in_tracks {
            assert(self@.in_tracks =~= before@.in_tracks);
            assert(self@.in_track_alias =~= before@.in_track_alias);
        }
        if self.out_tracks == before.out_tracks {
            assert(self@.out_tracks =~= before@.out_tracks);
        }
        if self.pending_subscribe == before.pending_subscribe {
            assert(self@.pending_subscribe =~= before@.pending_subscribe);
        }
        if self.pending_subscribe_responses == before.pending_subscribe_responses {
            assert(self@.responses =~= before@.responses);
        }
        if self.pending_received_subscriptions == before.pending_received_subscriptions {
            assert(self@.pending_received_subscriptions
                =~= before@.pending_received_subscriptions);
        }
    }

    /// The stream on which the track sends: the one that it has, or else a
    /// new one, which is opened for it.
    fn out_stream_for(&mut self, track_alias: TrackAlias, wt: &mut Connection) -> (r: Result<u64>)
        requires
            old(self)@.wf(),
            old(wt)@.wf(),
            old(self)@.out_tracks.contains_key(track_alias),
            old(self)@.selected_version is Some,
            old(wt)@.sessions.contains(old(self)@.session_id),
        ensures
            final(self)@.wf(),
            final(wt)@.wf(),
            final(wt)@.sessions == old(wt)@.sessions,
            match r {
                Ok(id) => {
                    &&& !no_out_stream(old(self)@, old(wt)@, track_alias)
                    &&& (final(self)@, final(wt)@) == with_out_stream(
                        old(self)@,
                        old(wt)@,
                        track_alias,
                    )
                    &&& final(self)@.out_tracks[track_alias] == Some(id)
                    &&& final(self)@.out_streams.contains_key(id)
                },
                Err(e) => e is InsufficientCapacity && no_out_stream(
                    old(self)@,
                    old(wt)@,
                    track_alias,
                ) && final(self)@ == old(self)@ && final(wt)@ == old(wt)@,
            },
    {
        broadcast use vstd::std_specs::hash::group_hash_axioms;

        let current = self.current_out_stream(track_alias);
        match current {
            Some(id) => Ok(id.0),
            None => {
                match wt.next_free(false) {
                    Some(id) => {
                        if self.out_streams.contains_key(&id) {
                            return Err(Error::InsufficientCapacity);
                        }
                    },
                    None => {
                        return Err(Error::InsufficientCapacity);
                    },
                }
                let id = match wt.open_stream(self.webtransport_session_id.0, false) {
                    Ok(id) => id,
                    Err(_) => {
                        return Err(Error::InsufficientCapacity);
                    },
                };
                let version = self.version();
                self.out_tracks.insert(track_alias, OutTrack { current_stream_id: Some(StreamID(id)) });
                self.out_streams.insert(id, OutStream::new(StreamID(id), track_alias, version));
                proof {
                    assert(self@.out_tracks =~= old(self)@.out_tracks.insert(track_alias, Some(id)));
                    self.lemma_frame(*old(self));
                }
                Ok(id)
            },
        }
    }

    /// Sends one whole object on the track, or nothing. Opens a stream for
    /// the track where it has none.
    pub fn send_obj(&mut self, buf: &[u8], track_alias: TrackAlias, wt: &mut Connection) -> (r: Result<
        (),
    >)
        requires
            buf@.len() > 0,
            old(self)@.wf(),
            old(wt)@.wf(),
            old(self)@.out_tracks.contains_key(track_alias),
            old(self)@.selected_version is Some,
            old(wt)@.sessions.contains(old(self)@.session_id),
        ensures
            final(self)@.wf(),
            final(wt)@.wf(),
            object_sent(old(self)@, final(self)@, old(wt)@, final(wt)@, track_alias, buf@, r),
    {
        broadcast use vstd::std_specs::hash::group_hash_axioms;

        let id = self.out_stream_for(track_alias, wt)?;
        if !wt.has_stream(id) {
            return Err(Error::WT(webtransport::Error::NoStreamState));
        }
        let ghost mid = *self;
        let mut stream = *self.out_streams.get(&id).unwrap();
        let r = stream.send_obj(wt, buf);
        self.out_streams.insert(id, stream);
        proof {
            self.lemma_frame(mid);
        }
        r
    }

    /// Begins an object of `size` bytes on the track: sends the headers.
    /// Opens a stream for the track where it has none.
    pub fn send_obj_hdr(&mut self, size: usize, track_alias: TrackAlias, wt: &mut Connection) -> (r:
        Result<()>)
        requires
            size > 0,
            old(self)@.wf(),
            old(wt)@.wf(),
            old(self)@.out_tracks.contains_key(track_alias),
            old(self)@.selected_version is Some,
            old(wt)@.sessions.contains(old(self)@.session_id),
        ensures
            final(self)@.wf(),
            final(wt)@.wf(),
            if no_out_stream(old(self)@, old(wt)@, track_alias) {
                r is Err && r->Err_0 is InsufficientCapacity && final(self)@ == old(self)@
                    && final(wt)@ == old(wt)@
            } else {
                let (s, w) = with_out_stream(old(self)@, old(wt)@, track_alias);
                let id = s.out_tracks[track_alias]->Some_0;
                if !w.streams.contains_key(id) {
                    r is Err && r->Err_0 == Error::WT(webtransport::Error::NoStreamState) && final(self)@ == s && final(wt)@ == w
                } else {
                    &&& final(self)@.out_streams.contains_key(id)
                    &&& final(self)@ == with_stream_state(s, id, final(self)@.out_streams[id])
                    &&& crate::out_stream::began_object(
                        s.out_streams[id],
                        final(self)@.out_streams[id],
                        w,
                        final(wt)@,
                        size as u64,
                        r,
                    )
                }
            },
    {
        broadcast use vstd::std_specs::hash::group_hash_axioms;

        let id = self.out_stream_for(track_alias, wt)?;
        if !wt.has_stream(id) {
            return Err(Error::WT(webtransport::Error::NoStreamState));
        }
        let ghost mid = *self;
        let mut stream = *self.out_streams.get(&id).unwrap();
        let r = stream.send_obj_hdr(size, wt);
        self.out_streams.insert(id, stream);
        proof {
            self.lemma_frame(mid);
        }
        r
    }

    /// Sends bytes of the payload of the object that was begun on the track,
    /// as many as its stream takes. `Done` where it takes none.
    pub fn send_obj_pld(&mut self, buf: &[u8], track_alias: TrackAlias, wt: &mut Connection) -> (r:
        Result<usize>)
        requires
            old(self)@.wf(),
            old(wt)@.wf(),
            old(self)@.out_tracks.contains_key(track_alias),
            old(self)@.out_tracks[track_alias] matches Some(id) && old(self)@.out_streams[id].state
                matches State::ObjectPayload { remaining_bytes, .. } && buf@.len()
                <= remaining_bytes,
        ensures
            final(self)@.wf(),
            final(wt)@.wf(),
            payload_sent(old(self)@, final(self)@, old(wt)@, final(wt)@, track_alias, buf@, r),
    {
        broadcast use vstd::std_specs::hash::group_hash_axioms;

        let id = match self.current_out_stream(track_alias) {
            Some(id) => id.0,
            None => unreached(),
        };
        let mut stream = *self.out_streams.get(&id).unwrap();
        if !wt.has_stream(id) {
            return Err(Error::WT(webtransport::Error::NoStreamState));
        }
        let r = stream.send_obj_pld(buf, wt);
        self.out_streams.insert(id, stream);
        proof {
            self.lemma_frame(*old(self));
        }
        r
    }

    /// Gives up the stream on which the track sends, with the code for a
    /// delivery that took too long. The next object of the track opens a new
    /// stream.
    pub fn timeout_stream(&mut self, track_alias: TrackAlias, wt: &mut Connection) -> (r: Result<()>)
        requires
            old(self)@.wf(),
            old(wt)@.wf(),
            old(self)@.out_tracks.contains_key(track_alias),
        ensures
            final(self)@.wf(),
            final(wt)@.wf(),
            timed_out(old(self)@, final(self)@, old(wt)@, final(wt)@, track_alias, r),
    {
        broadcast use vstd::std_specs::hash::group_hash_axioms;

        let id = match self.current_out_stream(track_alias) {
            Some(id) => id.0,
            None => {
                return Err(Error::Done);
            },
        };
        let _ = wt.stream_shutdown(id, RESET_STREAM_CODE_DELIVERY_TIMEOUT);
        self.out_tracks.insert(track_alias, OutTrack { current_stream_id: None });
        let _ = self.out_streams.remove(&id);
        proof {
            assert(self@.out_tracks =~= old(self)@.out_tracks.insert(track_alias, None));
            self.lemma_frame(*old(self));
            assert forall|k: u64| #[trigger]
                self@.out_tracks.contains_key(k) implies (self@.out_tracks[k] matches Some(x)
                ==> self@.out_streams.contains_key(x) && self@.out_streams[x].track_alias == k) by {
                if k != track_alias && self@.out_tracks[k] is Some {
                    let x = self@.out_tracks[k]->Some_0;
                    assert(old(self)@.out_tracks.contains_key(k));
                    assert(old(self)@.out_streams[x].track_alias == k);
                    assert(old(self)@.out_streams[id].track_alias == track_alias);
                }
            }
        }
        Ok(())
    }
}

/// What sending bytes of a payload on a track leaves behind: they go on
/// the stream on which the track sends. `NoStreamState` where the
/// connection no longer has that stream.
pub open spec fn payload_sent(
    before: SessionView,
    after: SessionView,
    wt_before: ConnectionView,
    wt_after: ConnectionView,
    alias: TrackAlias,
    buf: Seq<u8>,
    r: Result<usize>,
) -> bool {
    let id = before.out_tracks[alias]->Some_0;
    if !wt_before.streams.contains_key(id) {
        r is Err && r->Err_0 == Error::WT(webtransport::Error::NoStreamState) && after == before
            && wt_after == wt_before
    } else {
        &&& after.out_streams.contains_key(id)
        &&& after == with_stream_state(before, id, after.out_streams[id])
        &&& wt_after.streams.contains_key(id)
        &&& wt_after == wt_before.with_stream(id, wt_after.streams[id])
        &&& crate::out_stream::sent_payload(
            before.out_streams[id],
            after.out_streams[id],
            wt_before.streams[id],
            wt_after.streams[id],
            buf,
            r,
        )
    }
}

/// The tracks of which a stream can be read.
pub open spec fn readable_tracks(s: SessionView) -> Set<u64> {
    Set::new(|alias: u64| s.in_tracks.contains_key(alias) && s.in_tracks[alias].len() > 0)
}

/// The session without the incoming stream `id`, which has ended: it has
/// left the track `alias` and the table of streams.
pub open spec fn without_in_stream(s: SessionView, alias: TrackAlias, id: u64) -> SessionView {
    SessionView {
        in_tracks: s.in_tracks.insert(alias, without_id(s.in_tracks[alias], id)),
        in_streams: s.in_streams.remove(id),
        ..s
    }
}

/// The session with the incoming stream `id` changed to `stream`.
pub open spec fn with_in_stream(s: SessionView, id: u64, stream: InStreamView) -> SessionView {
    SessionView { in_streams: s.in_streams.insert(id, stream), ..s }
}

impl MoqTransportSession {
    /// The aliases of the tracks of which a stream can be read, each once.
    pub fn readable(&self) -> (r: AliasList)
        ensures
            r@.to_set() == readable_tracks(self@),
            r@.no_duplicates(),
    {
        broadcast use vstd::std_specs::hash::group_hash_axioms;

        let keys = keys_of(&self.in_tracks);
        let mut marks: Vec<bool> = Vec::new();
        let mut i: usize = 0;
        while i < keys.len()
            invariant
                i <= keys@.len(),
                marks@.len() == i,
                keys@.to_set() == self.in_tracks@.dom(),
                forall|k: int| 0 <= k < i ==> marks@[k] == readable_tracks(self@).contains(keys@[k]),
            decreases keys@.len() - i,
        {
            let alias = keys[i];
            assert(keys@.to_set().contains(alias));
            let track = self.in_tracks.get(&alias).unwrap();
            assert(self@.in_tracks[alias] == track@.readable_streams);
            marks.push(track.readable());
            i += 1;
        }
        let readable = retain_marked(&keys, &marks);
        assert(readable@.to_set() =~= readable_tracks(self@)) by {
            assert forall|x: u64| readable@.to_set().contains(x) <==> readable_tracks(
                self@,
            ).contains(x) by {
                if readable_tracks(self@).contains(x) {
                    assert(keys@.to_set().contains(x));
                    let k = choose|k: int| 0 <= k < keys@.len() && keys@[k] == x;
                    assert(keys@[k] == x && marks@[k]);
                }
            }
        }
        AliasList::from_aliases(&readable)
    }

    /// The streams of the track that can be read, in ascending order.
    pub fn readable_streams(&self, track_alias: TrackAlias) -> (r: &[u64])
        requires
            self@.in_tracks.contains_key(track_alias),
        ensures
            r@ == self@.in_tracks[track_alias],
    {
        broadcast use vstd::std_specs::hash::group_hash_axioms;

        self.in_tracks.get(&track_alias).unwrap().readable_streams()
    }

    /// The stream of the track that is read now: the smallest that can be
    /// read.
    pub fn current_in_stream(&self, track_alias: TrackAlias) -> (r: Option<StreamID>)
        requires
            self@.in_tracks.contains_key(track_alias),
        ensures
            match r {
                Some(id) => self@.in_tracks[track_alias].len() > 0 && id.0
                    == self@.in_tracks[track_alias][0],
                None => self@.in_tracks[track_alias].len() == 0,
            },
    {
        broadcast use vstd::std_specs::hash::group_hash_axioms;

        self.in_tracks.get(&track_alias).unwrap().current_stream()
    }

    /// The bytes of the payload of the current object of the track that are
    /// not read yet. `Done` where no stream of the track can be read.
    pub fn remaining_object_payload(&self, track_alias: TrackAlias) -> (r: Result<u64>)
        requires
            self@.in_tracks.contains_key(track_alias),
        ensures
            match r {
                Ok(n) => {
                    let list = self@.in_tracks[track_alias];
                    list.len() > 0 && self@.in_streams.contains_key(list[0]) && n
                        == self@.in_streams[list[0]].remaining_object_payload
                },
                Err(e) => {
                    let list = self@.in_tracks[track_alias];
                    e is Done && (list.len() == 0 || !self@.in_streams.contains_key(list[0]))
                },
            },
    {
        broadcast use vstd::std_specs::hash::group_hash_axioms;

        let id = match self.current_in_stream(track_alias) {
            Some(id) => id.0,
            None => {
                return Err(Error::Done);
            },
        };
        match self.in_streams.get(&id) {
            Some(stream) => {
                assert(self@.in_streams[id] == stream@);
                Ok(stream.remaining_object_payload())
            },
            None => Err(Error::Done),
        }
    }

    /// Drops an incoming stream that has ended: it leaves its track and the
    /// table of streams.
    fn drop_in_stream(&mut self, track_alias: TrackAlias, id: u64)
        requires
            old(self)@.wf(),
            old(self)@.in_tracks.contains_key(track_alias),
        ensures
            final(self)@.wf(),
            final(self)@ == without_in_stream(old(self)@, track_alias, id),
    {
        broadcast use vstd::std_specs::hash::group_hash_axioms;

        let _ = self.in_streams.remove(&id);
        let mut track = self.in_tracks.remove(&track_alias).unwrap();
        assert(old(self)@.in_tracks[track_alias] == track@.readable_streams);
        track.fin_stream(StreamID(id));
        self.in_tracks.insert(track_alias, track);
        proof {
            assert(self@.in_tracks =~= old(self)@.in_tracks.insert(
                track_alias,
                without_id(old(self)@.in_tracks[track_alias], id),
            ));
            assert(self@.in_track_alias =~= old(self)@.in_track_alias);
            assert(self@.in_streams =~= old(self)@.in_streams.remove(id));
            self.lemma_frame(*old(self));
            if self@.selected_version is None {
                assert(self@.in_streams.dom() =~= Set::<u64>::empty());
            }
        }
    }

    /// Tries to read the header of the next object from the current stream
    /// of the track. Where that stream has ended it is dropped, and the
    /// caller may try the next: `Ok(None)`.
    pub fn read_obj_hdr_step(&mut self, track_alias: TrackAlias, wt: &mut Connection) -> (r: Result<
        Option<ObjectHeader>,
    >)
        requires
            old(self)@.wf(),
            old(wt)@.wf(),
            old(self)@.in_tracks.contains_key(track_alias),
        ensures
            final(self)@.wf(),
            final(wt)@.wf(),
            final(self)@.in_tracks.contains_key(track_alias),
            read_step(old(self)@, final(self)@, old(wt)@, final(wt)@, track_alias, r),
    {
        broadcast use vstd::std_specs::hash::group_hash_axioms;

        let id = match self.current_in_stream(track_alias) {
            Some(id) => id.0,
            None => {
                return Err(Error::Done);
            },
        };
        let mut stream = match self.in_streams.remove(&id) {
            Some(s) => s,
            None => {
                proof {
                    assert(self.in_streams@ =~= old(self).in_streams@);
                    self.lemma_frame(*old(self));
                    crate::in_track::lemma_without_present(old(self)@.in_tracks[track_alias], id, 0);
                }
                self.drop_in_stream(track_alias, id);
                return Ok(None);
            },
        };
        assert(old(self)@.in_streams.contains_key(id));
        assert(old(self)@.in_streams[id] == stream@);
        proof {
            crate::in_track::lemma_without_present(old(self)@.in_tracks[track_alias], id, 0);
        }
        let r = stream.read_obj_hdr(wt);
        match r {
            Ok(header) => {
                self.in_streams.insert(id, stream);
                proof {
                    assert(self@.in_streams =~= old(self)@.in_streams.insert(id, stream@));
                    self.lemma_frame(*old(self));
                }
                Ok(Some(header))
            },
            Err(Error::Fin) => {
                self.in_streams.insert(id, stream);
                proof {
                    assert(self@.in_streams =~= old(self)@.in_streams.insert(id, stream@));
                    self.lemma_frame(*old(self));
                }
                self.drop_in_stream(track_alias, id);
                proof {
                    assert(self@.in_streams =~= old(self)@.in_streams.remove(id));
                }
                Ok(None)
            },
            Err(e) => {
                self.in_streams.insert(id, stream);
                proof {
                    assert(self@.in_streams =~= old(self)@.in_streams.insert(id, stream@));
                    self.lemma_frame(*old(self));
                }
                Err(e)
            },
        }
    }

    /// Reads the header of the next object of the track, from the smallest
    /// of its streams that can be read. A stream that has ended is dropped
    /// and the next one is tried. `Done` where no stream has a whole header.
    pub fn read_obj_hdr(&mut self, track_alias: TrackAlias, wt: &mut Connection) -> (r: Result<
        ObjectHeader,
    >)
        requires
            old(self)@.wf(),
            old(wt)@.wf(),
            old(self)@.in_tracks.contains_key(track_alias),
        ensures
            final(self)@.wf(),
            final(wt)@.wf(),
            final(self)@.in_tracks.contains_key(track_alias),
            final(self)@.in_tracks[track_alias].len() <= old(self)@.in_tracks[track_alias].len(),
            object_header_taken(old(self)@, final(self)@, old(wt)@, final(wt)@, track_alias, r),
    {
        let ghost mut n: nat = 0;
        loop
            invariant
                self@.wf(),
                wt@.wf(),
                self@.in_tracks.contains_key(track_alias),
                self@.in_tracks[track_alias].len() <= old(self)@.in_tracks[track_alias].len(),
                streams_dropped(old(self)@, self@, old(wt)@, wt@, track_alias, n),
            decreases self@.in_tracks[track_alias].len(),
        {
            let ghost s0 = self@;
            let ghost w0 = wt@;
            let step = self.read_obj_hdr_step(track_alias, wt);
            let ghost last = step;
            match step {
                Ok(Some(header)) => {
                    return Ok(header);
                },
                Ok(None) => {
                    proof {
                        let dropped = n;
                        n = n + 1;
                        assert((n - 1) as nat == dropped);
                        assert(streams_dropped(
                            old(self)@,
                            s0,
                            old(wt)@,
                            w0,
                            track_alias,
                            (n - 1) as nat,
                        ));
                        assert(last is Ok && last->Ok_0 is None && read_step(
                            s0,
                            self@,
                            w0,
                            wt@,
                            track_alias,
                            last,
                        ));
                    }
                },
                Err(e) => {
                    return Err(e);
                },
            }
        }
    }

    /// Reads bytes of the payload of the current object of the track into
    /// `buf`. `Done` where none have arrived, or where no object is being
    /// read.
    pub fn read_obj_pld(&mut self, buf: &mut [u8], track_alias: TrackAlias, wt: &mut Connection) -> (r:
        Result<usize>)
        requires
            old(buf)@.len() > 0,
            old(self)@.wf(),
            old(wt)@.wf(),
            old(self)@.in_tracks.contains_key(track_alias),
        ensures
            final(self)@.wf(),
            final(wt)@.wf(),
            final(buf)@.len() == old(buf)@.len(),
            read_payload(
                old(self)@,
                final(self)@,
                old(wt)@,
                final(wt)@,
                track_alias,
                old(buf)@,
                final(buf)@,
                r,
            ),
    {
        broadcast use vstd::std_specs::hash::group_hash_axioms;

        let id = match self.current_in_stream(track_alias) {
            Some(id) => id.0,
            None => {
                return Err(Error::Done);
            },
        };
        let mut stream = match self.in_streams.remove(&id) {
            Some(s) => s,
            None => {
                proof {
                    assert(self.in_streams@ =~= old(self).in_streams@);
                    self.lemma_frame(*old(self));
                }
                return Err(Error::Done);
            },
        };
        assert(old(self)@.in_streams.contains_key(id));
        assert(old(self)@.in_streams[id] == stream@);
        if stream.remaining_object_payload() == 0 {
            self.in_streams.insert(id, stream);
            proof {
                assert(self.in_streams@ =~= old(self).in_streams@);
                self.lemma_frame(*old(self));
            }
            return Err(Error::Done);
        }
        let r = stream.read_obj_pld(wt, buf);
        self.in_streams.insert(id, stream);
        proof {
            assert(self@.in_streams =~= old(self)@.in_streams.insert(id, stream@));
            self.lemma_frame(*old(self));
        }
        r
    }
}

/// What one try to read an object header leaves behind. The header is read
/// from the smallest stream of the track. A stream that is no longer known,
/// or has ended before another header, leaves the track, and nothing is
/// returned: the caller may try the next stream.
pub open spec fn read_step(
    before: SessionView,
    after: SessionView,
    wt_before: ConnectionView,
    wt_after: ConnectionView,
    alias: TrackAlias,
    r: Result<Option<ObjectHeader>>,
) -> bool {
    let list = before.in_tracks[alias];
    if list.len() == 0 {
        r matches Err(Error::Done) && after == before && wt_after == wt_before
    } else if !before.in_streams.contains_key(list[0]) {
        r matches Ok(None) && after == without_in_stream(before, alias, list[0]) && wt_after
            == wt_before && after.in_tracks[alias].len() < list.len()
    } else {
        let id = list[0];
        exists|st: InStreamView, read: Result<ObjectHeader>| #[trigger]
            object_header_read(before.in_streams[id], st, wt_before, wt_after, read) && match read {
                Ok(header) => r == Ok::<Option<ObjectHeader>, Error>(Some(header)) && after
                    == with_in_stream(before, id, st),
                Err(Error::Fin) => r matches Ok(None) && after == without_in_stream(
                    before,
                    alias,
                    id,
                ) && after.in_tracks[alias].len() < list.len(),
                Err(e) => r == Err::<Option<ObjectHeader>, Error>(e) && after == with_in_stream(
                    before,
                    id,
                    st,
                ),
            }
    }
}

/// The track has dropped `n` streams one after the other, each because it
/// had ended or was no longer known.
pub open spec fn streams_dropped(
    before: SessionView,
    after: SessionView,
    wt_before: ConnectionView,
    wt_after: ConnectionView,
    alias: TrackAlias,
    n: nat,
) -> bool
    decreases n,
{
    if n == 0 {
        after == before && wt_after == wt_before
    } else {
        exists|s: SessionView, wt: ConnectionView, r: Result<Option<ObjectHeader>>|
            streams_dropped(before, s, wt_before, wt, alias, (n - 1) as nat) && r is Ok
                && r->Ok_0 is None && #[trigger] read_step(s, after, wt, wt_after, alias, r)
    }
}

/// What reading the header of the next object of a track leaves behind.
/// Streams that have ended are dropped, and the header is read from the
/// first stream that has not: it is returned, or the reason why none is.
pub open spec fn object_header_taken(
    before: SessionView,
    after: SessionView,
    wt_before: ConnectionView,
    wt_after: ConnectionView,
    alias: TrackAlias,
    r: Result<ObjectHeader>,
) -> bool {
    exists|n: nat, s: SessionView, wt: ConnectionView, last: Result<Option<ObjectHeader>>|
        #![trigger streams_dropped(before, s, wt_before, wt, alias, n), read_step(s, after, wt, wt_after, alias, last)]
        streams_dropped(before, s, wt_before, wt, alias, n) && read_step(
            s,
            after,
            wt,
            wt_after,
            alias,
            last,
        ) && match last {
            Ok(Some(h)) => r == Ok::<ObjectHeader, Error>(h),
            Ok(None) => false,
            Err(e) => r == Err::<ObjectHeader, Error>(e),
        }
}

/// What reading bytes of a payload leaves behind: they are read from the
/// smallest stream of the track. `Done` where the track has no stream or
/// no object is being read.
pub open spec fn read_payload(
    before: SessionView,
    after: SessionView,
    wt_before: ConnectionView,
    wt_after: ConnectionView,
    alias: TrackAlias,
    into: Seq<u8>,
    got: Seq<u8>,
    r: Result<usize>,
) -> bool {
    let list = before.in_tracks[alias];
    if list.len() == 0 || !before.in_streams.contains_key(list[0])
        || before.in_streams[list[0]].remaining_object_payload == 0 {
        r matches Err(Error::Done) && after == before && wt_after == wt_before && got == into
    } else {
        let id = list[0];
        &&& after.in_streams.contains_key(id)
        &&& after == with_in_stream(before, id, after.in_streams[id])
        &&& payload_read(
            before.in_streams[id],
            after.in_streams[id],
            wt_before,
            wt_after,
            into,
            got,
            r,
        )
    }
}

impl SessionView {
    /// The bytes of the control stream that are still to be read: what the
    /// session holds back, then what waits in the connection.
    pub open spec fn ctrl_pending(self, wt: ConnectionView) -> Seq<u8> {
        match self.control_stream_id {
            Some(id) => self.ctrl_held + wt.stream_or_remote(id).unread(),
            None => self.ctrl_held,
        }
    }
}

/// The SERVER_SETUP with which a server answers: the draft of its
/// configuration, the largest request id that it lets the client use, and
/// on draft 07 its role.
pub open spec fn server_setup_sent(s: SessionView) -> ControlMessageView {
    ControlMessageView::ServerSetup(
        ServerSetupView {
            selected_version: s.setup_version,
            setup_parameters: offered_setup_parameters(s.setup_version),
        },
    )
}

/// The track alias under which an accepted subscription is received: the
/// one that the subscriber picked on drafts 07 to 11, the one that the
/// SUBSCRIBE_OK names on drafts 12 and 13.
pub open spec fn received_alias(s: SessionView, m: SubscribeOkView) -> Option<TrackAlias> {
    if version_until_11(s.version()) {
        s.pending_subscribe[m.request_id]
    } else {
        m.track_alias
    }
}

/// The streams of a track that has just been accepted: the stream that
/// waited for it, where one did.
pub open spec fn first_streams(s: SessionView, alias: TrackAlias) -> Seq<u64> {
    if s.pending_streams.contains_key(alias) {
        seq![s.pending_streams[alias]]
    } else {
        Seq::empty()
    }
}

/// A SUBSCRIBE of the peer is taken in where its request id and its track
/// alias fit 62 bits and it names a track alias on the drafts that have
/// one.
pub open spec fn subscribe_acceptable(s: SessionView, m: SubscribeView) -> bool {
    &&& m.request_id <= MAX_VAR_INT
    &&& m.track_alias is Some <==> version_until_11(s.version())
    &&& m.track_alias matches Some(a) ==> a <= MAX_VAR_INT
}

/// What a control message of the peer does to the session, message by
/// message. A message that breaks the protocol is refused and changes
/// nothing.
pub open spec fn handled(
    before: SessionView,
    after: SessionView,
    wt_before: ConnectionView,
    wt_after: ConnectionView,
    cm: ControlMessageView,
    r: Result<()>,
) -> bool {
    match cm {
        ControlMessageView::ServerSetup(m) => {
            &&& wt_after == wt_before
            &&& if before.server || before.selected_version is Some || !version_known(
                m.selected_version,
            ) {
                r is Err && r->Err_0 is ProtocolViolation && after == before
            } else {
                r is Ok && after == (SessionView {
                    selected_version: Some(m.selected_version),
                    max_request_id: match m.setup_parameters.max_request_id {
                        Some(v) => v,
                        None => DEFAULT_MAX_REQUEST_ID_SETUP_PARAMETER,
                    },
                    ..before
                })
            }
        },
        ControlMessageView::ClientSetup(m) => {
            if !before.server || before.selected_version is Some || !m.supported_versions.contains(
                before.setup_version,
            ) {
                r is Err && r->Err_0 is ProtocolViolation && after == before && wt_after
                    == wt_before
            } else {
                match r {
                    Ok(()) => {
                        &&& sent_control(
                            before,
                            wt_before,
                            wt_after,
                            server_setup_sent(before),
                            Ok::<(), Error>(()),
                        )
                        &&& after == (SessionView {
                            selected_version: Some(before.setup_version),
                            ..before
                        })
                    },
                    Err(e) => sent_control(
                        before,
                        wt_before,
                        wt_after,
                        server_setup_sent(before),
                        Err::<(), Error>(e),
                    ) && after == before,
                }
            }
        },
        ControlMessageView::Subscribe(m) => {
            &&& wt_after == wt_before
            &&& if !subscribe_acceptable(before, m) {
                r is Err && r->Err_0 is ProtocolViolation && after == before
            } else {
                r is Ok && after == (SessionView {
                    pending_received_subscriptions: before.pending_received_subscriptions.insert(
                        m.request_id,
                        m,
                    ),
                    ..before
                })
            }
        },
        ControlMessageView::SubscribeOk(m) => {
            &&& wt_after == wt_before
            &&& if !before.pending_subscribe.contains_key(m.request_id) || received_alias(
                before,
                m,
            ) is None || received_alias(before, m)->Some_0 > MAX_VAR_INT {
                r is Err && r->Err_0 is ProtocolViolation && after == before
            } else {
                let alias = received_alias(before, m)->Some_0;
                r is Ok && after == (SessionView {
                    pending_subscribe: before.pending_subscribe.remove(m.request_id),
                    in_tracks: before.in_tracks.insert(alias, first_streams(before, alias)),
                    in_track_alias: before.in_track_alias.insert(alias, alias),
                    pending_streams: before.pending_streams.remove(alias),
                    responses: before.responses.insert(
                        m.request_id,
                        Ok::<(TrackAlias, SubscribeOkView), SubscribeErrorView>((alias, m)),
                    ),
                    ..before
                })
            }
        },
        ControlMessageView::SubscribeError(m) => {
            &&& wt_after == wt_before
            &&& if !before.pending_subscribe.contains_key(m.request_id) {
                r is Err && r->Err_0 is ProtocolViolation && after == before
            } else {
                r is Ok && after == (SessionView {
                    pending_subscribe: before.pending_subscribe.remove(m.request_id),
                    responses: before.responses.insert(
                        m.request_id,
                        Err::<(TrackAlias, SubscribeOkView), SubscribeErrorView>(m),
                    ),
                    ..before
                })
            }
        },
        ControlMessageView::Announce(m) => {
            &&& after == before
            &&& if !announce_ok_encodable(announce_ok_sent(before, m), before.version()) {
                r is Err && r->Err_0 is ProtocolViolation && wt_after == wt_before
            } else {
                sent_control(
                    before,
                    wt_before,
                    wt_after,
                    ControlMessageView::AnnounceOk(announce_ok_sent(before, m)),
                    r,
                )
            }
        },
        _ => r is Ok && after == before && wt_after == wt_before,
    }
}

/// The ANNOUNCE_OK that answers an ANNOUNCE: it names the announcement by
/// its namespace on drafts 07 to 10 and by its request id on drafts 11 to
/// 13.
pub open spec fn announce_ok_sent(s: SessionView, m: AnnounceView) -> AnnounceOkView {
    if version_until_10(s.version()) {
        AnnounceOkView { request_id: None, track_namespace: Some(m.track_namespace) }
    } else {
        AnnounceOkView { request_id: m.request_id, track_namespace: None }
    }
}

impl MoqTransportSession {
    /// Whether `versions` holds `version`.
    fn offers(versions: &Vec<Version>, version: Version) -> (r: bool)
        ensures
            r == versions@.contains(version),
    {
        let mut i: usize = 0;
        while i < versions.len()
            invariant
                i <= versions@.len(),
                forall|k: int| 0 <= k < i ==> versions@[k] != version,
            decreases versions@.len() - i,
        {
            if versions[i] == version {
                return true;
            }
            i += 1;
        }
        false
    }

    /// Takes in a SERVER_SETUP: the draft that the server has selected and
    /// the largest request id that it allows.
    fn handle_server_setup(&mut self, m: ServerSetupMessage) -> (r: Result<()>)
        requires
            old(self)@.wf(),
        ensures
            final(self)@.wf(),
            forall|wt: ConnectionView| #[trigger]
                handled(
                    old(self)@,
                    final(self)@,
                    wt,
                    wt,
                    ControlMessageView::ServerSetup(m@),
                    r,
                ),
    {
        if self.server || self.selected_version.is_some() || !is_version_known(
            m.selected_version,
        ) {
            return Err(Error::ProtocolViolation("unexpected server setup".to_owned()));
        }
        self.selected_version = Some(m.selected_version);
        self.max_request_id = match m.setup_parameters.max_request_id {
            Some(v) => v,
            None => DEFAULT_MAX_REQUEST_ID_SETUP_PARAMETER,
        };
        proof {
            self.lemma_frame(*old(self));
            self.lemma_no_streams_before_setup(*old(self));
        }
        Ok(())
    }

    /// Before the setup is complete a session has no streams of tracks.
    proof fn lemma_no_streams_before_setup(&self, before: Self)
        requires
            before@.wf(),
            before@.selected_version is None,
            self.in_streams == before.in_streams,
            self.out_streams == before.out_streams,
        ensures
            self@.in_streams.dom() == Set::<u64>::empty(),
            self@.out_streams.dom() == Set::<u64>::empty(),
    {
        assert(self@.in_streams =~= before@.in_streams);
        assert(self@.in_streams.dom() =~= Set::<u64>::empty());
        assert(self@.out_streams.dom() =~= Set::<u64>::empty());
    }

    /// Takes in a CLIENT_SETUP: selects the draft of the configuration and
    /// answers with SERVER_SETUP.
    fn handle_client_setup(&mut self, wt: &mut Connection, m: ClientSetupMessage) -> (r: Result<
        (),
    >)
        requires
            old(self)@.wf(),
            old(wt)@.wf(),
        ensures
            final(self)@.wf(),
            final(wt)@.wf(),
            handled(
                old(self)@,
                final(self)@,
                old(wt)@,
                final(wt)@,
                ControlMessageView::ClientSetup(m@),
                r,
            ),
    {
        if !self.server || self.selected_version.is_some() || !Self::offers(
            &m.supported_versions,
            self.config.setup_version,
        ) {
            return Err(Error::ProtocolViolation("unexpected client setup".to_owned()));
        }
        let version = self.config.setup_version;
        let cm = ControlMessage::ServerSetup(
            ServerSetupMessage::new(version, offered_parameters(version)),
        );
        proof {
            lemma_offered_encodable(version);
        }
        match self.send_control_message(wt, &cm) {
            Ok(()) => {},
            Err(e) => {
                return Err(e);
            },
        }
        self.selected_version = Some(version);
        proof {
            self.lemma_frame(*old(self));
            self.lemma_no_streams_before_setup(*old(self));
        }
        Ok(())
    }

    /// Takes in a SUBSCRIBE of the peer: it waits until the layer above
    /// accepts it.
    fn handle_subscribe(&mut self, m: SubscribeMessage) -> (r: Result<()>)
        requires
            old(self)@.wf(),
        ensures
            final(self)@.wf(),
            forall|wt: ConnectionView| #[trigger]
                handled(
                    old(self)@,
                    final(self)@,
                    wt,
                    wt,
                    ControlMessageView::Subscribe(m@),
                    r,
                ),
    {
        broadcast use vstd::std_specs::hash::group_hash_axioms;

        let version = self.version();
        let alias_fits = match m.track_alias {
            Some(a) => a <= MAX_VAR_INT,
            None => true,
        };
        if m.request_id > MAX_VAR_INT || m.track_alias.is_some() != is_version_until_11(version)
            || !alias_fits {
            return Err(Error::ProtocolViolation("unexpected subscribe".to_owned()));
        }
        let ghost view = m@;
        self.pending_received_subscriptions.insert(m.request_id, m);
        proof {
            assert(self@.pending_received_subscriptions =~= old(self)@.pending_received_subscriptions.insert(view.request_id, view));
            self.lemma_frame(*old(self));
        }
        Ok(())
    }

    /// Takes in a SUBSCRIBE_OK: the track is received from now on, with the
    /// stream that waited for it, and the answer waits to be fetched.
    fn handle_subscribe_ok(&mut self, m: SubscribeOkMessage) -> (r: Result<()>)
        requires
            old(self)@.wf(),
        ensures
            final(self)@.wf(),
            forall|wt: ConnectionView| #[trigger]
                handled(
                    old(self)@,
                    final(self)@,
                    wt,
                    wt,
                    ControlMessageView::SubscribeOk(m@),
                    r,
                ),
    {
        broadcast use vstd::std_specs::hash::group_hash_axioms;

        let req_id = m.request_id();
        let version = self.version();
        let track_alias = match self.pending_subscribe.get(&req_id) {
            None => None,
            Some(req) => {
                assert(self@.pending_subscribe[req_id] == req.track_alias);
                if is_version_until_11(version) {
                    req.track_alias()
                } else {
                    m.track_alias()
                }
            },
        };
        let track_alias = match track_alias {
            Some(a) => a,
            None => {
                return Err(Error::ProtocolViolation("unexpected subscribe ok".to_owned()));
            },
        };
        if track_alias > MAX_VAR_INT {
            return Err(Error::ProtocolViolation("unexpected subscribe ok".to_owned()));
        }
        let _ = self.pending_subscribe.remove(&req_id);
        let mut track = InTrack::new(track_alias);
        if let Some(stream_id) = self.pending_streams.remove(&track_alias) {
            track.mark_stream_readable(StreamID(stream_id));
            assert(track@.readable_streams =~= seq![stream_id]) by {
                reveal_with_fuel(crate::in_track::with_id, 2);
            }
        }
        self.in_tracks.insert(track_alias, track);
        let ghost view = m@;
        self.pending_subscribe_responses.insert(req_id, Ok((track_alias, m)));
        proof {
            assert(self@.pending_subscribe =~= old(self)@.pending_subscribe.remove(req_id));
            assert(self@.in_tracks =~= old(self)@.in_tracks.insert(
                track_alias,
                first_streams(old(self)@, track_alias),
            ));
            assert(self@.in_track_alias =~= old(self)@.in_track_alias.insert(
                track_alias,
                track_alias,
            ));
            assert(self@.pending_streams =~= old(self)@.pending_streams.remove(track_alias));
            assert(self@.responses =~= old(self)@.responses.insert(
                req_id,
                Ok::<(TrackAlias, SubscribeOkView), SubscribeErrorView>((track_alias, view)),
            ));
            self.lemma_frame(*old(self));
        }
        Ok(())
    }

    /// Takes in a SUBSCRIBE_ERROR: the answer waits to be fetched.
    fn handle_subscribe_error(&mut self, m: SubscribeErrorMessage) -> (r: Result<()>)
        requires
            old(self)@.wf(),
        ensures
            final(self)@.wf(),
            forall|wt: ConnectionView| #[trigger]
                handled(
                    old(self)@,
                    final(self)@,
                    wt,
                    wt,
                    ControlMessageView::SubscribeError(m@),
                    r,
                ),
    {
        broadcast use vstd::std_specs::hash::group_hash_axioms;

        let req_id = m.request_id();
        if !self.pending_subscribe.contains_key(&req_id) {
            return Err(Error::ProtocolViolation("unexpected subscribe error".to_owned()));
        }
        let _ = self.pending_subscribe.remove(&req_id);
        let ghost view = m@;
        self.pending_subscribe_responses.insert(req_id, Err(m));
        proof {
            assert(self@.pending_subscribe =~= old(self)@.pending_subscribe.remove(req_id));
            assert(self@.responses =~= old(self)@.responses.insert(
                req_id,
                Err::<(TrackAlias, SubscribeOkView), SubscribeErrorView>(view),
            ));
            self.lemma_frame(*old(self));
        }
        Ok(())
    }

    /// Takes in an ANNOUNCE: answers with ANNOUNCE_OK.
    fn handle_announce(&self, wt: &mut Connection, m: AnnounceMessage) -> (r: Result<()>)
        requires
            self@.wf(),
            old(wt)@.wf(),
        ensures
            final(wt)@.wf(),
            handled(self@, self@, old(wt)@, final(wt)@, ControlMessageView::Announce(m@), r),
    {
        let version = self.version();
        let ghost view = m@;
        let reply = if is_version_until_10(version) {
            if !tuple_fits(&m.track_namespace.0.0) {
                return Err(Error::ProtocolViolation("unexpected announce".to_owned()));
            }
            AnnounceOkMessage::new(None, Some(m.track_namespace))
        } else {
            match m.request_id() {
                Some(id) => {
                    if id > MAX_VAR_INT {
                        return Err(Error::ProtocolViolation("unexpected announce".to_owned()));
                    }
                },
                None => {
                    return Err(Error::ProtocolViolation("unexpected announce".to_owned()));
                },
            }
            AnnounceOkMessage::new(m.request_id(), None)
        };
        assert(reply@ == announce_ok_sent(self@, view));
        let cm = ControlMessage::AnnounceOk(reply);
        self.send_control_message(wt, &cm)
    }

    /// Takes in a control message of the peer.
    pub fn handle_control_message(&mut self, wt: &mut Connection, cm: ControlMessage) -> (r: Result<
        (),
    >)
        requires
            old(self)@.wf(),
            old(wt)@.wf(),
        ensures
            final(self)@.wf(),
            final(wt)@.wf(),
            handled(old(self)@, final(self)@, old(wt)@, final(wt)@, cm@, r),
    {
        match cm {
            ControlMessage::ServerSetup(m) => self.handle_server_setup(m),
            ControlMessage::ClientSetup(m) => self.handle_client_setup(wt, m),
            ControlMessage::Subscribe(m) => self.handle_subscribe(m),
            ControlMessage::SubscribeOk(m) => self.handle_subscribe_ok(m),
            ControlMessage::SubscribeError(m) => self.handle_subscribe_error(m),
            ControlMessage::Announce(m) => self.handle_announce(wt, m),
            ControlMessage::RequestBlocked(_) => Ok(()),
            ControlMessage::SubscribeDone(_) => Ok(()),
            ControlMessage::AnnounceOk(_) => Ok(()),
            ControlMessage::UnsubscribeNamespace(_) => Ok(()),
        }
    }
}

/// The ANNOUNCE that a session sends for a namespace.
pub open spec fn announce_sent(s: SessionView, namespace: Seq<Seq<u8>>) -> AnnounceView {
    AnnounceView {
        request_id: if version_until_10(s.version()) {
            None
        } else {
            Some(0u64)
        },
        track_namespace: namespace,
        parameters: Seq::empty(),
    }
}

/// The control stream is in the connection and belongs to the session:
/// the session can read what waits on it.
pub open spec fn ctrl_attached(s: SessionView, wt: ConnectionView) -> bool {
    s.control_stream_id matches Some(id) && wt.streams.contains_key(id)
        && wt.streams[id].session_id == Some(s.session_id)
}

/// The bytes of the control stream that the session can look at at once:
/// what it holds back, then what it can read from the connection, and no
/// more of them than its buffer takes.
pub open spec fn ctrl_window(s: SessionView, wt: ConnectionView) -> Seq<u8> {
    let all = if ctrl_attached(s, wt) {
        s.ctrl_pending(wt)
    } else {
        s.ctrl_held
    };
    if all.len() <= CTRL_BUF_LEN {
        all
    } else {
        all.take(CTRL_BUF_LEN as int)
    }
}

/// How taking a control message fails where the bytes that the session can
/// look at end before the message does: `PartialControlMessage` where the
/// buffer is full, else what the connection says of the control stream.
/// `Fin` where it has ended, `Done` where more may come.
pub open spec fn short_of_message(s: SessionView, wt: ConnectionView, e: Error) -> bool {
    let id = s.control_stream_id->Some_0;
    if ctrl_window(s, wt).len() >= CTRL_BUF_LEN {
        e is PartialControlMessage
    } else if !wt.streams.contains_key(id) {
        e matches Error::WT(w) && w is NoStreamState
    } else if wt.streams[id].session_id != Some(s.session_id) {
        e matches Error::WT(w) && w is MissingSessionID
    } else if wt.streams[id].inbound_fin {
        e is Fin
    } else {
        e is Done
    }
}

/// The control message `cm` is taken from the control stream: it is what
/// the bytes that the session can look at decode to, and it leaves the
/// stream.
pub open spec fn took_message(
    before: SessionView,
    after: SessionView,
    wt_before: ConnectionView,
    wt_after: ConnectionView,
    cm: ControlMessageView,
) -> bool {
    let pending = before.ctrl_pending(wt_before);
    &&& after == (SessionView { ctrl_held: after.ctrl_held, ..before })
    &&& wt_after.sessions == wt_before.sessions
    &&& before.control_stream_id is Some
    &&& parse_control_message(ctrl_window(before, wt_before), 0, before.version()) matches Ok(
        (m, n),
    ) && m == cm && 0 < n <= pending.len() && after.ctrl_pending(wt_after) == pending.skip(n)
}

/// No control message is taken from the control stream, and nothing leaves
/// it: the session has no control stream, or the bytes that it can look at
/// end before the message does, or they hold a fault.
pub open spec fn took_none(
    before: SessionView,
    after: SessionView,
    wt_before: ConnectionView,
    wt_after: ConnectionView,
    e: Error,
) -> bool {
    &&& after == (SessionView { ctrl_held: after.ctrl_held, ..before })
    &&& wt_after.sessions == wt_before.sessions
    &&& after.ctrl_pending(wt_after) == before.ctrl_pending(wt_before)
    &&& if before.control_stream_id is None {
        e is Done && after == before && wt_after == wt_before
    } else {
        match parse_control_message(ctrl_window(before, wt_before), 0, before.version()) {
            Ok(_) => false,
            Err(Fault::TooShort) => short_of_message(before, wt_before, e),
            Err(f) => e matches Error::Wire(w) && w.fault() == f,
        }
    }
}

/// What taking the next control message from the control stream leaves
/// behind: the message where the bytes that the session can look at hold a
/// whole one, and else the reason why none is taken.
pub open spec fn control_message_taken(
    before: SessionView,
    after: SessionView,
    wt_before: ConnectionView,
    wt_after: ConnectionView,
    r: Result<ControlMessage>,
) -> bool {
    match r {
        Ok(cm) => took_message(before, after, wt_before, wt_after, cm@),
        Err(e) => took_none(before, after, wt_before, wt_after, e),
    }
}

/// One control message is taken from the control stream and taken in.
pub open spec fn message_step(
    before: SessionView,
    after: SessionView,
    wt_before: ConnectionView,
    wt_after: ConnectionView,
    r: Result<()>,
) -> bool {
    exists|mid: SessionView, wt_mid: ConnectionView, cm: ControlMessageView| #[trigger]
        took_message(before, mid, wt_before, wt_mid, cm) && handled(
            mid,
            after,
            wt_mid,
            wt_after,
            cm,
            r,
        )
}

/// `n` control messages are taken from the control stream one after the
/// other, and each is taken in well.
pub open spec fn messages_taken(
    before: SessionView,
    after: SessionView,
    wt_before: ConnectionView,
    wt_after: ConnectionView,
    n: nat,
) -> bool
    decreases n,
{
    if n == 0 {
        after == before && wt_after == wt_before
    } else {
        exists|s: SessionView, wt: ConnectionView, r: Result<()>|
            messages_taken(before, s, wt_before, wt, (n - 1) as nat) && r is Ok
                && #[trigger] message_step(s, after, wt, wt_after, r)
    }
}

/// One more control message that is taken in well lengthens the row of
/// those that were.
pub proof fn lemma_messages_taken_more(
    before: SessionView,
    mid: SessionView,
    after: SessionView,
    wt_before: ConnectionView,
    wt_mid: ConnectionView,
    wt_after: ConnectionView,
    n: nat,
    r: Result<()>,
)
    requires
        messages_taken(before, mid, wt_before, wt_mid, n),
        r is Ok,
        message_step(mid, after, wt_mid, wt_after, r),
    ensures
        messages_taken(before, after, wt_before, wt_after, n + 1),
{
    assert(((n + 1) - 1) as nat == n);
    assert(messages_taken(before, mid, wt_before, wt_mid, ((n + 1) - 1) as nat));
}

/// How taking in control messages ends: with the first message that is
/// refused, or where no message can be taken from the stream. That the
/// stream holds no whole message yet, or has ended, is no error.
pub open spec fn control_ended(
    before: SessionView,
    after: SessionView,
    wt_before: ConnectionView,
    wt_after: ConnectionView,
    r: Result<()>,
) -> bool {
    ||| r is Err && message_step(before, after, wt_before, wt_after, r)
    ||| exists|e: Error| #[trigger]
        took_none(before, after, wt_before, wt_after, e) && if e is Done || e is Fin {
            r is Ok
        } else {
            r == Err::<(), Error>(e)
        }
}

/// What taking in the control stream leaves behind: some control messages
/// are taken in one after the other, until one is refused or no more can be
/// taken from the stream.
pub open spec fn control_polled(
    before: SessionView,
    after: SessionView,
    wt_before: ConnectionView,
    wt_after: ConnectionView,
    r: Result<()>,
) -> bool {
    exists|n: nat, s: SessionView, wt: ConnectionView| #[trigger]
        messages_taken(before, s, wt_before, wt, n) && control_ended(s, after, wt, wt_after, r)
}

/// Another stream waits for the track, which is not accepted yet: only one
/// may.
pub open spec fn parked_twice(s: SessionView, alias: TrackAlias, id: u64) -> bool {
    !s.in_tracks.contains_key(alias) && s.pending_streams.contains_key(alias)
        && s.pending_streams[alias] != id
}

/// What joining its track does to a stream whose subgroup header names
/// the track `alias`: it joins the track, or waits for it where the track
/// is not accepted yet. A second stream that would wait for one track
/// breaks the protocol.
pub open spec fn routed(
    before: SessionView,
    after: SessionView,
    alias: TrackAlias,
    id: u64,
    r: Result<()>,
) -> bool {
    if parked_twice(before, alias, id) {
        r is Err && r->Err_0 is ProtocolViolation && after == before
    } else if before.in_tracks.contains_key(alias) {
        r is Ok && after == (SessionView {
            in_tracks: before.in_tracks.insert(alias, with_id(before.in_tracks[alias], id)),
            ..before
        })
    } else {
        r is Ok && after == (SessionView {
            pending_streams: before.pending_streams.insert(alias, id),
            ..before
        })
    }
}

/// The incoming stream `id` as the session knows it, or as it is made
/// where the session sees it for the first time.
pub open spec fn in_stream_or_new(s: SessionView, id: u64) -> InStreamView {
    if s.in_streams.contains_key(id) {
        s.in_streams[id]
    } else {
        InStreamView {
            stream_id: StreamID(id),
            session_id: StreamID(s.session_id),
            version: s.version(),
            subgroup_header: None,
            remaining_object_payload: 0,
            readable: false,
            held: Seq::empty(),
            wt_fin: false,
        }
    }
}

/// What the session does with a stream that has read what has arrived, as
/// `read` says, and is then `st`. A stream that has read well can be read,
/// and one that has its subgroup header joins its track.
pub open spec fn stream_taken_in(
    before: SessionView,
    after: SessionView,
    id: u64,
    st: InStreamView,
    read: Result<()>,
    r: Result<()>,
) -> bool {
    match read {
        Err(e) => r is Err && r->Err_0 == e && after == with_in_stream(before, id, st),
        Ok(_) => {
            let kept = with_in_stream(before, id, InStreamView { readable: true, ..st });
            match st.subgroup_header {
                None => r is Ok && after == kept,
                Some(h) => routed(kept, after, h.track_alias, id, r),
            }
        },
    }
}

/// What taking in what has arrived on a stream of a track leaves behind.
/// The stream reads what has arrived, and the header of the subgroup once
/// it is complete. The stream then joins its track, or waits for the track
/// where the track is not accepted yet. Before the setup is done nothing is
/// taken in.
pub open spec fn stream_polled(
    before: SessionView,
    after: SessionView,
    wt_before: ConnectionView,
    wt_after: ConnectionView,
    id: u64,
    r: Result<()>,
) -> bool {
    if before.selected_version is None {
        r is Ok && after == before && wt_after == wt_before
    } else {
        exists|st: InStreamView, read: Result<()>| #[trigger]
            stream_read(in_stream_or_new(before, id), st, wt_before, wt_after, read)
                && stream_taken_in(before, after, id, st, read, r)
    }
}

/// What the session holds back of the control stream is a start of the
/// bytes that it can look at, as far as its buffer takes them; and these
/// are a start of what waits on the stream.
pub proof fn lemma_window_begins(s: SessionView, wt: ConnectionView)
    requires
        s.ctrl_held.len() <= CTRL_BUF_LEN,
    ensures
        begins(ctrl_window(s, wt), s.ctrl_held),
        begins(s.ctrl_pending(wt), ctrl_window(s, wt)),
        ctrl_window(s, wt).len() <= CTRL_BUF_LEN,
        s.ctrl_held.len() == CTRL_BUF_LEN ==> ctrl_window(s, wt) == s.ctrl_held,
{
    if s.ctrl_held.len() == CTRL_BUF_LEN {
        assert(ctrl_window(s, wt) =~= s.ctrl_held);
    }
}

impl MoqTransportSession {
    /// Announces a namespace to the peer: sends ANNOUNCE.
    pub fn announce(&mut self, wt: &mut Connection, namespace: Vec<Vec<u8>>) -> (r: Result<()>)
        requires
            old(self)@.wf(),
            old(wt)@.wf(),
        ensures
            final(self)@ == old(self)@,
            final(wt)@.wf(),
            if !tuple_encodable(views(namespace@)) {
                r is Err && r->Err_0 is ProtocolViolation && final(wt)@ == old(wt)@
            } else {
                sent_control(
                    old(self)@,
                    old(wt)@,
                    final(wt)@,
                    ControlMessageView::Announce(announce_sent(old(self)@, views(namespace@))),
                    r,
                )
            },
    {
        if !tuple_fits(&namespace) {
            return Err(Error::ProtocolViolation("namespace too long".to_owned()));
        }
        let request_id = if is_version_until_10(self.version()) {
            None
        } else {
            Some(0u64)
        };
        let m = AnnounceMessage::new(request_id, Namespace(Tuple(namespace)), Parameters(Vec::new()));
        assert(m@.parameters =~= Seq::<PairView>::empty());
        let cm = ControlMessage::Announce(m);
        self.send_control_message(wt, &cm)
    }

    /// Moves bytes that wait on the control stream into the buffer of the
    /// session, as many as it has room for.
    fn fill_ctrl(&mut self, wt: &mut Connection) -> (r: Result<()>)
        requires
            old(self)@.wf(),
            old(wt)@.wf(),
            old(self)@.control_stream_id is Some,
            old(self)@.ctrl_held.len() < CTRL_BUF_LEN,
        ensures
            final(self)@.wf(),
            final(wt)@.wf(),
            final(self)@ == (SessionView { ctrl_held: final(self)@.ctrl_held, ..old(self)@ }),
            final(self)@.ctrl_pending(final(wt)@) == old(self)@.ctrl_pending(old(wt)@),
            final(self)@.ctrl_held.len() <= CTRL_BUF_LEN,
            final(wt)@.sessions == old(wt)@.sessions,
            ctrl_attached(final(self)@, final(wt)@) == ctrl_attached(old(self)@, old(wt)@),
            ctrl_window(final(self)@, final(wt)@) == ctrl_window(old(self)@, old(wt)@),
            forall|e: Error|
                short_of_message(final(self)@, final(wt)@, e) == short_of_message(
                    old(self)@,
                    old(wt)@,
                    e,
                ),
            match r {
                Ok(()) => final(self)@.ctrl_held.len() > old(self)@.ctrl_held.len()
                    && ctrl_attached(old(self)@, old(wt)@),
                Err(e) => final(self)@.ctrl_held == old(self)@.ctrl_held && old(self)@.ctrl_held
                    == ctrl_window(old(self)@, old(wt)@) && short_of_message(
                    old(self)@,
                    old(wt)@,
                    e,
                ),
            },
    {
        let id = match self.control_stream_id {
            Some(id) => id.0,
            None => {
                return Err(Error::Done);
            },
        };
        let room = self.ctrl_buf.compact();
        let mut tmp: Vec<u8> = vec![0u8; room];
        let ghost before = wt@;
        let r = wt.recv_stream(id, self.webtransport_session_id.0, tmp.as_mut_slice());
        match r {
            Ok(n) => {
                self.ctrl_buf.append(vstd::slice::slice_subrange(tmp.as_slice(), 0, n));
                proof {
                    let s0 = before.streams[id];
                    assert(tmp@.take(n as int) =~= s0.unread().take(n as int));
                    assert(self@.ctrl_pending(wt@) =~= old(self)@.ctrl_pending(before));
                    self.lemma_frame(*old(self));
                }
                Ok(())
            },
            Err(e) => {
                proof {
                    self.lemma_frame(*old(self));
                    assert(self@.ctrl_pending(wt@) =~= old(self)@.ctrl_pending(before));
                    if ctrl_attached(old(self)@, before) {
                        assert(old(self)@.ctrl_pending(before) =~= old(self)@.ctrl_held);
                    }
                }
                match e {
                    webtransport::Error::Done => Err(Error::Done),
                    webtransport::Error::Fin => Err(Error::Fin),
                    _ => Err(Error::WT(e)),
                }
            },
        }
    }

    /// Decodes a control message from the buffer of the session, where the
    /// buffer holds a whole one.
    fn take_control_message(&mut self, Ghost(wt): Ghost<ConnectionView>) -> (r: Result<
        Option<ControlMessage>,
    >)
        requires
            old(self)@.wf(),
        ensures
            final(self)@.wf(),
            final(self)@ == (SessionView { ctrl_held: final(self)@.ctrl_held, ..old(self)@ }),
            final(self)@.ctrl_held.len() <= old(self)@.ctrl_held.len(),
            match parse_control_message(old(self)@.ctrl_held, 0, old(self)@.version()) {
                Ok((cm, n)) => r matches Ok(Some(m)) && m@ == cm && 0 < n
                    <= old(self)@.ctrl_held.len() && final(self)@.ctrl_held
                    == old(self)@.ctrl_held.skip(n) && final(self)@.ctrl_pending(wt)
                    == old(self)@.ctrl_pending(wt).skip(n),
                Err(Fault::TooShort) => r matches Ok(None) && final(self)@ == old(self)@,
                Err(f) => r matches Err(Error::Wire(e)) && e.fault() == f && final(self)@ == old(
                    self,
                )@,
            },
    {
        let version = self.version();
        let ghost all = self@.ctrl_pending(wt);
        let ghost held = self@.ctrl_held;
        let mut b = Reader::with_slice(self.ctrl_buf.buffer());
        proof {
            assert(ControlMessage::parse(held, 0, version) == parse_control_message(
                held,
                0,
                version,
            ));
            assert(held.take(held.len() as int) =~= held);
            lemma_control_message_take(held, held.len() as int, version);
        }
        match ControlMessage::from_bytes(&mut b, version) {
            Ok(cm) => {
                let n = b.off();
                self.ctrl_buf.consume(n);
                proof {
                    assert(held =~= all.take(held.len() as int));
                    assert(self@.ctrl_pending(wt) =~= all.skip(n as int));
                    self.lemma_frame(*old(self));
                }
                Ok(Some(cm))
            },
            Err(e) => {
                if !e.is_too_short() {
                    return Err(Error::Wire(e));
                }
                Ok(None)
            },
        }
    }

    /// The next control message of the peer. `Done` where not all of it has
    /// arrived.
    pub fn next_control_message(&mut self, wt: &mut Connection) -> (r: Result<ControlMessage>)
        requires
            old(self)@.wf(),
            old(wt)@.wf(),
        ensures
            final(self)@.wf(),
            final(wt)@.wf(),
            control_message_taken(old(self)@, final(self)@, old(wt)@, final(wt)@, r),
    {
        if self.control_stream_id.is_none() {
            proof {
                self.lemma_frame(*old(self));
            }
            return Err(Error::Done);
        }
        let ghost version = self@.version();
        let ghost window = ctrl_window(old(self)@, old(wt)@);
        let ghost pending = old(self)@.ctrl_pending(old(wt)@);
        // The buffer holds no more than it has room for.
        let _held = self.ctrl_buf.len();
        loop
            invariant
                self@.wf(),
                wt@.wf(),
                wt@.sessions == old(wt)@.sessions,
                self@.control_stream_id is Some,
                self@ == (SessionView { ctrl_held: self@.ctrl_held, ..old(self)@ }),
                self@.ctrl_pending(wt@) == pending,
                self@.ctrl_held.len() <= CTRL_BUF_LEN,
                version == old(self)@.version(),
                window == ctrl_window(old(self)@, old(wt)@),
                pending == old(self)@.ctrl_pending(old(wt)@),
                ctrl_window(self@, wt@) == window,
                forall|e: Error|
                    short_of_message(self@, wt@, e) == short_of_message(old(self)@, old(wt)@, e),
            decreases CTRL_BUF_LEN - self@.ctrl_held.len(),
        {
            let ghost held = self@.ctrl_held;
            proof {
                lemma_window_begins(self@, wt@);
                lemma_control_message_carries(held, window, 0, version);
            }
            match self.take_control_message(Ghost(wt@)) {
                Ok(Some(cm)) => {
                    return Ok(cm);
                },
                Ok(None) => {},
                Err(e) => {
                    return Err(e);
                },
            }
            if self.ctrl_buf.len() >= CTRL_BUF_LEN {
                proof {
                    assert(held =~= window);
                }
                return Err(Error::PartialControlMessage);
            }
            match self.fill_ctrl(wt) {
                Ok(()) => {},
                Err(e) => {
                    return Err(e);
                },
            }
        }
    }

    /// Takes in what has arrived on a stream of a track, and reads the header
    /// of the subgroup once it is complete. Returns the header where it is
    /// read.
    fn read_in_stream(&mut self, wt: &mut Connection, stream_id: u64) -> (r: Result<
        Option<SubgroupHeader>,
    >)
        requires
            old(self)@.wf(),
            old(wt)@.wf(),
            old(self)@.selected_version is Some,
        ensures
            final(self)@.wf(),
            final(wt)@.wf(),
            final(wt)@.sessions == old(wt)@.sessions,
            exists|st: InStreamView, read: Result<()>| #[trigger]
                stream_read(in_stream_or_new(old(self)@, stream_id), st, old(wt)@, final(wt)@, read)
                    && match r {
                    Ok(h) => read is Ok && h == st.subgroup_header && final(self)@
                        == with_in_stream(
                        old(self)@,
                        stream_id,
                        InStreamView { readable: true, ..st },
                    ),
                    Err(e) => read is Err && read->Err_0 == e && final(self)@ == with_in_stream(
                        old(self)@,
                        stream_id,
                        st,
                    ),
                },
    {
        broadcast use vstd::std_specs::hash::group_hash_axioms;

        let version = self.version();
        let mut stream = match self.in_streams.remove(&stream_id) {
            Some(s) => {
                assert(old(self)@.in_streams.contains_key(stream_id));
                assert(old(self)@.in_streams[stream_id] == s@);
                s
            },
            None => InStream::new(StreamID(stream_id), self.webtransport_session_id, version),
        };
        let ghost before = stream@;
        let ghost wt_before = wt@;
        let r = stream.read(wt);
        let ghost st = stream@;
        let ghost read = r;
        if r.is_ok() {
            stream.mark_readable();
        }
        let header = match stream.subgroup_header() {
            Some(h) => Some(*h),
            None => None,
        };
        self.in_streams.insert(stream_id, stream);
        proof {
            assert(self@.in_streams =~= old(self)@.in_streams.insert(stream_id, stream@));
            self.lemma_frame(*old(self));
            assert(stream_read(in_stream_or_new(old(self)@, stream_id), st, wt_before, wt@, read));
        }
        match r {
            Ok(()) => Ok(header),
            Err(e) => Err(e),
        }
    }

    /// A stream whose subgroup header names the track `track_alias` joins
    /// that track, or waits for it where the track is not accepted yet.
    fn route_stream(&mut self, track_alias: TrackAlias, stream_id: u64) -> (r: Result<()>)
        requires
            old(self)@.wf(),
        ensures
            final(self)@.wf(),
            routed(old(self)@, final(self)@, track_alias, stream_id, r),
    {
        broadcast use vstd::std_specs::hash::group_hash_axioms;

        match self.in_tracks.remove(&track_alias) {
            Some(mut track) => {
                assert(old(self)@.in_tracks.contains_key(track_alias));
                assert(old(self)@.in_tracks[track_alias] == track@.readable_streams);
                track.mark_stream_readable(StreamID(stream_id));
                self.in_tracks.insert(track_alias, track);
                proof {
                    assert(self@.in_tracks =~= old(self)@.in_tracks.insert(
                        track_alias,
                        with_id(old(self)@.in_tracks[track_alias], stream_id),
                    ));
                    assert(self@.in_track_alias =~= old(self)@.in_track_alias);
                    self.lemma_frame(*old(self));
                }
                Ok(())
            },
            None => {
                proof {
                    assert(self.in_tracks@ =~= old(self).in_tracks@);
                    self.lemma_frame(*old(self));
                }
                match self.pending_streams.get(&track_alias) {
                    Some(waiting) => {
                        if *waiting != stream_id {
                            return Err(
                                Error::ProtocolViolation(
                                    "a second stream before the track is accepted".to_owned(),
                                ),
                            );
                        }
                    },
                    None => {},
                }
                self.pending_streams.insert(track_alias, stream_id);
                proof {
                    self.lemma_frame(*old(self));
                }
                Ok(())
            },
        }
    }

    /// Takes in what has arrived on a stream of a track. Once the header of
    /// the subgroup is read, the stream joins its track, or waits for the
    /// track where the track is not accepted yet.
    pub fn poll_stream(&mut self, wt: &mut Connection, stream_id: u64) -> (r: Result<()>)
        requires
            old(self)@.wf(),
            old(wt)@.wf(),
        ensures
            final(self)@.wf(),
            final(wt)@.wf(),
            final(wt)@.sessions == old(wt)@.sessions,
            kept(old(self)@, final(self)@),
            stream_polled(old(self)@, final(self)@, old(wt)@, final(wt)@, stream_id, r),
    {
        if self.selected_version.is_none() {
            return Ok(());
        }
        let header = match self.read_in_stream(wt, stream_id) {
            Ok(h) => h,
            Err(e) => {
                return Err(e);
            },
        };
        match header {
            Some(h) => self.route_stream(h.track_alias(), stream_id),
            None => Ok(()),
        }
    }
}

/// What a poll never changes: which side the session is, its session, its
/// configuration, the request id that it uses next, and the tracks that it
/// serves. A control stream that is known stays.
pub open spec fn kept(before: SessionView, after: SessionView) -> bool {
    &&& after.server == before.server
    &&& after.session_id == before.session_id
    &&& after.setup_version == before.setup_version
    &&& after.supported_versions == before.supported_versions
    &&& after.ignore_max_request_quota == before.ignore_max_request_quota
    &&& after.next_request_id == before.next_request_id
    &&& after.next_out_track_alias == before.next_out_track_alias
    &&& after.out_tracks == before.out_tracks
    &&& after.out_streams == before.out_streams
    &&& before.control_stream_id is Some ==> after.control_stream_id == before.control_stream_id
    &&& before.selected_version is Some ==> after.selected_version == before.selected_version
}

/// Taking in a control message changes nothing that a poll keeps, and
/// leaves what waits on the control stream as it was.
pub proof fn lemma_handled_keeps(
    before: SessionView,
    after: SessionView,
    wt_before: ConnectionView,
    wt_after: ConnectionView,
    cm: ControlMessageView,
    r: Result<()>,
)
    requires
        handled(before, after, wt_before, wt_after, cm, r),
    ensures
        kept(before, after),
        after.control_stream_id == before.control_stream_id,
        after.ctrl_pending(wt_after) == before.ctrl_pending(wt_before),
        wt_after.sessions == wt_before.sessions,
{
}

/// What a poll does about the control stream before it takes anything in:
/// a session that has none takes a stream in both directions that can be
/// read, where the session has one.
pub open spec fn adopted(before: SessionView, after: SessionView, wt: ConnectionView) -> bool {
    &&& after == (SessionView { control_stream_id: after.control_stream_id, ..before })
    &&& if before.control_stream_id is Some {
        after == before
    } else {
        match after.control_stream_id {
            Some(id) => wt.readable_streams(before.session_id).contains(id) && StreamID(id).bidi(),
            None => forall|id: u64|
                wt.readable_streams(before.session_id).contains(id) ==> !StreamID(id).bidi(),
        }
    }
}

/// What taking in one stream leaves behind: the control stream is taken in
/// for its messages, any other stream for its subgroup header and its
/// track.
pub open spec fn stream_step(
    before: SessionView,
    after: SessionView,
    wt_before: ConnectionView,
    wt_after: ConnectionView,
    id: u64,
    r: Result<()>,
) -> bool {
    if before.control_stream_id == Some(id) {
        control_polled(before, after, wt_before, wt_after, r)
    } else {
        stream_polled(before, after, wt_before, wt_after, id, r)
    }
}

/// The streams `ids` are taken in one after the other, each of them well.
pub open spec fn streams_polled(
    before: SessionView,
    after: SessionView,
    wt_before: ConnectionView,
    wt_after: ConnectionView,
    ids: Seq<u64>,
) -> bool
    decreases ids.len(),
{
    if ids.len() == 0 {
        after == before && wt_after == wt_before
    } else {
        exists|s: SessionView, wt: ConnectionView, r: Result<()>|
            streams_polled(before, s, wt_before, wt, ids.drop_last()) && r is Ok
                && #[trigger] stream_step(s, after, wt, wt_after, ids.last(), r)
    }
}

/// What taking in the streams that can be read leaves behind. They are
/// taken in one after the other, each once, in some order. The poll ends
/// well behind the last of them, or with the error of the first that
/// fails.
pub open spec fn poll_run(
    start: SessionView,
    after: SessionView,
    wt_before: ConnectionView,
    wt_after: ConnectionView,
    r: Result<()>,
) -> bool {
    exists|order: Seq<u64>, k: int, s: SessionView, wt: ConnectionView|
        order.no_duplicates() && order.to_set() == wt_before.readable_streams(start.session_id)
            && 0 <= k <= order.len() && #[trigger] streams_polled(
            start,
            s,
            wt_before,
            wt,
            order.take(k),
        ) && if k == order.len() {
            r is Ok && after == s && wt_after == wt
        } else {
            r is Err && stream_step(s, after, wt, wt_after, order[k], r)
        }
}

/// What a poll leaves behind. A session that has no control stream, and
/// finds none, takes nothing in.
pub open spec fn session_polled(
    before: SessionView,
    after: SessionView,
    wt_before: ConnectionView,
    wt_after: ConnectionView,
    r: Result<()>,
) -> bool {
    exists|start: SessionView| #[trigger]
        adopted(before, start, wt_before) && if start.control_stream_id is None {
            r is Ok && after == start && wt_after == wt_before
        } else {
            poll_run(start, after, wt_before, wt_after, r)
        }
}

impl MoqTransportSession {
    /// Takes in the control messages that have arrived, one after the
    /// other, until the control stream holds no whole message.
    pub fn poll_control(&mut self, wt: &mut Connection) -> (r: Result<()>)
        requires
            old(self)@.wf(),
            old(wt)@.wf(),
        ensures
            final(self)@.wf(),
            final(wt)@.wf(),
            final(wt)@.sessions == old(wt)@.sessions,
            kept(old(self)@, final(self)@),
            final(self)@.control_stream_id == old(self)@.control_stream_id,
            control_polled(old(self)@, final(self)@, old(wt)@, final(wt)@, r),
    {
        let ghost mut n: nat = 0;
        loop
            invariant
                self@.wf(),
                wt@.wf(),
                wt@.sessions == old(wt)@.sessions,
                kept(old(self)@, self@),
                self@.control_stream_id == old(self)@.control_stream_id,
                messages_taken(old(self)@, self@, old(wt)@, wt@, n),
            decreases self@.ctrl_pending(wt@).len(),
        {
            let ghost s0 = self@;
            let ghost w0 = wt@;
            let cm = match self.next_control_message(wt) {
                Ok(cm) => cm,
                Err(e) => {
                    proof {
                        assert(took_none(s0, self@, w0, wt@, e));
                    }
                    return match e {
                        Error::Done => Ok(()),
                        Error::Fin => Ok(()),
                        _ => Err(e),
                    };
                },
            };
            let ghost s1 = self@;
            let ghost w1 = wt@;
            let ghost view = cm@;
            let r = self.handle_control_message(wt, cm);
            proof {
                lemma_handled_keeps(s1, self@, w1, wt@, view, r);
                assert(took_message(s0, s1, w0, w1, view));
                assert(message_step(s0, self@, w0, wt@, r));
            }
            let ghost step = r;
            match r {
                Ok(()) => {},
                Err(e) => {
                    return Err(e);
                },
            }
            proof {
                let taken = n;
                n = n + 1;
                assert((n - 1) as nat == taken);
                assert(messages_taken(old(self)@, s0, old(wt)@, w0, (n - 1) as nat));
                lemma_messages_taken_more(old(self)@, s0, self@, old(wt)@, w0, wt@, taken, step);
            }
        }
    }

    /// The first stream in both directions that can be read becomes the
    /// control stream of a server that has none.
    fn adopt_control_stream(&mut self, readable: &Vec<u64>)
        requires
            old(self)@.wf(),
        ensures
            final(self)@.wf(),
            final(self)@ == (SessionView {
                control_stream_id: final(self)@.control_stream_id,
                ..old(self)@
            }),
            old(self)@.control_stream_id is Some ==> final(self)@ == old(self)@,
            old(self)@.control_stream_id is None ==> match final(self)@.control_stream_id {
                Some(id) => readable@.contains(id) && StreamID(id).bidi(),
                None => forall|k: int| 0 <= k < readable@.len() ==> !StreamID(readable@[k]).bidi(),
            },
    {
        if self.control_stream_id.is_some() {
            return ;
        }
        let mut i: usize = 0;
        while i < readable.len()
            invariant
                i <= readable@.len(),
                *self == *old(self),
                old(self)@.wf(),
                old(self)@.control_stream_id is None,
                forall|k: int| 0 <= k < i ==> !StreamID(readable@[k]).bidi(),
            decreases readable@.len() - i,
        {
            let id = StreamID(readable[i]);
            if id.is_bidi() {
                self.control_stream_id = Some(id);
                proof {
                    self.lemma_frame(*old(self));
                }
                return ;
            }
            i += 1;
        }
    }

    /// Takes in what has arrived. A server that has no control stream takes
    /// the first stream in both directions that can be read as one. Then
    /// each stream of the session that can be read is taken in: the control
    /// stream for its messages, any other for its subgroup header and its
    /// track. The first error ends the poll.
    pub fn poll(&mut self, wt: &mut Connection) -> (r: Result<()>)
        requires
            old(self)@.wf(),
            old(wt)@.wf(),
        ensures
            final(self)@.wf(),
            final(wt)@.wf(),
            final(wt)@.sessions == old(wt)@.sessions,
            kept(old(self)@, final(self)@),
            session_polled(old(self)@, final(self)@, old(wt)@, final(wt)@, r),
    {
        let readable = wt.readable_streams(self.webtransport_session_id.0);
        self.adopt_control_stream(&readable);
        let ghost start = self@;
        proof {
            assert forall|id: u64|
                old(wt)@.readable_streams(old(self)@.session_id).contains(id) implies readable@.contains(
                id,
            ) by {
                assert(readable@.to_set().contains(id));
            }
            if self@.control_stream_id is Some && old(self)@.control_stream_id is None {
                assert(readable@.to_set().contains(self@.control_stream_id->Some_0));
            }
            assert(adopted(old(self)@, start, old(wt)@));
        }
        let control_stream_id = match self.control_stream_id {
            Some(id) => id.0,
            None => {
                return Ok(());
            },
        };
        let mut i: usize = 0;
        proof {
            assert(readable@.take(0).len() == 0);
        }
        while i < readable.len()
            invariant
                i <= readable@.len(),
                self@.wf(),
                wt@.wf(),
                wt@.sessions == old(wt)@.sessions,
                kept(old(self)@, self@),
                self@.control_stream_id == Some(control_stream_id),
                start.control_stream_id == Some(control_stream_id),
                start.session_id == old(self)@.session_id,
                adopted(old(self)@, start, old(wt)@),
                readable@.no_duplicates(),
                readable@.to_set() == old(wt)@.readable_streams(old(self)@.session_id),
                streams_polled(start, self@, old(wt)@, wt@, readable@.take(i as int)),
            decreases readable@.len() - i,
        {
            let stream_id = readable[i];
            let ghost s0 = self@;
            let ghost w0 = wt@;
            let r = if stream_id == control_stream_id {
                self.poll_control(wt)
            } else {
                self.poll_stream(wt, stream_id)
            };
            proof {
                assert(stream_step(s0, self@, w0, wt@, stream_id, r));
            }
            let ghost step = r;
            match r {
                Ok(()) => {},
                Err(e) => {
                    proof {
                        assert(poll_run(start, self@, old(wt)@, wt@, step));
                    }
                    return Err(e);
                },
            }
            proof {
                let ids = readable@.take(i + 1);
                assert(ids.drop_last() =~= readable@.take(i as int));
                assert(ids.last() == stream_id);
                assert(step is Ok && stream_step(s0, self@, w0, wt@, ids.last(), step));
            }
            i += 1;
        }
        proof {
            assert(readable@.take(i as int) =~= readable@);
            assert(poll_run(start, self@, old(wt)@, wt@, Ok::<(), Error>(())));
        }
        Ok(())
    }
}

/// The request ids of an endpoint ascend, and all have the parity of its
/// side: a subscription that is made when the next request id is no smaller
/// than it was behind an earlier subscription gets a greater request id than
/// that one, odd for a client and even for a server.
pub proof fn lemma_request_ids_ascend(
    first_before: SessionView,
    first_after: SessionView,
    first_wt_before: ConnectionView,
    first_wt_after: ConnectionView,
    first_namespace: Seq<Seq<u8>>,
    first_name: Seq<u8>,
    first_id: RequestId,
    second_before: SessionView,
    second_after: SessionView,
    second_wt_before: ConnectionView,
    second_wt_after: ConnectionView,
    second_namespace: Seq<Seq<u8>>,
    second_name: Seq<u8>,
    second_id: RequestId,
)
    requires
        first_before.wf(),
        second_before.wf(),
        second_before.server == first_before.server,
        second_before.next_request_id >= first_after.next_request_id,
        subscribed(
            first_before,
            first_after,
            first_wt_before,
            first_wt_after,
            first_namespace,
            first_name,
            Ok::<RequestId, Error>(first_id),
        ),
        subscribed(
            second_before,
            second_after,
            second_wt_before,
            second_wt_after,
            second_namespace,
            second_name,
            Ok::<RequestId, Error>(second_id),
        ),
    ensures
        first_id < second_id,
        first_id % 2 == second_id % 2,
        first_id % 2 == if first_before.server {
            0int
        } else {
            1int
        },
        first_after.next_request_id == first_id + 2,
        first_after.request_id_parity(),
{
}

/// The track alias of an accepted subscription: on drafts 07 to 11 it is
/// the one that the subscriber put into its SUBSCRIBE, and the SUBSCRIBE_OK
/// names none; on drafts 12 and 13 it is one that the accepting endpoint has
/// not given out before, and the SUBSCRIBE_OK names it.
pub proof fn lemma_accepted_track_alias(
    before: SessionView,
    after: SessionView,
    wt_before: ConnectionView,
    wt_after: ConnectionView,
    request_id: RequestId,
    alias: TrackAlias,
)
    requires
        before.wf(),
        before.pending_received_subscriptions.contains_key(request_id),
        accepted(
            before,
            after,
            wt_before,
            wt_after,
            request_id,
            Ok::<TrackAlias, Error>(alias),
        ),
    ensures
        version_until_11(before.version()) ==> {
            &&& before.pending_received_subscriptions[request_id].track_alias == Some(alias)
            &&& subscribe_ok_sent(
                before,
                before.pending_received_subscriptions[request_id],
                alias,
            ).track_alias is None
            &&& after.next_out_track_alias == before.next_out_track_alias
        },
        !version_until_11(before.version()) ==> {
            &&& alias == before.next_out_track_alias
            &&& subscribe_ok_sent(
                before,
                before.pending_received_subscriptions[request_id],
                alias,
            ).track_alias == Some(alias)
            &&& after.next_out_track_alias > alias
        },
        after.out_tracks.contains_key(alias),
        subscribe_ok_sent(
            before,
            before.pending_received_subscriptions[request_id],
            alias,
        ).request_id == request_id,
{
}

/// The track alias under which a subscriber receives a track: on drafts 07
/// to 11 the one that it put into its SUBSCRIBE, which is the request id; on
/// drafts 12 and 13 the one that the SUBSCRIBE_OK names.
pub proof fn lemma_received_track_alias(
    subscribing: SessionView,
    subscribed_to: SessionView,
    wt_before: ConnectionView,
    wt_after: ConnectionView,
    namespace: Seq<Seq<u8>>,
    name: Seq<u8>,
    request_id: RequestId,
    answer: SubscribeOkView,
    answered: SessionView,
    wt: ConnectionView,
)
    requires
        subscribing.wf(),
        subscribed(
            subscribing,
            subscribed_to,
            wt_before,
            wt_after,
            namespace,
            name,
            Ok::<RequestId, Error>(request_id),
        ),
        answer.request_id == request_id,
        handled(
            subscribed_to,
            answered,
            wt,
            wt,
            ControlMessageView::SubscribeOk(answer),
            Ok::<(), Error>(()),
        ),
    ensures
        answered.responses.contains_key(request_id),
        answered.responses[request_id] matches Ok((alias, m)) && m == answer && answered.in_tracks.contains_key(
            alias,
        ) && alias == if version_until_11(subscribing.version()) {
            request_id
        } else {
            answer.track_alias->Some_0
        },
        !answered.pending_subscribe.contains_key(request_id),
{
}

/// A stream that arrives before the answer to its subscription is kept for
/// the track. Whichever the session takes in first, the stream whose
/// subgroup header names the track or the SUBSCRIBE_OK that makes the
/// track: the track then has that stream as the only one that can be read,
/// no stream waits for the track any more, the stream is as it was when its
/// header was read, and the answer waits to be fetched.
pub proof fn lemma_stream_and_answer_in_any_order(
    before: SessionView,
    mid: SessionView,
    after: SessionView,
    wt_before: ConnectionView,
    wt_after: ConnectionView,
    id: u64,
    st: InStreamView,
    read: Result<()>,
    header: SubgroupHeader,
    answer: SubscribeOkView,
    alias: TrackAlias,
    stream_first: bool,
    r_stream: Result<()>,
    r_answer: Result<()>,
)
    requires
        before.wf(),
        before.pending_subscribe.contains_key(answer.request_id),
        received_alias(before, answer) == Some(alias),
        alias <= MAX_VAR_INT,
        !before.in_tracks.contains_key(alias),
        !before.pending_streams.contains_key(alias),
        read is Ok,
        st.subgroup_header == Some(header),
        header.track_alias == alias,
        if stream_first {
            stream_taken_in(before, mid, id, st, read, r_stream) && handled(
                mid,
                after,
                wt_before,
                wt_after,
                ControlMessageView::SubscribeOk(answer),
                r_answer,
            )
        } else {
            handled(
                before,
                mid,
                wt_before,
                wt_after,
                ControlMessageView::SubscribeOk(answer),
                r_answer,
            ) && stream_taken_in(mid, after, id, st, read, r_stream)
        },
    ensures
        r_stream is Ok,
        r_answer is Ok,
        after.in_tracks.contains_key(alias),
        after.in_tracks[alias] == seq![id],
        readable_tracks(after).contains(alias),
        !after.pending_streams.contains_key(alias),
        after.responses.contains_key(answer.request_id),
        after.responses[answer.request_id] == Ok::<
            (TrackAlias, SubscribeOkView),
            SubscribeErrorView,
        >((alias, answer)),
        after.in_streams.contains_key(id),
        after.in_streams[id] == (InStreamView { readable: true, ..st }),
{
    reveal_with_fuel(with_id, 2);
    if stream_first {
        assert(mid.pending_streams.contains_key(alias) && mid.pending_streams[alias] == id);
        assert(first_streams(mid, alias) =~= seq![id]);
    } else {
        assert(first_streams(before, alias) =~= Seq::<u64>::empty());
        assert(mid.in_tracks[alias] =~= Seq::<u64>::empty());
        assert(with_id(mid.in_tracks[alias], id) =~= seq![id]);
    }
    assert(after.in_tracks[alias] =~= seq![id]);
}

/// After a delivery timeout the next object of the track goes on a new
/// stream. The stream that was given up is reset with the code for a
/// delivery that took too long and gets no more bytes. What the new stream
/// sends, behind the session id, is the header of the subgroup, the header
/// of the object and the payload, byte for byte: the only object that a
/// reader of that stream finds.
pub proof fn lemma_timeout_opens_a_new_stream(
    before: SessionView,
    given_up: SessionView,
    after: SessionView,
    wt_before: ConnectionView,
    wt_given_up: ConnectionView,
    wt_after: ConnectionView,
    alias: TrackAlias,
    old_id: u64,
    buf: Seq<u8>,
)
    requires
        before.wf(),
        before.out_tracks.contains_key(alias),
        before.out_tracks[alias] == Some(old_id),
        wt_before.streams.contains_key(old_id),
        wt_before.free_uni.len() > 0,
        !wt_before.streams.contains_key(wt_before.free_uni.last()),
        timed_out(before, given_up, wt_before, wt_given_up, alias, Ok::<(), Error>(())),
        object_sent(given_up, after, wt_given_up, wt_after, alias, buf, Ok::<(), Error>(())),
    ensures
        !given_up.out_streams.contains_key(old_id),
        wt_after.streams.contains_key(old_id),
        wt_after.streams[old_id] == (StreamView {
            reset: Some(RESET_STREAM_CODE_DELIVERY_TIMEOUT),
            ..wt_before.streams[old_id]
        }),
        after.out_tracks[alias] == Some(wt_before.free_uni.last()),
        wt_before.free_uni.last() != old_id,
        ({
            let id = wt_before.free_uni.last();
            let version = before.version();
            let sent = wt_after.streams[id].outbound.skip(
                varint_bytes(before.session_id).len() as int,
            );
            let h = crate::out_stream::sent_subgroup_header(alias, version);
            let o = crate::out_stream::sent_object_header(buf.len() as u64, h.ty);
            let first = crate::wire::subgroup::subgroup_header_bytes(h, version).len() as int;
            let second = crate::wire::object::object_header_bytes(o).len() as int;
            &&& wt_after.streams.contains_key(id)
            &&& crate::wire::subgroup::parse_subgroup_header(sent, 0, version) == Ok::<
                (SubgroupHeader, int),
                Fault,
            >((h, first))
            &&& crate::wire::object::parse_object_header(sent, first, h.ty) == Ok::<
                (crate::wire::object::ObjectHeaderView, int),
                Fault,
            >((o, first + second))
            &&& sent.len() == first + second + buf.len()
            &&& sent.subrange(first + second, first + second + buf.len()) == buf
        }),
{
    let id = wt_before.free_uni.last();
    let (s, w) = with_out_stream(given_up, wt_given_up, alias);
    assert(!no_out_stream(given_up, wt_given_up, alias));
    assert(w.streams.contains_key(id));
    let stream = s.out_streams[id];
    crate::out_stream::lemma_sent_object_reads_back(stream, after.out_streams[id], w, wt_after, buf);
    let s0 = w.streams[id];
    assert(s0.outbound =~= Seq::<u8>::empty());
    assert(s0.prefix() == varint_bytes(before.session_id));
}

} // verus!
