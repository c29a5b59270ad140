use quiche_moq::stream_id::StreamID;
use quiche_moq::webtransport::Connection;
use quiche_moq::wire::control_message::ControlMessage;
use quiche_moq::wire::octets::Reader;
use quiche_moq::wire::FromBytes;
use quiche_moq::wire::MOQ_VERSION_DRAFT_07;
use quiche_moq::wire::MOQ_VERSION_DRAFT_08;
use quiche_moq::wire::MOQ_VERSION_DRAFT_09;
use quiche_moq::wire::MOQ_VERSION_DRAFT_10;
use quiche_moq::wire::MOQ_VERSION_DRAFT_11;
use quiche_moq::wire::MOQ_VERSION_DRAFT_12;
use quiche_moq::wire::MOQ_VERSION_DRAFT_13;
use quiche_moq::Config;
use quiche_moq::Error;
use quiche_moq::MoqTransportSession;

const SESSION: u64 = 0;

/// Two endpoints and the streams between them. `advance` carries what one
/// side has sent to the other, as a QUIC connection would.
struct Pipe {
    client: Connection,
    server: Connection,
}

impl Pipe {
    fn new() -> Pipe {
        let mut client = Connection::new(false);
        let mut server = Connection::new(true);
        for wt in [&mut client, &mut server] {
            wt.set_initial_credit(10_000);
            wt.establish(SESSION);
        }
        for id in [20u64, 16, 12, 8, 4] {
            client.provide_stream(id, true);
        }
        for id in [23u64, 19, 15, 11, 7, 3] {
            server.provide_stream(id, false);
        }
        Pipe { client, server }
    }

    fn carry(from: &mut Connection, to: &mut Connection) {
        let mut ids = from.stream_ids();
        ids.sort();
        for id in ids {
            let out = from.take_outbound(id);
            if from.stream_reset(id).is_some() {
                continue;
            }
            if !out.is_empty() {
                to.deliver(id, &out, false);
            }
        }
        to.poll();
    }

    fn advance(&mut self) {
        Pipe::carry(&mut self.client, &mut self.server);
        Pipe::carry(&mut self.server, &mut self.client);
    }
}

fn init_moq_pipe(config: Config) -> (Pipe, MoqTransportSession, MoqTransportSession) {
    let mut pipe = Pipe::new();
    let mut c_moq =
        MoqTransportSession::connect(StreamID(SESSION), &mut pipe.client, config.clone()).unwrap();
    assert!(!c_moq.initialized());
    pipe.advance();
    let mut s_moq = MoqTransportSession::accept(StreamID(SESSION), config);
    s_moq.poll(&mut pipe.server).unwrap();
    assert!(s_moq.initialized());
    pipe.advance();
    c_moq.poll(&mut pipe.client).unwrap();
    assert!(c_moq.initialized());
    (pipe, c_moq, s_moq)
}

fn config_for(version: u64) -> Config {
    let mut config: Config = Default::default();
    config.setup_version = version;
    config
}

fn hello(version: u64) {
    let (mut pipe, mut c_moq, mut s_moq) = init_moq_pipe(config_for(version));
    assert_eq!(c_moq.version(), version);
    assert_eq!(s_moq.version(), version);

    let request = c_moq
        .subscribe(&mut pipe.client, vec![b"n1".to_vec()], b"t1".to_vec())
        .unwrap();
    assert_eq!(request, 1);
    pipe.advance();

    s_moq.poll(&mut pipe.server).unwrap();
    let request_id = s_moq.next_pending_received_subscription().unwrap();
    assert_eq!(request_id, 1);
    let received = s_moq.pending_received_subscription(request_id);
    assert_eq!(received.track_namespace, vec![b"n1".to_vec()]);
    assert_eq!(received.track_name, b"t1".to_vec());
    let track_alias = s_moq.accept_subscription(&mut pipe.server, request_id).unwrap();
    if version <= MOQ_VERSION_DRAFT_11 {
        assert_eq!(track_alias, 1);
    } else {
        assert_eq!(track_alias, 0);
    }
    assert_eq!(s_moq.writable().as_slice(), &[track_alias]);
    s_moq.send_obj(b"hello", track_alias, &mut pipe.server).unwrap();
    pipe.advance();

    c_moq.poll(&mut pipe.client).unwrap();
    let readable = c_moq.readable().as_slice().to_vec();
    assert_eq!(readable, vec![track_alias]);
    let track_alias = readable[0];
    let hdr = c_moq.read_obj_hdr(track_alias, &mut pipe.client).unwrap();
    assert_eq!(hdr.payload_len(), 5);
    assert_eq!(c_moq.remaining_object_payload(track_alias).unwrap(), 5);
    let mut buf = [0u8; 10];
    let n = c_moq.read_obj_pld(&mut buf, track_alias, &mut pipe.client).unwrap();
    assert_eq!(n, 5);
    assert_eq!(&buf[..n], b"hello");
    assert_eq!(c_moq.remaining_object_payload(track_alias).unwrap(), 0);
    assert!(matches!(
        c_moq.read_obj_hdr(track_alias, &mut pipe.client),
        Err(Error::Done)
    ));

    let response = c_moq.poll_subscribe_response(request).unwrap();
    let (alias, ok) = response.unwrap();
    assert_eq!(alias, track_alias);
    assert_eq!(ok.request_id(), request);
    if version <= MOQ_VERSION_DRAFT_11 {
        assert_eq!(ok.track_alias(), None);
    } else {
        assert_eq!(ok.track_alias(), Some(track_alias));
    }
    assert!(c_moq.poll_subscribe_response(request).is_none());
}

#[test]
fn test_webtransport_moq_draft07() {
    hello(MOQ_VERSION_DRAFT_07);
}

#[test]
fn test_webtransport_moq_draft08() {
    hello(MOQ_VERSION_DRAFT_08);
}

#[test]
fn test_webtransport_moq_draft09() {
    hello(MOQ_VERSION_DRAFT_09);
}

#[test]
fn test_webtransport_moq_draft10() {
    hello(MOQ_VERSION_DRAFT_10);
}

#[test]
fn test_webtransport_moq_draft11() {
    hello(MOQ_VERSION_DRAFT_11);
}

#[test]
fn test_webtransport_moq_draft12() {
    hello(MOQ_VERSION_DRAFT_12);
}

#[test]
fn test_webtransport_moq_draft13() {
    hello(MOQ_VERSION_DRAFT_13);
}

#[test]
fn client_setup_offers_the_configured_drafts() {
    for version in [MOQ_VERSION_DRAFT_07, MOQ_VERSION_DRAFT_13] {
        let mut pipe = Pipe::new();
        let config = config_for(version);
        let c_moq =
            MoqTransportSession::connect(StreamID(SESSION), &mut pipe.client, config.clone())
                .unwrap();
        assert_eq!(c_moq.control_stream_id(), Some(StreamID(4)));
        assert_eq!(c_moq.next_request_id(), 1);
        assert_eq!(c_moq.max_request_id(), 0);
        let sent = pipe.client.take_outbound(4);
        assert_eq!(sent[0], SESSION as u8);
        let mut r = Reader::with_slice(&sent[1..]);
        let ControlMessage::ClientSetup(m) = ControlMessage::from_bytes(&mut r, version).unwrap()
        else {
            panic!()
        };
        assert_eq!(r.cap(), 0);
        assert_eq!(m.supported_versions, config.supported_versions);
        assert_eq!(m.setup_parameters.max_request_id, Some(100));
        assert_eq!(m.setup_parameters.path, None);
        assert_eq!(
            m.setup_parameters.role.is_some(),
            version == MOQ_VERSION_DRAFT_07
        );
    }
}

#[test]
fn connect_without_a_stream_fails() {
    let mut wt = Connection::new(false);
    wt.establish(SESSION);
    let r = MoqTransportSession::connect(StreamID(SESSION), &mut wt, Default::default());
    assert!(matches!(r, Err(Error::InsufficientCapacity)));
    wt.provide_stream(4, true);
    let r = MoqTransportSession::connect(StreamID(SESSION), &mut wt, Default::default());
    assert!(matches!(r, Err(Error::Done)));
}

#[test]
fn delivery_timeout_opens_a_new_stream() {
    let (mut pipe, mut c_moq, mut s_moq) = init_moq_pipe(config_for(MOQ_VERSION_DRAFT_13));
    c_moq.subscribe(&mut pipe.client, vec![b"n1".to_vec()], b"t1".to_vec()).unwrap();
    pipe.advance();
    s_moq.poll(&mut pipe.server).unwrap();
    let request_id = s_moq.next_pending_received_subscription().unwrap();
    let track_alias = s_moq.accept_subscription(&mut pipe.server, request_id).unwrap();

    s_moq.send_obj_hdr(100, track_alias, &mut pipe.server).unwrap();
    assert_eq!(s_moq.send_obj_pld(b"abc", track_alias, &mut pipe.server).unwrap(), 3);
    let first = s_moq.current_out_stream(track_alias).unwrap();
    assert!(matches!(
        s_moq.send_obj_hdr(2, track_alias, &mut pipe.server),
        Err(Error::UnfinishedPayload)
    ));
    assert!(matches!(
        s_moq.send_obj(b"ok", track_alias, &mut pipe.server),
        Err(Error::UnfinishedPayload)
    ));
    s_moq.timeout_stream(track_alias, &mut pipe.server).unwrap();
    assert_eq!(pipe.server.stream_reset(first.into_u64()), Some(0x2));
    assert_eq!(s_moq.current_out_stream(track_alias), None);
    assert!(matches!(
        s_moq.timeout_stream(track_alias, &mut pipe.server),
        Err(Error::Done)
    ));

    s_moq.send_obj(b"ok", track_alias, &mut pipe.server).unwrap();
    let second = s_moq.current_out_stream(track_alias).unwrap();
    assert_ne!(first, second);
    pipe.advance();

    c_moq.poll(&mut pipe.client).unwrap();
    assert_eq!(c_moq.readable().as_slice(), &[track_alias]);
    assert_eq!(c_moq.readable_streams(track_alias), &[second.into_u64()]);
    let hdr = c_moq.read_obj_hdr(track_alias, &mut pipe.client).unwrap();
    assert_eq!(hdr.payload_len(), 2);
    let mut buf = [0u8; 10];
    let n = c_moq.read_obj_pld(&mut buf, track_alias, &mut pipe.client).unwrap();
    assert_eq!(&buf[..n], b"ok");
    assert!(matches!(
        c_moq.read_obj_hdr(track_alias, &mut pipe.client),
        Err(Error::Done)
    ));
}

#[test]
fn request_blocked_until_the_quota_arrives_and_after_it_is_used() {
    let mut config = config_for(MOQ_VERSION_DRAFT_13);
    config.ignore_max_request_quota = false;
    let mut pipe = Pipe::new();
    pipe.client.set_initial_credit(1_000_000);
    let mut c_moq =
        MoqTransportSession::connect(StreamID(SESSION), &mut pipe.client, config.clone()).unwrap();
    pipe.client.grant(4, 1_000_000);
    assert!(matches!(
        c_moq.subscribe(&mut pipe.client, vec![b"n1".to_vec()], b"t1".to_vec()),
        Err(Error::RequestBlocked)
    ));
    assert_eq!(c_moq.next_request_id(), 1);
    pipe.advance();
    let mut s_moq = MoqTransportSession::accept(StreamID(SESSION), config);
    s_moq.poll(&mut pipe.server).unwrap();
    pipe.advance();
    c_moq.poll(&mut pipe.client).unwrap();
    assert_eq!(c_moq.max_request_id(), 100);

    let mut last = 0;
    for i in 0..50u64 {
        let id = c_moq
            .subscribe(&mut pipe.client, vec![b"n1".to_vec()], b"t1".to_vec())
            .unwrap();
        assert_eq!(id, 1 + 2 * i);
        assert_eq!(id % 2, 1);
        assert!(id > last || i == 0);
        last = id;
    }
    assert_eq!(last, 99);
    assert_eq!(c_moq.next_request_id(), 101);
    assert!(matches!(
        c_moq.subscribe(&mut pipe.client, vec![b"n1".to_vec()], b"t1".to_vec()),
        Err(Error::RequestBlocked)
    ));
    assert_eq!(c_moq.next_request_id(), 101);
}

#[test]
fn quota_can_be_ignored() {
    let mut config = config_for(MOQ_VERSION_DRAFT_13);
    config.ignore_max_request_quota = true;
    let mut pipe = Pipe::new();
    let mut c_moq =
        MoqTransportSession::connect(StreamID(SESSION), &mut pipe.client, config).unwrap();
    let id = c_moq
        .subscribe(&mut pipe.client, vec![b"n1".to_vec()], b"t1".to_vec())
        .unwrap();
    assert_eq!(id, 1);
    let id = c_moq
        .subscribe(&mut pipe.client, vec![b"n1".to_vec()], b"t1".to_vec())
        .unwrap();
    assert_eq!(id, 3);
}

#[test]
fn stream_that_arrives_before_subscribe_ok_is_kept_for_the_track() {
    let (mut pipe, mut c_moq, mut s_moq) = init_moq_pipe(config_for(MOQ_VERSION_DRAFT_13));
    let request = c_moq
        .subscribe(&mut pipe.client, vec![b"n1".to_vec()], b"t1".to_vec())
        .unwrap();
    pipe.advance();
    s_moq.poll(&mut pipe.server).unwrap();
    let request_id = s_moq.next_pending_received_subscription().unwrap();
    let track_alias = s_moq.accept_subscription(&mut pipe.server, request_id).unwrap();
    s_moq.send_obj(b"early", track_alias, &mut pipe.server).unwrap();

    // The data stream reaches the client first, the control stream later.
    let data = s_moq.current_out_stream(track_alias).unwrap().into_u64();
    let bytes = pipe.server.take_outbound(data);
    pipe.client.deliver(data, &bytes, false);
    pipe.client.poll();
    c_moq.poll(&mut pipe.client).unwrap();
    assert!(!c_moq.has_in_track(track_alias));
    assert!(c_moq.readable().is_empty());
    assert!(c_moq.poll_subscribe_response(request).is_none());

    pipe.advance();
    c_moq.poll(&mut pipe.client).unwrap();
    assert!(c_moq.has_in_track(track_alias));
    assert_eq!(c_moq.readable().as_slice(), &[track_alias]);
    assert_eq!(c_moq.readable_streams(track_alias), &[data]);
    let hdr = c_moq.read_obj_hdr(track_alias, &mut pipe.client).unwrap();
    assert_eq!(hdr.payload_len(), 5);
    let mut buf = [0u8; 3];
    let n = c_moq.read_obj_pld(&mut buf, track_alias, &mut pipe.client).unwrap();
    assert_eq!(&buf[..n], b"ear");
    let n = c_moq.read_obj_pld(&mut buf, track_alias, &mut pipe.client).unwrap();
    assert_eq!(&buf[..n], b"ly");
    assert!(matches!(
        c_moq.read_obj_pld(&mut buf, track_alias, &mut pipe.client),
        Err(Error::Done)
    ));
}

#[test]
fn request_ids_of_a_server_are_even_and_ascend() {
    let (mut pipe, _c_moq, mut s_moq) = init_moq_pipe({
        let mut config = config_for(MOQ_VERSION_DRAFT_11);
        config.ignore_max_request_quota = true;
        config
    });
    let a = s_moq.subscribe(&mut pipe.server, vec![b"n".to_vec()], b"t".to_vec()).unwrap();
    let b = s_moq.subscribe(&mut pipe.server, vec![b"n".to_vec()], b"t".to_vec()).unwrap();
    let c = s_moq.subscribe(&mut pipe.server, vec![b"n".to_vec()], b"t".to_vec()).unwrap();
    assert_eq!((a, b, c), (0, 2, 4));
}

#[test]
fn track_alias_comes_from_the_subscriber_until_draft_11_and_from_the_publisher_after() {
    for version in [MOQ_VERSION_DRAFT_07, MOQ_VERSION_DRAFT_11, MOQ_VERSION_DRAFT_12, MOQ_VERSION_DRAFT_13] {
        let mut config = config_for(version);
        config.ignore_max_request_quota = true;
        let (mut pipe, mut c_moq, mut s_moq) = init_moq_pipe(config);
        let first = c_moq.subscribe(&mut pipe.client, vec![b"a".to_vec()], b"x".to_vec()).unwrap();
        let second = c_moq.subscribe(&mut pipe.client, vec![b"a".to_vec()], b"y".to_vec()).unwrap();
        assert_eq!((first, second), (1, 3));
        pipe.advance();
        s_moq.poll(&mut pipe.server).unwrap();
        assert!(s_moq.has_pending_received_subscription(1));
        assert!(s_moq.has_pending_received_subscription(3));
        let alias_second = s_moq.accept_subscription(&mut pipe.server, second).unwrap();
        let alias_first = s_moq.accept_subscription(&mut pipe.server, first).unwrap();
        if version <= MOQ_VERSION_DRAFT_11 {
            assert_eq!((alias_first, alias_second), (1, 3));
        } else {
            assert_eq!((alias_second, alias_first), (0, 1));
        }
        assert!(s_moq.next_pending_received_subscription().is_none());
        assert!(s_moq.has_out_track(alias_first));
        pipe.advance();
        c_moq.poll(&mut pipe.client).unwrap();
        let (a1, _) = c_moq.poll_subscribe_response(first).unwrap().unwrap();
        let (a2, _) = c_moq.poll_subscribe_response(second).unwrap().unwrap();
        assert_eq!((a1, a2), (alias_first, alias_second));
    }
}

#[test]
fn objects_come_in_the_order_of_the_stream_and_streams_in_the_order_of_their_ids() {
    let (mut pipe, mut c_moq, mut s_moq) = init_moq_pipe(config_for(MOQ_VERSION_DRAFT_13));
    c_moq.subscribe(&mut pipe.client, vec![b"n1".to_vec()], b"t1".to_vec()).unwrap();
    pipe.advance();
    s_moq.poll(&mut pipe.server).unwrap();
    let track_alias = s_moq.accept_subscription(&mut pipe.server, 1).unwrap();
    s_moq.send_obj(b"one", track_alias, &mut pipe.server).unwrap();
    s_moq.send_obj(b"two", track_alias, &mut pipe.server).unwrap();
    let first = s_moq.current_out_stream(track_alias).unwrap().into_u64();
    pipe.advance();
    pipe.client.deliver(first, &[], true);
    pipe.client.poll();
    c_moq.poll(&mut pipe.client).unwrap();

    let mut buf = [0u8; 8];
    for expected in [b"one", b"two"] {
        let hdr = c_moq.read_obj_hdr(track_alias, &mut pipe.client).unwrap();
        assert_eq!(hdr.payload_len(), 3);
        let n = c_moq.read_obj_pld(&mut buf, track_alias, &mut pipe.client).unwrap();
        assert_eq!(&buf[..n], expected);
    }
    assert!(matches!(
        c_moq.read_obj_hdr(track_alias, &mut pipe.client),
        Err(Error::Done)
    ));
    assert!(c_moq.readable().is_empty());
}

#[test]
fn send_obj_is_all_or_nothing() {
    let (mut pipe, mut c_moq, mut s_moq) = init_moq_pipe(config_for(MOQ_VERSION_DRAFT_13));
    c_moq.subscribe(&mut pipe.client, vec![b"n1".to_vec()], b"t1".to_vec()).unwrap();
    pipe.advance();
    s_moq.poll(&mut pipe.server).unwrap();
    let track_alias = s_moq.accept_subscription(&mut pipe.server, 1).unwrap();
    pipe.server.set_initial_credit(12);
    assert!(matches!(
        s_moq.send_obj(b"0123456789", track_alias, &mut pipe.server),
        Err(Error::Done)
    ));
    let stream = s_moq.current_out_stream(track_alias).unwrap().into_u64();
    assert!(pipe.server.take_outbound(stream).is_empty());
    pipe.server.grant(stream, 7);
    s_moq.send_obj(b"0123456789", track_alias, &mut pipe.server).unwrap();
    assert_eq!(
        pipe.server.take_outbound(stream),
        [&[0u8, 0x0d, 0x00, 0x00, 0x00, 0x00, 0x00, 0x00, 0x0a][..], b"0123456789"].concat()
    );
    assert_eq!(pipe.server.stream_capacity(stream).unwrap(), 0);
    assert!(matches!(
        s_moq.send_obj_hdr(4, track_alias, &mut pipe.server),
        Err(Error::Done)
    ));
    pipe.server.grant(stream, 5);
    s_moq.send_obj_hdr(4, track_alias, &mut pipe.server).unwrap();
    assert_eq!(s_moq.send_obj_pld(b"abcd", track_alias, &mut pipe.server).unwrap(), 2);
    assert!(matches!(
        s_moq.send_obj_pld(b"cd", track_alias, &mut pipe.server),
        Err(Error::Done)
    ));
    pipe.server.grant(stream, 5);
    assert_eq!(s_moq.send_obj_pld(b"cd", track_alias, &mut pipe.server).unwrap(), 2);
    assert_eq!(
        pipe.server.take_outbound(stream),
        [&[0x00u8, 0x00, 0x04][..], b"abcd"].concat()
    );
}

#[test]
fn announce_is_answered() {
    for version in [MOQ_VERSION_DRAFT_07, MOQ_VERSION_DRAFT_13] {
        let (mut pipe, mut c_moq, mut s_moq) = init_moq_pipe(config_for(version));
        c_moq.announce(&mut pipe.client, vec![b"ns".to_vec()]).unwrap();
        pipe.advance();
        s_moq.poll(&mut pipe.server).unwrap();
        let answer = pipe.server.take_outbound(4);
        let mut r = Reader::with_slice(&answer);
        let ControlMessage::AnnounceOk(ok) = ControlMessage::from_bytes(&mut r, version).unwrap()
        else {
            panic!()
        };
        if version == MOQ_VERSION_DRAFT_07 {
            assert_eq!(ok.track_namespace.unwrap().0 .0, vec![b"ns".to_vec()]);
        } else {
            assert_eq!(ok.request_id, Some(0));
        }
    }
}

#[test]
fn a_server_refuses_a_client_that_does_not_offer_its_draft() {
    let mut offer = config_for(MOQ_VERSION_DRAFT_13);
    offer.supported_versions = vec![MOQ_VERSION_DRAFT_13];
    let mut pipe = Pipe::new();
    let _c_moq = MoqTransportSession::connect(StreamID(SESSION), &mut pipe.client, offer).unwrap();
    pipe.advance();
    let mut other = config_for(MOQ_VERSION_DRAFT_13);
    other.setup_version = MOQ_VERSION_DRAFT_13;
    let mut s_moq = MoqTransportSession::accept(StreamID(SESSION), {
        let mut c = other.clone();
        c.setup_version = MOQ_VERSION_DRAFT_11;
        c
    });
    assert!(s_moq.poll(&mut pipe.server).is_err());
    assert!(!s_moq.initialized());
}

#[test]
fn control_message_that_outgrows_the_buffer_is_partial() {
    let (mut pipe, mut c_moq, _s_moq) = init_moq_pipe(config_for(MOQ_VERSION_DRAFT_13));
    let control = c_moq.control_stream_id().unwrap().into_u64();
    // REQUEST_BLOCKED that says its payload takes 2000 bytes.
    let mut bytes = vec![0x1a, 0x07, 0xd0];
    bytes.extend(std::iter::repeat(0u8).take(1100));
    pipe.client.deliver(control, &bytes, false);
    pipe.client.poll();
    assert!(matches!(
        c_moq.poll(&mut pipe.client),
        Err(Error::PartialControlMessage)
    ));
}

#[test]
fn control_message_in_two_parts_is_taken_in_when_it_is_whole() {
    let config = config_for(MOQ_VERSION_DRAFT_13);
    let mut pipe = Pipe::new();
    let mut c_moq =
        MoqTransportSession::connect(StreamID(SESSION), &mut pipe.client, config.clone()).unwrap();
    pipe.advance();
    let mut s_moq = MoqTransportSession::accept(StreamID(SESSION), config);
    s_moq.poll(&mut pipe.server).unwrap();
    let control = c_moq.control_stream_id().unwrap().into_u64();
    let answer = pipe.server.take_outbound(control);
    assert!(answer.len() > 3);

    pipe.client.deliver(control, &answer[..3], false);
    pipe.client.poll();
    c_moq.poll(&mut pipe.client).unwrap();
    assert!(!c_moq.initialized());
    assert!(matches!(
        c_moq.next_control_message(&mut pipe.client),
        Err(Error::Done)
    ));

    pipe.client.deliver(control, &answer[3..], false);
    pipe.client.poll();
    c_moq.poll(&mut pipe.client).unwrap();
    assert!(c_moq.initialized());
    assert_eq!(c_moq.version(), MOQ_VERSION_DRAFT_13);
}

#[test]
fn control_message_of_an_unknown_type_ends_the_poll() {
    let (mut pipe, mut c_moq, _s_moq) = init_moq_pipe(config_for(MOQ_VERSION_DRAFT_13));
    let control = c_moq.control_stream_id().unwrap().into_u64();
    pipe.client.deliver(control, &[0x3f, 0x00, 0x00], false);
    pipe.client.poll();
    match c_moq.poll(&mut pipe.client) {
        Err(Error::Wire(quiche_moq::wire::Error::ProtocolViolation(text))) => {
            assert_eq!(text, "unexpected control message with id 63")
        }
        other => panic!("{:?}", other),
    }
}

#[test]
fn object_header_that_outgrows_the_buffer_is_too_long() {
    let (mut pipe, mut c_moq, mut s_moq) = init_moq_pipe(config_for(MOQ_VERSION_DRAFT_13));
    c_moq
        .subscribe(&mut pipe.client, vec![b"n1".to_vec()], b"t1".to_vec())
        .unwrap();
    pipe.advance();
    s_moq.poll(&mut pipe.server).unwrap();
    let request_id = s_moq.next_pending_received_subscription().unwrap();
    let track_alias = s_moq.accept_subscription(&mut pipe.server, request_id).unwrap();
    pipe.advance();
    c_moq.poll(&mut pipe.client).unwrap();
    assert!(c_moq.has_in_track(track_alias));

    // The session id, the header of a subgroup with extensions, and the
    // header of an object whose extensions are said to take 200 bytes.
    let mut bytes = vec![SESSION as u8, 0x09, track_alias as u8, 0x00, 0x00];
    bytes.extend_from_slice(&[0x00, 0x40, 0xc8]);
    bytes.extend(std::iter::repeat(0u8).take(150));
    pipe.client.deliver(3, &bytes, false);
    pipe.client.poll();
    c_moq.poll(&mut pipe.client).unwrap();
    assert_eq!(c_moq.readable().as_slice(), &[track_alias]);
    assert!(matches!(
        c_moq.read_obj_hdr(track_alias, &mut pipe.client),
        Err(Error::ObjectToLong)
    ));
}

#[test]
fn stream_that_has_ended_leaves_its_track() {
    let (mut pipe, mut c_moq, mut s_moq) = init_moq_pipe(config_for(MOQ_VERSION_DRAFT_13));
    c_moq
        .subscribe(&mut pipe.client, vec![b"n1".to_vec()], b"t1".to_vec())
        .unwrap();
    pipe.advance();
    s_moq.poll(&mut pipe.server).unwrap();
    let request_id = s_moq.next_pending_received_subscription().unwrap();
    let track_alias = s_moq.accept_subscription(&mut pipe.server, request_id).unwrap();
    pipe.advance();
    c_moq.poll(&mut pipe.client).unwrap();

    // One stream that ends behind its subgroup header, one with an object.
    pipe.client
        .deliver(3, &[SESSION as u8, 0x08, track_alias as u8, 0x00, 0x00], true);
    pipe.client.deliver(
        7,
        &[SESSION as u8, 0x08, track_alias as u8, 0x01, 0x00, 0x00, 0x02, b'h', b'i'],
        false,
    );
    pipe.client.poll();
    c_moq.poll(&mut pipe.client).unwrap();
    assert_eq!(c_moq.readable_streams(track_alias), &[3, 7]);

    let hdr = c_moq.read_obj_hdr(track_alias, &mut pipe.client).unwrap();
    assert_eq!(hdr.payload_len(), 2);
    assert_eq!(c_moq.readable_streams(track_alias), &[7]);
    let mut payload = Vec::new();
    while payload.len() < 2 {
        let mut buf = [0u8; 8];
        let n = c_moq.read_obj_pld(&mut buf, track_alias, &mut pipe.client).unwrap();
        assert!(n > 0);
        payload.extend_from_slice(&buf[..n]);
    }
    assert_eq!(payload, b"hi");
    assert_eq!(c_moq.remaining_object_payload(track_alias).unwrap(), 0);
}

#[test]
fn long_track_names_are_subscribed() {
    let (mut pipe, mut c_moq, mut s_moq) = init_moq_pipe(config_for(MOQ_VERSION_DRAFT_13));
    for wt in [&mut pipe.client, &mut pipe.server] {
        for id in wt.stream_ids() {
            wt.grant(id, 100_000);
        }
    }
    let name = vec![b'x'; 200];
    let request = c_moq
        .subscribe(&mut pipe.client, vec![b"n1".to_vec()], name.clone())
        .unwrap();
    assert_eq!(request, 1);
    // A full name of 4096 bytes is the longest that is valid.
    let longest = vec![b'y'; 4094];
    let request = c_moq
        .subscribe(&mut pipe.client, vec![b"n1".to_vec()], longest)
        .unwrap();
    assert_eq!(request, 3);
    assert!(matches!(
        c_moq.subscribe(&mut pipe.client, vec![b"n1".to_vec()], vec![b'z'; 4095]),
        Err(Error::Wire(_))
    ));

    let control = c_moq.control_stream_id().unwrap().into_u64();
    let sent = pipe.client.take_outbound(control);
    // The first SUBSCRIBE: type, two bytes of length, and 212 bytes behind them.
    assert_eq!(&sent[..3], &[0x03, 0x00, 212]);
    assert_eq!(&sent[3..6], &[0x01, 0x01, 0x02]);
    pipe.server.deliver(control, &sent[..215], false);
    pipe.server.poll();
    s_moq.poll(&mut pipe.server).unwrap();
    let received = s_moq.pending_received_subscription(1);
    assert_eq!(received.track_name, name);
}

#[test]
fn announce_with_a_long_namespace_is_sent_and_answered() {
    let (mut pipe, mut c_moq, mut s_moq) = init_moq_pipe(config_for(MOQ_VERSION_DRAFT_07));
    let namespace = vec![vec![b'a'; 150], vec![b'b'; 150]];
    c_moq.announce(&mut pipe.client, namespace).unwrap();
    pipe.advance();
    s_moq.poll(&mut pipe.server).unwrap();
    let control = c_moq.control_stream_id().unwrap().into_u64();
    // On draft 07 the answer names the namespace, and is as long.
    assert!(pipe.server.take_outbound(control).len() > 300);
}

#[test]
fn subgroup_header_that_arrives_in_parts_is_read_when_it_is_whole() {
    let (mut pipe, mut c_moq, mut s_moq) = init_moq_pipe(config_for(MOQ_VERSION_DRAFT_13));
    c_moq
        .subscribe(&mut pipe.client, vec![b"n1".to_vec()], b"t1".to_vec())
        .unwrap();
    pipe.advance();
    s_moq.poll(&mut pipe.server).unwrap();
    let request_id = s_moq.next_pending_received_subscription().unwrap();
    let track_alias = s_moq.accept_subscription(&mut pipe.server, request_id).unwrap();
    pipe.advance();
    c_moq.poll(&mut pipe.client).unwrap();

    // The session id and the first two bytes of the header of the subgroup.
    pipe.client.deliver(3, &[SESSION as u8, 0x08, track_alias as u8], false);
    pipe.client.poll();
    c_moq.poll(&mut pipe.client).unwrap();
    assert!(c_moq.readable().is_empty());
    c_moq.poll(&mut pipe.client).unwrap();
    assert!(c_moq.readable().is_empty());

    // The rest of the header, and an object.
    pipe.client.deliver(3, &[0x05, 0x00, 0x00, 0x02, b'h', b'i'], false);
    pipe.client.poll();
    c_moq.poll(&mut pipe.client).unwrap();
    assert_eq!(c_moq.readable().as_slice(), &[track_alias]);
    assert_eq!(c_moq.readable_streams(track_alias), &[3]);
    let hdr = c_moq.read_obj_hdr(track_alias, &mut pipe.client).unwrap();
    assert_eq!(hdr.payload_len(), 2);
    let mut buf = [0u8; 8];
    let n = c_moq.read_obj_pld(&mut buf, track_alias, &mut pipe.client).unwrap();
    assert_eq!(&buf[..n], b"hi");
}
