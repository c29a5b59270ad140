use quiche_moq::in_stream::InStream;
use quiche_moq::in_track::InTrack;
use quiche_moq::out_stream::OutStream;
use quiche_moq::out_stream::State;
use quiche_moq::out_track::OutTrack;
use quiche_moq::pending_subscribe::PendingSubscribe;
use quiche_moq::stream_id::StreamID;
use quiche_moq::webtransport;
use quiche_moq::webtransport::stream::Stream;
use quiche_moq::webtransport::Connection;
use quiche_moq::wire::MOQ_VERSION_DRAFT_07;
use quiche_moq::wire::MOQ_VERSION_DRAFT_13;
use quiche_moq::Config;
use quiche_moq::Error;

#[test]
fn send_on_unidirectional_stream() {
    let wt_session_id = 0u64;
    let mut c_wt = Connection::new(false);
    let mut s_wt = Connection::new(true);
    c_wt.establish(wt_session_id);
    s_wt.establish(wt_session_id);
    c_wt.set_initial_credit(100);
    c_wt.provide_stream(2, false);

    const MSG: &[u8] = b"hello";

    let wt_stream_id = c_wt.open_stream(wt_session_id, false).unwrap();
    c_wt.stream_send(wt_stream_id, MSG, false).unwrap();

    let sent = c_wt.take_outbound(wt_stream_id);
    s_wt.deliver(wt_stream_id, &sent, false);

    s_wt.poll();
    assert_eq!(s_wt.readable_streams(wt_session_id), &[wt_stream_id]);
    let mut b = [0u8; 100];
    let len = s_wt.recv_stream(wt_stream_id, wt_session_id, &mut b).unwrap();
    assert_eq!(&b[..len], MSG);
}

#[test]
fn stream_ids_tell_kind_and_side() {
    for (id, bidi, client) in [(0u64, true, true), (1, true, false), (2, false, true), (3, false, false), (4, true, true), (7, false, false)] {
        let s = StreamID::from(id);
        assert_eq!(s.is_bidi(), bidi);
        assert_eq!(s.is_local(false), client);
        assert_eq!(s.is_local(true), !client);
        assert_eq!(s.into_u64(), id);
        let back: u64 = s.into();
        assert_eq!(back, id);
        assert_eq!(s.to_string(), format!("{}", id));
    }
}

#[test]
fn default_config_offers_all_drafts() {
    let c = Config::default();
    assert_eq!(c.setup_version, 0xff00000D);
    assert_eq!(
        c.supported_versions,
        vec![0xff000007, 0xff000008, 0xff000009, 0xff00000A, 0xff00000B, 0xff00000C, 0xff00000D, 0xff0dad01]
    );
    assert!(!c.ignore_max_request_quota);
    let d = c.clone();
    assert_eq!(d.supported_versions, c.supported_versions);
    assert_eq!(d.setup_version, c.setup_version);
}

#[test]
fn in_track_keeps_its_streams_in_order() {
    let mut t = InTrack::new(5);
    assert_eq!(t.track_alias(), 5);
    assert!(!t.readable());
    assert_eq!(t.current_stream(), None);
    for id in [11u64, 3, 7, 3, 15, 7] {
        t.mark_stream_readable(StreamID(id));
    }
    assert!(t.readable());
    assert_eq!(t.readable_streams(), &[3, 7, 11, 15]);
    assert_eq!(t.current_stream(), Some(StreamID(3)));
    t.fin_stream(StreamID(7));
    assert_eq!(t.readable_streams(), &[3, 11, 15]);
    t.fin_stream(StreamID(8));
    assert_eq!(t.readable_streams(), &[3, 11, 15]);
    t.fin_stream(StreamID(3));
    assert_eq!(t.current_stream(), Some(StreamID(11)));
    t.fin_stream(StreamID(15));
    t.fin_stream(StreamID(11));
    assert!(!t.readable());
    let many: Vec<u64> = (0..40).rev().collect();
    for id in &many {
        t.mark_stream_readable(StreamID(*id));
    }
    assert_eq!(t.readable_streams(), (0..40).collect::<Vec<u64>>().as_slice());
}

#[test]
fn out_track_and_pending_subscribe() {
    let t = OutTrack::new();
    assert!(t.writable());
    assert_eq!(t.current_stream_id, None);
    assert_eq!(PendingSubscribe::new(Some(4)).track_alias(), Some(4));
    assert_eq!(PendingSubscribe::new(None).track_alias(), None);
}

#[test]
fn webtransport_stream_sends_its_session_id_first() {
    let mut s = Stream::with_session(6, 300);
    assert_eq!(s.stream_id(), 6);
    assert_eq!(s.session_id(), Some(300));
    assert_eq!(s.capacity().unwrap(), 0);
    assert!(!s.ready());
    assert_eq!(s.send(b"abc", false), Err(webtransport::Error::Done));
    assert_eq!(s.send_if_capacity(b"", false), Err(webtransport::Error::InsufficientCapacity));
    s.grant(4);
    assert_eq!(s.capacity().unwrap(), 2);
    assert_eq!(s.send_if_capacity(b"abc", false), Err(webtransport::Error::InsufficientCapacity));
    assert!(s.take_outbound().is_empty());
    assert_eq!(s.send(b"abc", false), Ok(2));
    assert_eq!(s.take_outbound(), vec![0x41, 0x2c, b'a', b'b']);
    assert_eq!(s.send(b"c", false), Err(webtransport::Error::Done));
    s.grant(1);
    assert_eq!(s.send_if_capacity(b"c", false), Ok(()));
    assert_eq!(s.take_outbound(), vec![b'c']);
    assert_eq!(s.reset(), None);
    s.shutdown(2);
    assert_eq!(s.reset(), Some(2));
}

#[test]
fn webtransport_stream_reads_its_session_id_first() {
    let mut s = Stream::new_remote(3);
    let mut buf = [0u8; 4];
    assert_eq!(s.recv(&mut buf), Err(webtransport::Error::MissingSessionID));
    assert!(!s.has_inbound());
    s.deliver(&[0x41], false);
    assert!(s.has_inbound());
    assert_eq!(s.read_session_id(), Err(webtransport::Error::Done));
    s.poll();
    assert!(!s.readable());
    s.deliver(&[0x2c, 1, 2, 3, 4, 5, 6, 7, 8, 9, 10], true);
    s.poll();
    assert!(s.readable());
    assert_eq!(s.session_id(), Some(300));
    assert_eq!(s.read_session_id(), Ok(300));
    let mut all = Vec::new();
    loop {
        match s.recv(&mut buf) {
            Ok(n) => all.extend_from_slice(&buf[..n]),
            Err(e) => {
                assert_eq!(e, webtransport::Error::Fin);
                break;
            }
        }
    }
    assert_eq!(all, vec![1, 2, 3, 4, 5, 6, 7, 8, 9, 10]);
    assert!(s.finished());
    let mut quiet = Stream::new_remote(7);
    quiet.deliver(&[0x00], false);
    quiet.poll();
    assert_eq!(quiet.recv(&mut buf), Err(webtransport::Error::Done));
    assert!(!quiet.finished());
}

#[test]
fn connection_drops_finished_streams_and_lists_sessions() {
    let mut wt = Connection::new(true);
    wt.establish(0);
    assert!(wt.established(0));
    assert!(!wt.established(4));
    assert_eq!(wt.session_ids(), vec![0]);
    wt.deliver(2, &[0x00, 9], true);
    wt.deliver(6, &[0x04], false);
    wt.deliver(10, &[], false);
    wt.poll();
    assert_eq!(wt.readable_sessions(), vec![0, 4]);
    assert_eq!(wt.readable_streams(0), vec![2]);
    assert_eq!(wt.readable_streams(4), vec![6]);
    assert!(wt.readable_streams(8).is_empty());
    let mut buf = [0u8; 4];
    assert_eq!(wt.recv_stream(2, 4, &mut buf), Err(webtransport::Error::MissingSessionID));
    assert_eq!(wt.recv_stream(3, 0, &mut buf), Err(webtransport::Error::NoStreamState));
    assert_eq!(wt.recv_stream(2, 0, &mut buf), Ok(1));
    assert_eq!(buf[0], 9);
    assert_eq!(wt.recv_stream(2, 0, &mut buf), Err(webtransport::Error::Fin));
    assert!(wt.has_stream(2));
    wt.poll();
    assert!(!wt.has_stream(2));
    assert!(wt.has_stream(6));
    assert_eq!(wt.stream_send(99, b"x", false), Err(webtransport::Error::NoStreamState));
    assert_eq!(wt.stream_send_if_capacity(99, b"x", false), Err(webtransport::Error::NoStreamState));
    assert_eq!(wt.stream_capacity(99), Err(webtransport::Error::NoStreamState));
    assert_eq!(wt.stream_shutdown(99, 1), Err(webtransport::Error::NoStreamState));
    assert_eq!(wt.open_stream(0, true), Err(webtransport::Error::InsufficientCapacity));
    assert_eq!(wt.next_free(false), None);
    wt.provide_stream(3, false);
    wt.provide_stream(7, false);
    assert_eq!(wt.next_free(false), Some(7));
    assert_eq!(wt.open_stream(0, false), Ok(7));
    assert_eq!(wt.open_stream(0, false), Ok(3));
    assert!(!wt.stream_ready(3));
    wt.grant(3, 10);
    assert!(wt.stream_ready(3));
}

#[test]
fn out_stream_walks_through_its_states() {
    let mut wt = Connection::new(true);
    wt.establish(0);
    wt.set_initial_credit(1000);
    wt.provide_stream(3, false);
    let id = wt.open_stream(0, false).unwrap();
    let mut out = OutStream::new(StreamID(id), 9, MOQ_VERSION_DRAFT_07);
    assert_eq!(out.state, State::SubgroupHeader);
    out.send_obj_hdr(4, &mut wt).unwrap();
    assert_eq!(out.state, State::ObjectPayload { subgroup_ty: 0x4, remaining_bytes: 4 });
    assert!(matches!(out.send_obj_hdr(1, &mut wt), Err(Error::UnfinishedPayload)));
    assert_eq!(out.send_obj_pld(b"ab", &mut wt).unwrap(), 2);
    assert_eq!(out.state, State::ObjectPayload { subgroup_ty: 0x4, remaining_bytes: 2 });
    assert_eq!(out.send_obj_pld(b"cd", &mut wt).unwrap(), 2);
    assert_eq!(out.state, State::ObjectHeader { subgroup_ty: 0x4 });
    out.send_obj(&mut wt, b"xyz").unwrap();
    assert_eq!(out.state, State::ObjectHeader { subgroup_ty: 0x4 });
    assert_eq!(
        wt.take_outbound(id),
        vec![0x00, 0x04, 0x00, 0x09, 0x00, 0x00, 0x00, 0x00, 0x04, b'a', b'b', b'c', b'd', 0x00, 0x03, b'x', b'y', b'z']
    );
}

#[test]
fn in_stream_reads_what_an_out_stream_has_sent() {
    for version in [MOQ_VERSION_DRAFT_07, MOQ_VERSION_DRAFT_13] {
        let mut a = Connection::new(true);
        let mut b = Connection::new(false);
        a.establish(0);
        b.establish(0);
        a.set_initial_credit(100_000);
        a.provide_stream(3, false);
        let id = a.open_stream(0, false).unwrap();
        let mut out = OutStream::new(StreamID(id), 77, version);
        let payload: Vec<u8> = (0..300u32).map(|i| (i % 251) as u8).collect();
        out.send_obj(&mut a, &payload).unwrap();
        out.send_obj(&mut a, b"z").unwrap();
        let bytes = a.take_outbound(id);

        let mut input = InStream::new(StreamID(id), StreamID(0), version);
        assert!(input.subgroup_header().is_none());
        assert!(matches!(input.read_obj_hdr(&mut b), Err(Error::Done)));
        for chunk in bytes.chunks(7) {
            b.deliver(id, chunk, false);
        }
        b.deliver(id, &[], true);
        b.poll();
        input.read(&mut b).unwrap();
        input.mark_readable();
        assert!(input.readable());
        assert_eq!(input.subgroup_header().unwrap().track_alias(), 77);
        let hdr = input.read_obj_hdr(&mut b).unwrap();
        assert_eq!(hdr.payload_len(), 300);
        assert_eq!(input.remaining_object_payload(), 300);
        assert!(matches!(input.read_obj_hdr(&mut b), Err(Error::UnfinishedPayload)));
        let mut got = Vec::new();
        let mut buf = [0u8; 64];
        while input.remaining_object_payload() > 0 {
            let n = input.read_obj_pld(&mut b, &mut buf).unwrap();
            got.extend_from_slice(&buf[..n]);
        }
        assert_eq!(got, payload);
        let hdr = input.read_obj_hdr(&mut b).unwrap();
        assert_eq!(hdr.payload_len(), 1);
        assert_eq!(input.read_obj_pld(&mut b, &mut buf).unwrap(), 1);
        assert_eq!(buf[0], b'z');
        assert!(matches!(input.read_obj_hdr(&mut b), Err(Error::Fin)));
    }
}

#[test]
fn errors_wrap_the_errors_below() {
    let e: Error = webtransport::Error::Fin.into();
    assert!(matches!(e, Error::WT(webtransport::Error::Fin)));
    let e: Error = quiche_moq::wire::Error::ProtocolViolation("x".to_string()).into();
    assert!(matches!(e, Error::Wire(quiche_moq::wire::Error::ProtocolViolation(_))));
    let e: Error = std::io::Error::other("io").into();
    assert!(matches!(e, Error::IO(_)));
    let e: Error = String::from_utf8(vec![0xff]).unwrap_err().into();
    assert!(matches!(e, Error::FromUtf8Error(_)));
    let e = quiche_moq::wire::Error::violation("reason");
    assert!(!e.is_too_short());
    match e {
        quiche_moq::wire::Error::ProtocolViolation(text) => assert_eq!(text, "reason"),
        _ => panic!(),
    }
}

#[test]
fn stream_id_is_written_in_decimal() {
    assert_eq!(StreamID(0).to_string(), "0");
    assert_eq!(StreamID(9).to_string(), "9");
    assert_eq!(StreamID(10).to_string(), "10");
    assert_eq!(StreamID(4611686018427387903).to_string(), "4611686018427387903");
    assert_eq!(StreamID(u64::MAX).to_string(), "18446744073709551615");
}

#[test]
fn sessions_of_the_streams_come_in_ascending_order_each_once() {
    let mut wt = Connection::new(true);
    assert!(wt.readable_sessions().is_empty());
    for (id, session) in [(2u64, 12u8), (6, 0), (10, 8), (14, 4), (18, 8), (22, 0), (26, 63)] {
        wt.deliver(id, &[session], false);
    }
    wt.poll();
    assert_eq!(wt.readable_sessions(), vec![0, 4, 8, 12, 63]);
}
