use quiche_moq::helper::ClientHelper;
use quiche_moq::helper::MoqWebTransportHelper;
use quiche_moq::helper::State;
use quiche_moq::helper::Step;
use quiche_moq::webtransport::connection::accept_headers;
use quiche_moq::webtransport::connection::connect_headers;
use quiche_moq::webtransport::Connection;
use quiche_moq::wire::MOQ_VERSION_DRAFT_07;
use quiche_moq::wire::MOQ_VERSION_DRAFT_13;
use quiche_moq::Config;
use quiche_moq::Error;

fn connection(h: &mut MoqWebTransportHelper) -> &mut Connection {
    match &mut h.state {
        State::H3 { wt_conn } => wt_conn,
        State::Wt { wt_conn, .. } => wt_conn,
        State::Moq { wt_conn, .. } => wt_conn,
        State::Quic => panic!("no connection yet"),
    }
}

/// Carries what one side has sent to the other.
fn carry(from: &mut MoqWebTransportHelper, to: &mut MoqWebTransportHelper) {
    let mut ids = connection(from).stream_ids();
    ids.sort();
    for id in ids {
        let out = connection(from).take_outbound(id);
        if !out.is_empty() {
            connection(to).deliver(id, &out, false);
        }
    }
}

#[test]
fn client_comes_up_layer_by_layer() {
    let mut h = MoqWebTransportHelper::new_client(Config::default());
    assert!(matches!(h.state, State::Quic));
    assert_eq!(h.on_post_handle_recvs(false, false).unwrap(), Step::Wait);
    assert!(matches!(h.state, State::Quic));
    // Headers that come before HTTP/3 runs are of no use.
    h.recv_hdrs(0, &accept_headers());
    h.session_requested(0);
    assert!(matches!(h.state, State::Quic));

    assert_eq!(h.on_post_handle_recvs(true, false).unwrap(), Step::StartH3);
    assert!(matches!(h.state, State::H3 { .. }));
    assert_eq!(h.on_post_handle_recvs(true, false).unwrap(), Step::Wait);
    assert_eq!(h.on_post_handle_recvs(true, true).unwrap(), Step::Connect);
    assert!(matches!(h.state, State::H3 { .. }));

    h.session_requested(0);
    assert!(matches!(h.state, State::Wt { moq_session_id: 0, .. }));
    assert_eq!(h.on_post_handle_recvs(true, true).unwrap(), Step::Wait);
    assert!(matches!(h.state, State::Wt { .. }));

    h.recv_hdrs(0, &accept_headers());
    assert!(connection(&mut h).established(0));
    // Without a stream on offer the session has no control stream.
    assert!(matches!(
        h.on_post_handle_recvs(true, true),
        Err(Error::InsufficientCapacity)
    ));
    assert!(matches!(h.state, State::Wt { .. }));

    connection(&mut h).set_initial_credit(1000);
    connection(&mut h).provide_stream(4, true);
    assert_eq!(h.on_post_handle_recvs(true, true).unwrap(), Step::Again);
    match &h.state {
        State::Moq { moq_session, .. } => {
            assert!(!moq_session.initialized());
            assert_eq!(moq_session.control_stream_id().unwrap().into_u64(), 4);
            assert_eq!(moq_session.session_id().into_u64(), 0);
            assert_eq!(moq_session.next_request_id(), 1);
        }
        _ => panic!("the session runs"),
    }
    assert!(!connection(&mut h).take_outbound(4).is_empty());
    assert_eq!(h.on_post_handle_recvs(true, true).unwrap(), Step::Wait);
    assert!(matches!(h.state, State::Moq { .. }));
}

#[test]
fn server_makes_its_session_in_the_session_that_a_client_opens() {
    let mut h = MoqWebTransportHelper::new_server(Config::default());
    assert_eq!(h.on_post_handle_recvs(true, false).unwrap(), Step::StartH3);
    // A server asks for no session, whatever the peer has switched on.
    assert_eq!(h.on_post_handle_recvs(true, true).unwrap(), Step::Wait);
    h.session_requested(0);
    assert!(matches!(h.state, State::H3 { .. }));

    h.recv_hdrs(8, &connect_headers("https", "localhost", "/"));
    assert_eq!(connection(&mut h).take_responses(), vec![8]);
    assert_eq!(h.on_post_handle_recvs(true, true).unwrap(), Step::Again);
    match &h.state {
        State::Moq { moq_session, .. } => {
            assert_eq!(moq_session.session_id().into_u64(), 8);
            assert_eq!(moq_session.next_request_id(), 0);
            assert!(moq_session.control_stream_id().is_none());
        }
        _ => panic!("the session runs"),
    }
    assert_eq!(h.on_post_handle_recvs(true, true).unwrap(), Step::Wait);
}

#[test]
fn two_helpers_set_up_a_session() {
    let mut config = Config::default();
    config.setup_version = MOQ_VERSION_DRAFT_07;
    let mut client = MoqWebTransportHelper::new_client(config.clone());
    let mut server = MoqWebTransportHelper::new_server(config);
    assert_eq!(client.on_post_handle_recvs(true, true).unwrap(), Step::StartH3);
    assert_eq!(server.on_post_handle_recvs(true, true).unwrap(), Step::StartH3);
    for h in [&mut client, &mut server] {
        connection(h).set_initial_credit(10_000);
    }
    connection(&mut client).provide_stream(4, true);
    connection(&mut server).provide_stream(3, false);

    assert_eq!(client.on_post_handle_recvs(true, true).unwrap(), Step::Connect);
    client.session_requested(0);
    server.recv_hdrs(0, &connect_headers("https", "localhost", "/"));
    assert_eq!(connection(&mut server).take_responses(), vec![0]);
    client.recv_hdrs(0, &accept_headers());

    assert_eq!(client.on_post_handle_recvs(true, true).unwrap(), Step::Again);
    assert_eq!(server.on_post_handle_recvs(true, true).unwrap(), Step::Again);
    carry(&mut client, &mut server);
    assert_eq!(server.on_post_handle_recvs(true, true).unwrap(), Step::Wait);
    carry(&mut server, &mut client);
    assert_eq!(client.on_post_handle_recvs(true, true).unwrap(), Step::Wait);
    for h in [&client, &server] {
        match &h.state {
            State::Moq { moq_session, .. } => {
                assert!(moq_session.initialized());
                assert_eq!(moq_session.version(), MOQ_VERSION_DRAFT_07);
            }
            _ => panic!("the session runs"),
        }
    }
}

#[test]
fn client_helper_subscribes_without_a_quota() {
    let mut h = ClientHelper::new(MOQ_VERSION_DRAFT_13);
    assert!(!h.helper.server);
    assert!(h.helper.moq_config.ignore_max_request_quota);
    assert_eq!(h.helper.moq_config.setup_version, MOQ_VERSION_DRAFT_13);
    assert_eq!(h.helper.moq_config.supported_versions, Config::default().supported_versions);
    assert_eq!(h.on_post_handle_recvs(false, false).unwrap(), Step::Wait);
    assert_eq!(h.on_post_handle_recvs(true, false).unwrap(), Step::StartH3);
    assert_eq!(h.on_post_handle_recvs(true, true).unwrap(), Step::Connect);
}
