use quiche_moq::webtransport::connection::accept_headers;
use quiche_moq::webtransport::connection::connect_headers;
use quiche_moq::webtransport::connection::find_header;
use quiche_moq::webtransport::connection::Header;
use quiche_moq::webtransport::webtransport_enabled_by_server;
use quiche_moq::webtransport::Connection;
use quiche_moq::webtransport::ENABLE_WEBTRANSPORT_H3_SETTINGS_PARAMETER_ID;
use quiche_moq::webtransport::WT_MAX_SESSIONS_H3_SETTINGS_PARAMETER_ID;
use quiche_moq::wire::control_message::track_status::TrackStatusMessage;
use quiche_moq::wire::octets::Reader;
use quiche_moq::wire::FromBytes;
use quiche_moq::wire::MOQ_VERSION_DRAFT_07;
use quiche_moq::wire::MOQ_VERSION_DRAFT_13;

fn pairs(headers: &[Header]) -> Vec<(String, String)> {
    headers
        .iter()
        .map(|h| {
            (
                String::from_utf8(h.name.clone()).unwrap(),
                String::from_utf8(h.value.clone()).unwrap(),
            )
        })
        .collect()
}

#[test]
fn request_that_opens_a_session_names_the_protocol_and_the_target() {
    let headers = connect_headers("https", "example.org:4433", "/moq");
    let got = pairs(&headers);
    assert_eq!(got.len(), 6);
    for (name, value) in [
        (":method", "CONNECT"),
        (":protocol", "webtransport"),
        (":scheme", "https"),
        (":authority", "example.org:4433"),
        (":path", "/moq"),
    ] {
        assert!(got.contains(&(name.to_string(), value.to_string())), "{}", name);
        assert!(find_header(&headers, name, value));
    }
    assert!(!find_header(&headers, ":method", "GET"));
    assert!(!find_header(&headers, ":status", "200"));
}

#[test]
fn answer_that_accepts_a_session_has_status_200() {
    let headers = accept_headers();
    assert!(find_header(&headers, ":status", "200"));
    assert!(pairs(&headers).contains(&(":status".to_string(), "200".to_string())));
}

#[test]
fn server_establishes_the_session_that_a_request_asks_for() {
    let mut server = Connection::new(true);
    assert!(server.session_ids().is_empty());
    server.recv_hdrs(0, &connect_headers("https", "localhost", "/"));
    assert!(server.established(0));
    assert_eq!(server.session_ids(), vec![0]);
    assert_eq!(server.take_responses(), vec![0]);
    assert!(server.take_responses().is_empty());

    // Headers that ask for no session establish none.
    let other = vec![Header::new(b":method", b"GET"), Header::new(b":path", b"/")];
    server.recv_hdrs(4, &other);
    assert!(!server.established(4));
    assert!(server.take_responses().is_empty());
}

#[test]
fn client_establishes_the_session_once_the_server_accepts_it() {
    let mut client = Connection::new(false);
    client.connect_session(0);
    assert!(!client.established(0));

    // An answer on another stream, and an answer that refuses, change nothing.
    client.recv_hdrs(4, &accept_headers());
    assert!(!client.established(4));
    assert!(!client.established(0));
    client.recv_hdrs(0, &vec![Header::new(b":status", b"404")]);
    assert!(!client.established(0));

    client.connect_session(8);
    client.recv_hdrs(8, &accept_headers());
    assert!(client.established(8));
    assert_eq!(client.session_ids(), vec![8]);
}

#[test]
fn webtransport_is_on_where_a_setting_of_the_peer_says_so() {
    let enable = ENABLE_WEBTRANSPORT_H3_SETTINGS_PARAMETER_ID;
    let limit = WT_MAX_SESSIONS_H3_SETTINGS_PARAMETER_ID;
    assert!(!webtransport_enabled_by_server(true, &[]));
    assert!(!webtransport_enabled_by_server(true, &[(6, 32_768), (enable, 0), (limit, 0)]));
    assert!(!webtransport_enabled_by_server(true, &[(enable, 2)]));
    assert!(webtransport_enabled_by_server(true, &[(6, 32_768), (enable, 1)]));
    assert!(webtransport_enabled_by_server(true, &[(limit, 1)]));
    assert!(webtransport_enabled_by_server(true, &[(enable, 0), (limit, 7)]));
    assert!(!webtransport_enabled_by_server(false, &[(enable, 1), (limit, 1)]));
}

#[test]
fn track_status_decodes_its_names_and_numbers() {
    // Type 0x0e, length 10, a namespace of one field "ab", the name "c",
    // status 2, last group 3, last object 4.
    let draft_07 = [0x0e, 0x0a, 0x01, 0x02, b'a', b'b', 0x01, b'c', 0x02, 0x03, 0x04];
    let m = TrackStatusMessage::from_bytes(&mut Reader::with_slice(&draft_07), MOQ_VERSION_DRAFT_07)
        .unwrap();
    assert_eq!(m.track_namespace.0 .0, vec![b"ab".to_vec()]);
    assert_eq!(m.track_name, b"c".to_vec());
    assert_eq!(m.status_code, 2);
    assert_eq!(m.last_group_id, 3);
    assert_eq!(m.last_object_id, 4);

    let draft_13 = [0x0e, 0x00, 0x0a, 0x01, 0x02, b'a', b'b', 0x01, b'c', 0x02, 0x03, 0x04];
    let mut b = Reader::with_slice(&draft_13);
    let m = TrackStatusMessage::from_bytes(&mut b, MOQ_VERSION_DRAFT_13).unwrap();
    assert_eq!(b.off(), draft_13.len());
    assert_eq!(m.track_name, b"c".to_vec());
    assert_eq!(m.last_object_id, 4);

    assert!(TrackStatusMessage::from_bytes(
        &mut Reader::with_slice(&draft_07[..6]),
        MOQ_VERSION_DRAFT_07
    )
    .is_err());
}
