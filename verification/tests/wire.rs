use quiche_moq::wire::control_message::subscribe::FilterType;
use quiche_moq::wire::control_message::subscribe_ok::GroupOrder;
use quiche_moq::wire::control_message::AnnounceMessage;
use quiche_moq::wire::control_message::AnnounceOkMessage;
use quiche_moq::wire::control_message::ClientSetupMessage;
use quiche_moq::wire::control_message::ControlMessage;
use quiche_moq::wire::control_message::RequestBlockedMessage;
use quiche_moq::wire::control_message::ServerSetupMessage;
use quiche_moq::wire::control_message::SubscribeDoneMessage;
use quiche_moq::wire::control_message::SubscribeErrorMessage;
use quiche_moq::wire::control_message::SubscribeMessage;
use quiche_moq::wire::control_message::SubscribeOkMessage;
use quiche_moq::wire::control_message::UnsubscribeNamespaceMessage;
use quiche_moq::wire::control_message::encode_control_message;
use quiche_moq::wire::control_message::set_control_message_length;
use quiche_moq::wire::key_value_pair::KeyValuePair;
use quiche_moq::wire::key_value_pair::KeyValuePairValue;
use quiche_moq::wire::location::Location;
use quiche_moq::wire::namespace::Namespace;
use quiche_moq::wire::object::ObjectHeader;
use quiche_moq::wire::octets::peek_varint;
use quiche_moq::wire::octets::put_u16_at;
use quiche_moq::wire::octets::put_varint_with_len_at;
use quiche_moq::wire::octets::Reader;
use quiche_moq::wire::octets::Writer;
use quiche_moq::wire::parameter::ParameterValue;
use quiche_moq::wire::reason_phrase::ReasonPhrase;
use quiche_moq::wire::role::Role;
use quiche_moq::wire::subgroup::SubgroupHeader;
use quiche_moq::wire::tuple::Tuple;
use quiche_moq::wire::Error;
use quiche_moq::wire::FromBytes;
use quiche_moq::wire::Parameter;
use quiche_moq::wire::Parameters;
use quiche_moq::wire::SetupParameters;
use quiche_moq::wire::ToBytes;
use quiche_moq::wire::MOQ_VERSION_DRAFT_07;
use quiche_moq::wire::MOQ_VERSION_DRAFT_08;
use quiche_moq::wire::MOQ_VERSION_DRAFT_10;
use quiche_moq::wire::MOQ_VERSION_DRAFT_11;
use quiche_moq::wire::MOQ_VERSION_DRAFT_12;
use quiche_moq::wire::MOQ_VERSION_DRAFT_13;

const ALL_DRAFTS: [u64; 7] = [
    0xff000007, 0xff000008, 0xff000009, 0xff00000A, 0xff00000B, 0xff00000C, 0xff00000D,
];

fn encode<T: ToBytes>(m: &T, version: u64, room: usize) -> Vec<u8> {
    let mut w = Writer::with_capacity(room);
    m.to_bytes(&mut w, version).unwrap();
    w.to_vec()
}

fn sample_subscribe(version: u64) -> SubscribeMessage {
    SubscribeMessage {
        request_id: 5,
        track_alias: if version <= MOQ_VERSION_DRAFT_11 { Some(7) } else { None },
        track_namespace: vec![b"namespace".to_vec()],
        track_name: b"name".to_vec(),
        subscriber_priority: 1,
        group_order: 2,
        forward: if version <= MOQ_VERSION_DRAFT_10 { None } else { Some(0) },
        filter_type: FilterType::LargestObject,
        start_location: None,
        end_group: None,
        parameters: Parameters(vec![]),
    }
}

#[test]
fn decode_announce_draft7() {
    let msg: &[u8] = &[
        0x6, 0x14, 0xc, 0x4, 0x1d, 0x1, 0x11, 0x75, 0x6e, 0x65, 0x78, 0x70, 0x65, 0x63, 0x74, 0x65,
        0x64, 0x2d, 0x6d, 0x69, 0x6e, 0x6e, 0x6f, 0x77, 0x0,
    ];
    let mut o = Reader::with_slice(msg);
    let cm = ControlMessage::from_bytes(&mut o, MOQ_VERSION_DRAFT_07);
    println!("{:?}", cm);
    // The namespace claims twelve fields and the bytes end within the second.
    assert!(matches!(cm, Err(Error::Octets(_))));
}

#[test]
fn decode_draft07() {
    let msgs = [[
        0x40, 0x40, 0x15, 0x2, 0xc0, 0x0, 0x0, 0x0, 0xff, 0xd, 0xad, 0x1, 0xc0, 0x0, 0x0, 0x0,
        0xff, 0x0, 0x0, 0x7, 0x1, 0x0, 0x1, 0x3,
    ]
    .as_slice()];
    for b in msgs {
        let mut b = Reader::with_slice(b);
        let cm = ClientSetupMessage::from_bytes(&mut b, MOQ_VERSION_DRAFT_07).unwrap();
        println!("{:?}", cm);
        assert_eq!(cm.supported_versions, vec![0xff0dad01, 0xff000007]);
        assert_eq!(cm.setup_parameters.role, Some(Role::PubSub));
        assert_eq!(cm.setup_parameters.max_request_id, None);
        assert_eq!(cm.setup_parameters.path, None);
        assert!(cm.setup_parameters.extra_parameters.is_empty());
    }
}

#[test]
fn encode_decode_draft07() {
    let orig = ClientSetupMessage {
        supported_versions: vec![MOQ_VERSION_DRAFT_07, 0xff],
        setup_parameters: SetupParameters {
            path: None,
            max_request_id: Some(100),
            role: Some(Role::Publisher),
            extra_parameters: vec![Parameter::new_bytes(8, vec![9])],
        },
    };
    let mut o = Writer::with_capacity(100);
    orig.to_bytes(&mut o, MOQ_VERSION_DRAFT_07).unwrap();
    let len = o.off();
    let b = o.to_vec();
    assert_eq!(b.len(), len);
    let mut o = Reader::with_slice(&b);
    let decoded = ClientSetupMessage::from_bytes(&mut o, MOQ_VERSION_DRAFT_07).unwrap();
    assert_eq!(orig, decoded);
}

#[test]
fn decode_subscribe_draft7() {
    let mesgs = &[
        [
            0x03, 0x24, 0x0, 0x0, 0x1, 0xf, 0x69, 0x6e, 0x6a, 0x75, 0x72, 0x65, 0x64, 0x2d, 0x77,
            0x61, 0x6c, 0x6c, 0x61, 0x62, 0x79, 0xc, 0x63, 0x61, 0x74, 0x61, 0x6c, 0x6f, 0x67, 0x2e,
            0x6a, 0x73, 0x6f, 0x6e, 0x0, 0x2, 0x1, 0x0,
        ]
        .as_slice(),
        [
            0x03, 0x1d, 0x1, 0x1, 0x1, 0xf, 0x69, 0x6e, 0x6a, 0x75, 0x72, 0x65, 0x64, 0x2d, 0x77,
            0x61, 0x6c, 0x6c, 0x61, 0x62, 0x79, 0x5, 0x76, 0x69, 0x64, 0x65, 0x6f, 0x1, 0x2, 0x1, 0x0,
        ]
        .as_slice(),
    ];
    let names = ["catalog.json", "video"];
    for (i, msg) in mesgs.iter().enumerate() {
        let mut o = Reader::with_slice(msg);
        let cm = ControlMessage::from_bytes(&mut o, MOQ_VERSION_DRAFT_07).unwrap();
        println!("{:?}", cm);
        let ControlMessage::Subscribe(cm) = cm else { panic!() };
        let namespace = cm
            .track_namespace
            .iter()
            .map(|e| std::str::from_utf8(e).unwrap())
            .collect::<Vec<&str>>()
            .join(" ");
        println!("namespace: {}", namespace);
        println!("name: {}", std::str::from_utf8(&cm.track_name).unwrap());
        assert_eq!(namespace, "injured-wallaby");
        assert_eq!(std::str::from_utf8(&cm.track_name).unwrap(), names[i]);
        assert_eq!(cm.request_id, i as u64);
        assert_eq!(cm.track_alias, Some(i as u64));
        assert_eq!(cm.filter_type, FilterType::NextGroupStart);
        assert_eq!(o.cap(), 0);
    }
}

#[test]
fn recode_subscribe_draft7() {
    let cm1 = SubscribeMessage {
        request_id: 5,
        track_alias: Some(7),
        track_namespace: vec![b"namespace".to_vec()],
        track_name: b"name".to_vec(),
        subscriber_priority: 1,
        group_order: 2,
        forward: None,
        filter_type: FilterType::LargestObject,
        start_location: None,
        end_group: None,
        parameters: Parameters(vec![]),
    };
    let mut o = Writer::with_capacity(100);
    cm1.to_bytes(&mut o, MOQ_VERSION_DRAFT_07).unwrap();
    let b = o.to_vec();
    let mut o = Reader::with_slice(&b);
    let cm2 = SubscribeMessage::from_bytes(&mut o, MOQ_VERSION_DRAFT_07).unwrap();
    assert_eq!(cm1, cm2);
}

#[test]
fn decode_subscribe_ok_draft7() {
    let b = [0x4, 0x5, 0x0, 0x0, 0x2, 0x0, 0x0];
    let mut o = Reader::with_slice(&b);
    let cm = ControlMessage::from_bytes(&mut o, MOQ_VERSION_DRAFT_07).unwrap();
    println!("{:?}", cm);
    let ControlMessage::SubscribeOk(m) = cm else { panic!() };
    assert_eq!(m.request_id(), 0);
    assert_eq!(m.track_alias(), None);
    assert_eq!(m.group_order, GroupOrder::Descending);
    assert_eq!(m.largest_location, None);
}

#[test]
fn recode_subscribe_ok_draft7() {
    let sm = SubscribeMessage {
        request_id: 5,
        track_alias: Some(7),
        track_namespace: vec![],
        track_name: vec![],
        subscriber_priority: 0,
        group_order: 0,
        forward: None,
        filter_type: FilterType::LargestObject,
        start_location: None,
        end_group: None,
        parameters: Parameters(vec![]),
    };
    let som = SubscribeOkMessage::from(&sm, None);
    let mut o = Writer::with_capacity(100);
    som.to_bytes(&mut o, MOQ_VERSION_DRAFT_07).unwrap();
    let b = o.to_vec();
    let mut o = Reader::with_slice(&b);
    let som2 = SubscribeOkMessage::from_bytes(&mut o, MOQ_VERSION_DRAFT_07).unwrap();
    assert_eq!(som, som2);
}

#[test]
fn decode_draft7() {
    let b = [0x40, 0x41, 0xc, 0xc0, 0x0, 0x0, 0x0, 0xff, 0x0, 0x0, 0x7, 0x1, 0x0, 0x1, 0x3];
    let mut b = Reader::with_slice(&b);
    let cm = ControlMessage::from_bytes(&mut b, MOQ_VERSION_DRAFT_07).unwrap();
    assert_eq!(b.cap(), 0);
    assert!(matches!(cm, ControlMessage::ServerSetup(..)));
    println!("{:?}", cm);

    let b = [0x40, 0x41, 0x9, 0xc0, 0x0, 0x0, 0x0, 0xff, 0xd, 0xad, 0x1, 0x0];
    let mut b = Reader::with_slice(&b);
    let cm = ControlMessage::from_bytes(&mut b, MOQ_VERSION_DRAFT_07).unwrap();
    assert_eq!(b.cap(), 0);
    assert!(matches!(cm, ControlMessage::ServerSetup(..)));
    println!("{:?}", cm);
}

#[test]
fn test_encode_decode() {
    let subgroup = SubgroupHeader::new(1, 2, 3, MOQ_VERSION_DRAFT_11);
    let mut o = Writer::with_capacity(100);
    subgroup.to_bytes(&mut o, MOQ_VERSION_DRAFT_11).unwrap();
    let b = o.to_vec();
    let subgroup2 =
        SubgroupHeader::from_bytes(&mut Reader::with_slice(&b), MOQ_VERSION_DRAFT_11).unwrap();
    assert_eq!(subgroup, subgroup2);
}

#[test]
fn varint_encodings_are_the_quic_ones() {
    let cases: [(u64, &[u8]); 8] = [
        (0, &[0x00]),
        (37, &[0x25]),
        (63, &[0x3f]),
        (64, &[0x40, 0x40]),
        (15293, &[0x7b, 0xbd]),
        (16384, &[0x80, 0x00, 0x40, 0x00]),
        (494878333, &[0x9d, 0x7f, 0x3e, 0x7d]),
        (151288809941952652, &[0xc2, 0x19, 0x7c, 0x5e, 0xff, 0x14, 0xe8, 0x8c]),
    ];
    for (value, bytes) in cases {
        let mut w = Writer::with_capacity(8);
        w.put_varint(value).unwrap();
        assert_eq!(w.to_vec(), bytes);
        let mut r = Reader::with_slice(bytes);
        assert_eq!(peek_varint(&r).unwrap(), value);
        assert_eq!(r.off(), 0);
        assert_eq!(r.get_varint().unwrap(), value);
        assert_eq!(r.off(), bytes.len());
        assert_eq!(r.cap(), 0);
    }
    let mut w = Writer::with_capacity(8);
    w.put_varint(4_611_686_018_427_387_903).unwrap();
    assert_eq!(w.to_vec(), vec![0xff; 8]);
}

#[test]
fn varint_that_ends_early_is_too_short() {
    let mut r = Reader::with_slice(&[0x40]);
    assert!(matches!(r.get_varint(), Err(Error::Octets(_))));
    assert_eq!(r.off(), 0);
    let mut r = Reader::with_slice(&[]);
    assert!(matches!(r.get_varint(), Err(Error::Octets(_))));
    let mut w = Writer::with_capacity(1);
    assert!(matches!(w.put_varint(64), Err(Error::Octets(_))));
    assert_eq!(w.off(), 0);
}

#[test]
fn reader_and_writer_primitives() {
    let mut r = Reader::with_slice(&[0x12, 0x34, 0x56, 0x02, 0xaa, 0xbb, 0x07]);
    assert_eq!(r.peek_u8().unwrap(), 0x12);
    assert_eq!(r.get_u8().unwrap(), 0x12);
    assert_eq!(r.get_u16().unwrap(), 0x3456);
    assert_eq!(r.get_bytes_with_varint_length().unwrap(), vec![0xaa, 0xbb]);
    assert_eq!(r.cap(), 1);
    assert!(matches!(r.get_u16(), Err(Error::Octets(_))));
    assert!(matches!(r.get_bytes(2), Err(Error::Octets(_))));
    assert!(r.skip(2).is_err());
    r.skip(1).unwrap();
    assert!(matches!(r.get_u8(), Err(Error::Octets(_))));
    assert!(matches!(r.peek_u8(), Err(Error::Octets(_))));

    let mut w = Writer::with_capacity(8);
    w.put_u8(0x12).unwrap();
    w.put_u16(0x3456).unwrap();
    w.put_bytes_with_varint_length(&[0xaa, 0xbb]).unwrap();
    w.skip(2).unwrap();
    assert_eq!(w.cap(), 0);
    assert!(matches!(w.put_u8(1), Err(Error::Octets(_))));
    assert!(matches!(w.put_bytes(&[1]), Err(Error::Octets(_))));
    put_u16_at(&mut w, 0xbeef, 6).unwrap();
    assert_eq!(w.as_slice(), &[0x12, 0x34, 0x56, 0x02, 0xaa, 0xbb, 0xbe, 0xef]);
    put_varint_with_len_at(&mut w, 5, 2, 6).unwrap();
    assert_eq!(w.as_slice(), &[0x12, 0x34, 0x56, 0x02, 0xaa, 0xbb, 0x40, 0x05]);
    put_varint_with_len_at(&mut w, 5, 4, 0).unwrap();
    assert_eq!(&w.as_slice()[..4], &[0x80, 0x00, 0x00, 0x05]);
    assert!(put_u16_at(&mut w, 1, 7).is_err());
    assert!(put_varint_with_len_at(&mut w, 1, 8, 1).is_err());
}

#[test]
fn control_message_length_is_back_patched() {
    for version in ALL_DRAFTS {
        let m = sample_subscribe(version);
        let mut w = Writer::with_capacity(100);
        w.put_u8(0xee).unwrap();
        m.to_bytes(&mut w, version).unwrap();
        assert!(ControlMessage::length_ok(&w, 1, version));
        assert!(!ControlMessage::length_ok(&w, 0, version));
        let b = w.to_vec();
        let payload = b.len() - 1 - 3;
        if version <= MOQ_VERSION_DRAFT_10 {
            assert_eq!(&b[1..4], &[0x03, 0x40 | (payload >> 8) as u8, payload as u8]);
        } else {
            assert_eq!(&b[1..4], &[0x03, (payload >> 8) as u8, payload as u8]);
        }
    }
}

#[test]
fn length_field_around_the_two_byte_varint_boundary() {
    for (size, version, fits) in [
        (16383usize, MOQ_VERSION_DRAFT_07, true),
        (16384, MOQ_VERSION_DRAFT_07, false),
        (16384, MOQ_VERSION_DRAFT_13, true),
        (65535, MOQ_VERSION_DRAFT_13, true),
        (65536, MOQ_VERSION_DRAFT_13, false),
        (63, MOQ_VERSION_DRAFT_10, true),
        (64, MOQ_VERSION_DRAFT_10, true),
    ] {
        let payload = vec![0x5a; size];
        let mut w = Writer::with_capacity(70000);
        let r = encode_control_message(0x1a, version, &mut w, &payload);
        if fits {
            r.unwrap();
            assert!(ControlMessage::length_ok(&w, 0, version));
            let b = w.to_vec();
            assert_eq!(b.len(), size + 3);
            assert_eq!(&b[3..], &payload[..]);
        } else {
            assert!(matches!(r, Err(Error::ProtocolViolation(_))));
        }
    }
    let mut w = Writer::with_capacity(10);
    w.put_u8(3).unwrap();
    w.skip(2).unwrap();
    w.put_bytes(&[1, 2, 3, 4]).unwrap();
    set_control_message_length(&mut w, 1, MOQ_VERSION_DRAFT_08).unwrap();
    assert_eq!(w.as_slice(), &[3, 0x40, 4, 1, 2, 3, 4]);
    set_control_message_length(&mut w, 1, MOQ_VERSION_DRAFT_12).unwrap();
    assert_eq!(w.as_slice(), &[3, 0, 4, 1, 2, 3, 4]);
    assert!(matches!(
        set_control_message_length(&mut w, 6, MOQ_VERSION_DRAFT_12),
        Err(Error::Octets(_))
    ));
}

#[test]
fn every_written_message_reads_back_on_every_draft() {
    for version in ALL_DRAFTS {
        let subscribe = sample_subscribe(version);
        let b = encode(&subscribe, version, 200);
        let mut r = Reader::with_slice(&b);
        let ControlMessage::Subscribe(back) = ControlMessage::from_bytes(&mut r, version).unwrap()
        else {
            panic!()
        };
        assert_eq!(back, subscribe);
        assert_eq!(r.cap(), 0);

        let ok = SubscribeOkMessage {
            request_id: 5,
            track_alias: if version >= MOQ_VERSION_DRAFT_12 { Some(9) } else { None },
            expires: 77,
            group_order: GroupOrder::Descending,
            largest_location: Some(Location { group: 3, object: 70000 }),
            parameters: Parameters(vec![Parameter::new_bytes(3, vec![1, 2, 3])]),
        };
        let b = encode(&ok, version, 200);
        let mut r = Reader::with_slice(&b);
        let ControlMessage::SubscribeOk(back) =
            ControlMessage::from_bytes(&mut r, version).unwrap()
        else {
            panic!()
        };
        assert_eq!(back, ok);

        let setup = SetupParameters {
            path: Some(b"/moq".to_vec()),
            max_request_id: Some(100),
            role: if version == MOQ_VERSION_DRAFT_07 { Some(Role::Subscriber) } else { None },
            extra_parameters: vec![Parameter::new_bytes(9, vec![4, 5])],
        };
        let client = ClientSetupMessage {
            supported_versions: vec![MOQ_VERSION_DRAFT_07, MOQ_VERSION_DRAFT_13],
            setup_parameters: setup.clone(),
        };
        let b = encode(&client, version, 200);
        assert_eq!(
            peek_varint(&Reader::with_slice(&b)).unwrap(),
            if version <= MOQ_VERSION_DRAFT_10 { 0x40 } else { 0x20 }
        );
        let mut r = Reader::with_slice(&b);
        let ControlMessage::ClientSetup(back) =
            ControlMessage::from_bytes(&mut r, version).unwrap()
        else {
            panic!()
        };
        assert_eq!(back, client);

        let server = ServerSetupMessage::new(version, setup);
        let b = encode(&server, version, 200);
        assert_eq!(
            peek_varint(&Reader::with_slice(&b)).unwrap(),
            if version <= MOQ_VERSION_DRAFT_10 { 0x41 } else { 0x21 }
        );
        let mut r = Reader::with_slice(&b);
        let ControlMessage::ServerSetup(back) =
            ControlMessage::from_bytes(&mut r, version).unwrap()
        else {
            panic!()
        };
        assert_eq!(back, server);

        let announce = AnnounceMessage::new(
            if version <= MOQ_VERSION_DRAFT_10 { None } else { Some(4) },
            Namespace(Tuple(vec![b"a".to_vec(), b"bc".to_vec()])),
            Parameters(vec![]),
        );
        let b = encode(&announce, version, 200);
        let mut r = Reader::with_slice(&b);
        let ControlMessage::Announce(back) =
            ControlMessage::from_bytes(&mut r, version).unwrap()
        else {
            panic!()
        };
        assert_eq!(back.request_id(), announce.request_id());
        assert_eq!(back.track_namespace.0 .0, announce.track_namespace.0 .0);
        assert_eq!(back.parameters, announce.parameters);

        let announce_ok = if version <= MOQ_VERSION_DRAFT_10 {
            AnnounceOkMessage::new(None, Some(Namespace(Tuple(vec![b"a".to_vec()]))))
        } else {
            AnnounceOkMessage::new(Some(4), None)
        };
        let b = encode(&ControlMessage::AnnounceOk(announce_ok), version, 200);
        let mut r = Reader::with_slice(&b);
        let ControlMessage::AnnounceOk(back) =
            ControlMessage::from_bytes(&mut r, version).unwrap()
        else {
            panic!()
        };
        assert_eq!(r.cap(), 0);
        if version <= MOQ_VERSION_DRAFT_10 {
            assert_eq!(back.request_id, None);
            assert_eq!(back.track_namespace.unwrap().0 .0, vec![b"a".to_vec()]);
        } else {
            assert_eq!(back.request_id, Some(4));
            assert!(back.track_namespace.is_none());
        }
    }
}

#[test]
fn subscribe_with_absolute_range_reads_back() {
    let m = SubscribeMessage {
        filter_type: FilterType::AbsoluteRange,
        start_location: Some(Location { group: 10, object: 300 }),
        end_group: Some(20000),
        ..sample_subscribe(MOQ_VERSION_DRAFT_13)
    };
    assert!(m.filter_type.has_start_location());
    assert!(m.filter_type.has_end_group());
    let b = encode(&m, MOQ_VERSION_DRAFT_13, 200);
    let back = SubscribeMessage::from_bytes(&mut Reader::with_slice(&b), MOQ_VERSION_DRAFT_13)
        .unwrap();
    assert_eq!(back, m);
    let start = SubscribeMessage {
        filter_type: FilterType::AbsoluteStart,
        start_location: Some(Location { group: 1, object: 2 }),
        ..sample_subscribe(MOQ_VERSION_DRAFT_08)
    };
    assert!(start.filter_type.has_start_location());
    assert!(!start.filter_type.has_end_group());
    assert!(!FilterType::NextGroupStart.has_start_location());
    assert!(!FilterType::LargestObject.has_end_group());
    let b = encode(&start, MOQ_VERSION_DRAFT_08, 200);
    let back = SubscribeMessage::from_bytes(&mut Reader::with_slice(&b), MOQ_VERSION_DRAFT_08)
        .unwrap();
    assert_eq!(back, start);
}

#[test]
fn subscribe_exact_bytes_on_draft_13() {
    let m = SubscribeMessage {
        request_id: 1,
        track_alias: None,
        track_namespace: vec![b"n1".to_vec()],
        track_name: b"t1".to_vec(),
        subscriber_priority: 1,
        group_order: 2,
        forward: Some(0),
        filter_type: FilterType::NextGroupStart,
        start_location: None,
        end_group: None,
        parameters: Parameters(vec![]),
    };
    assert_eq!(
        encode(&m, MOQ_VERSION_DRAFT_13, 100),
        vec![0x03, 0x00, 0x0d, 0x01, 0x01, 0x02, b'n', b'1', 0x02, b't', b'1', 0x01, 0x02, 0x00, 0x01, 0x00]
    );
    let m7 = SubscribeMessage { track_alias: Some(1), forward: None, ..m };
    assert_eq!(
        encode(&m7, MOQ_VERSION_DRAFT_07, 100),
        vec![0x03, 0x40, 0x0d, 0x01, 0x01, 0x01, 0x02, b'n', b'1', 0x02, b't', b'1', 0x01, 0x02, 0x01, 0x00]
    );
}

#[test]
fn validate_holds_the_name_to_its_limits() {
    let mut m = sample_subscribe(MOQ_VERSION_DRAFT_13);
    assert!(m.validate().is_ok());
    assert_eq!(m.full_track_name_len(), 13);
    m.track_namespace = vec![];
    assert!(matches!(m.validate(), Err(Error::ProtocolViolation(_))));
    m.track_namespace = vec![vec![1]; 32];
    assert!(m.validate().is_ok());
    m.track_namespace = vec![vec![1]; 33];
    assert!(matches!(m.validate(), Err(Error::ProtocolViolation(_))));
    m.track_namespace = vec![vec![0; 4000], vec![0; 92]];
    m.track_name = vec![0; 4];
    assert_eq!(m.full_track_name_len(), 4096);
    assert!(m.validate().is_ok());
    m.track_name = vec![0; 5];
    assert_eq!(m.full_track_name_len(), 4097);
    assert!(matches!(m.validate(), Err(Error::ProtocolViolation(_))));
    let mut w = Writer::with_capacity(100);
    assert!(matches!(m.to_bytes(&mut w, MOQ_VERSION_DRAFT_13), Err(Error::ProtocolViolation(_))));
    assert_eq!(w.off(), 0);
}

#[test]
fn key_value_pairs_keep_the_parity_rule() {
    let even = KeyValuePair::new_varint(4, 1000);
    let odd = KeyValuePair::new_bytes(5, vec![1, 2]);
    assert_eq!(encode(&even, MOQ_VERSION_DRAFT_13, 10), vec![0x04, 0x43, 0xe8]);
    assert_eq!(encode(&odd, MOQ_VERSION_DRAFT_13, 10), vec![0x05, 0x02, 0x01, 0x02]);
    for bytes in [vec![0x04u8, 0x43, 0xe8], vec![0x05, 0x02, 0x01, 0x02], vec![0x00, 0x00], vec![0x01, 0x00]] {
        let p = KeyValuePair::from_bytes(&mut Reader::with_slice(&bytes), MOQ_VERSION_DRAFT_13)
            .unwrap();
        match p.value() {
            KeyValuePairValue::Varint(_) => assert_eq!(p.ty() % 2, 0),
            KeyValuePairValue::Bytes(_) => assert_eq!(p.ty() % 2, 1),
        }
    }
    assert_eq!(even.clone().value.try_into_varint(), Ok(1000));
    assert!(even.value.clone().try_into_bytes().is_err());
    assert_eq!(odd.value.clone().try_into_bytes(), Ok(vec![1, 2]));
    assert!(odd.value.try_into_varint().is_err());
}

#[test]
fn parameters_differ_between_the_drafts() {
    let p = Parameter::new_varint(2, 100);
    assert_eq!(p.ty(), 2);
    assert_eq!(p.value(), &ParameterValue::Varint(100));
    assert_eq!(encode(&p, MOQ_VERSION_DRAFT_07, 10), vec![0x02, 0x01, 100]);
    assert_eq!(encode(&p, MOQ_VERSION_DRAFT_11, 10), vec![0x02, 0x40, 100]);
    let back = Parameter::from_bytes(&mut Reader::with_slice(&[0x02, 0x01, 100]), MOQ_VERSION_DRAFT_10)
        .unwrap();
    assert_eq!(back, Parameter::new_bytes(2, vec![100]));
    let back = Parameter::from_bytes(&mut Reader::with_slice(&[0x02, 0x40, 100]), MOQ_VERSION_DRAFT_12)
        .unwrap();
    assert_eq!(back, p);
    let list = Parameters(vec![Parameter::new_bytes(1, vec![7]), Parameter::new_bytes(3, vec![])]);
    assert_eq!(list.len(), 2);
    for version in ALL_DRAFTS {
        let b = encode(&list, version, 20);
        assert_eq!(b, vec![0x02, 0x01, 0x01, 0x07, 0x03, 0x00]);
        let back = Parameters::from_bytes(&mut Reader::with_slice(&b), version).unwrap();
        assert_eq!(back, list);
    }
}

#[test]
fn setup_parameters_sort_named_fields_from_the_rest() {
    let bytes = [0x04, 0x02, 0x01, 0x64, 0x01, 0x02, b'/', b'x', 0x00, 0x01, 0x03, 0x09, 0x01, 0x05];
    let p = SetupParameters::from_bytes(&mut Reader::with_slice(&bytes), MOQ_VERSION_DRAFT_07)
        .unwrap();
    assert_eq!(p.max_request_id, Some(100));
    assert_eq!(p.path, Some(b"/x".to_vec()));
    assert_eq!(p.role, Some(Role::PubSub));
    assert_eq!(p.extra_parameters, vec![Parameter::new_bytes(9, vec![5])]);
    assert_eq!(p.number_of_parameters(), 4);
    let on_08 = SetupParameters::from_bytes(&mut Reader::with_slice(&bytes), MOQ_VERSION_DRAFT_08)
        .unwrap();
    assert_eq!(on_08.role, None);
    assert_eq!(on_08.extra_parameters.len(), 2);
    let long = [0x01, 0x02, 0x02, 0x00, 0x64];
    assert!(matches!(
        SetupParameters::from_bytes(&mut Reader::with_slice(&long), MOQ_VERSION_DRAFT_07),
        Err(Error::ProtocolViolation(_))
    ));
    let on_11 = SetupParameters::from_bytes(&mut Reader::with_slice(&[0x01, 0x02, 0x40, 0x64]), MOQ_VERSION_DRAFT_11)
        .unwrap();
    assert_eq!(on_11.max_request_id, Some(100));
    let bad_role = [0x01, 0x00, 0x01, 0x09];
    assert!(matches!(
        SetupParameters::from_bytes(&mut Reader::with_slice(&bad_role), MOQ_VERSION_DRAFT_07),
        Err(Error::ProtocolViolation(_))
    ));
}

#[test]
fn roles_and_group_orders() {
    assert_eq!(Role::from_id(1).unwrap(), Role::Publisher);
    assert_eq!(Role::from_id(2).unwrap(), Role::Subscriber);
    assert_eq!(Role::from_id(3).unwrap(), Role::PubSub);
    assert!(matches!(Role::from_id(0), Err(Error::ProtocolViolation(_))));
    assert!(matches!(Role::from_id(4), Err(Error::ProtocolViolation(_))));
    assert_eq!(Role::Publisher.to_id(), 1);
    assert_eq!(Role::Subscriber.to_id(), 2);
    assert_eq!(Role::PubSub.to_id(), 3);
    let mut w = Writer::with_capacity(4);
    Role::PubSub.to_bytes(&mut w, MOQ_VERSION_DRAFT_07).unwrap();
    assert_eq!(w.as_slice(), &[3]);
    assert_eq!(
        Role::from_bytes(&mut Reader::with_slice(&[2]), MOQ_VERSION_DRAFT_07).unwrap(),
        Role::Subscriber
    );
    let bad = [0x4, 0x5, 0x0, 0x0, 0x3, 0x0, 0x0];
    assert!(matches!(
        ControlMessage::from_bytes(&mut Reader::with_slice(&bad), MOQ_VERSION_DRAFT_07),
        Err(Error::ProtocolViolation(_))
    ));
    let mut w = Writer::with_capacity(4);
    GroupOrder::Ascending.to_bytes(&mut w, MOQ_VERSION_DRAFT_07).unwrap();
    GroupOrder::Descending.to_bytes(&mut w, MOQ_VERSION_DRAFT_07).unwrap();
    assert_eq!(w.as_slice(), &[1, 2]);
}

#[test]
fn unknown_control_message_is_a_violation() {
    let r = ControlMessage::from_bytes(&mut Reader::with_slice(&[0x3f, 0x00]), MOQ_VERSION_DRAFT_13);
    match r {
        Err(Error::ProtocolViolation(text)) => {
            assert_eq!(text, "unexpected control message with id 63")
        }
        other => panic!("{:?}", other),
    }
    let r = ControlMessage::from_bytes(&mut Reader::with_slice(&[]), MOQ_VERSION_DRAFT_13);
    assert!(matches!(r, Err(Error::Octets(_))));
    let wrong_setup = [0x40, 0x41, 0x9, 0xc0, 0x0, 0x0, 0x0, 0xff, 0xd, 0xad, 0x1, 0x0];
    let r = ControlMessage::from_bytes(&mut Reader::with_slice(&wrong_setup), MOQ_VERSION_DRAFT_13);
    assert!(r.is_err());
}

#[test]
fn decode_only_messages() {
    let error = [0x05, 0x00, 0x07, 0x09, 0x80, 0x01, 0x00, 0x00, 0x02, b'n', b'o'];
    let m = SubscribeErrorMessage::from_bytes(&mut Reader::with_slice(&error), MOQ_VERSION_DRAFT_13)
        .unwrap();
    assert_eq!(m.request_id(), 9);
    assert_eq!(m.error_code(), 0x10000);
    assert_eq!(m.error_reason.0, "no");
    assert_eq!(m.track_alias, None);
    let error7 = [0x05, 0x05, 0x09, 0x01, 0x01, b'x', 0x21];
    let m = SubscribeErrorMessage::from_bytes(&mut Reader::with_slice(&error7), MOQ_VERSION_DRAFT_07)
        .unwrap();
    assert_eq!(m.track_alias, Some(0x21));
    let not_utf8 = [0x05, 0x00, 0x05, 0x09, 0x01, 0x02, 0xff, 0xfe];
    assert!(matches!(
        SubscribeErrorMessage::from_bytes(&mut Reader::with_slice(&not_utf8), MOQ_VERSION_DRAFT_13),
        Err(Error::FromUtf8Error(_))
    ));
    assert!(matches!(
        ReasonPhrase::from_bytes(&mut Reader::with_slice(&[0x03, b'a'])),
        Err(Error::Octets(_))
    ));
    assert_eq!(ReasonPhrase::from_bytes(&mut Reader::with_slice(&[0x03, 0xe2, 0x82, 0xac])).unwrap().0, "\u{20ac}");

    let done = [0x0b, 0x00, 0x05, 0x01, 0x02, 0x03, 0x01, b'k'];
    let m = SubscribeDoneMessage::from_bytes(&mut Reader::with_slice(&done), MOQ_VERSION_DRAFT_13)
        .unwrap();
    assert_eq!((m.request_id, m.status_code, m.stream_count), (1, 2, 3));
    assert_eq!(m.error_reason.0, "k");

    let blocked = [0x1a, 0x03, 0x40, 0x64];
    let m = RequestBlockedMessage::from_bytes(&mut Reader::with_slice(&blocked), MOQ_VERSION_DRAFT_07);
    assert!(matches!(m, Err(Error::Octets(_))));
    let blocked = [0x1a, 0x02, 0x40, 0x64];
    let m = RequestBlockedMessage::from_bytes(&mut Reader::with_slice(&blocked), MOQ_VERSION_DRAFT_07)
        .unwrap();
    assert_eq!(m.maximum_request_id, 100);

    let unsubscribe = [0x14, 0x00, 0x02, 0xaa, 0xbb, 0xcc];
    let mut r = Reader::with_slice(&unsubscribe);
    let m = ControlMessage::from_bytes(&mut r, MOQ_VERSION_DRAFT_13).unwrap();
    assert!(matches!(m, ControlMessage::UnsubscribeNamespace(UnsubscribeNamespaceMessage {})));
    assert_eq!(r.off(), 5);
}

#[test]
fn subgroup_header_on_each_draft() {
    let h7 = SubgroupHeader::new(9, 0, 0, MOQ_VERSION_DRAFT_07);
    assert_eq!(h7.ty(), 0x4);
    assert_eq!(h7.track_alias(), 9);
    assert_eq!(encode(&h7, MOQ_VERSION_DRAFT_07, 10), vec![0x04, 0x00, 0x09, 0x00, 0x00, 0x00]);
    assert_eq!(encode(&h7, MOQ_VERSION_DRAFT_08, 10), vec![0x04, 0x09, 0x00, 0x00, 0x00]);
    let h13 = SubgroupHeader::new(9, 1, 2, MOQ_VERSION_DRAFT_13);
    assert_eq!(h13.ty(), 0xd);
    assert_eq!(encode(&h13, MOQ_VERSION_DRAFT_13, 10), vec![0x0d, 0x09, 0x01, 0x02, 0x00]);
    for version in ALL_DRAFTS {
        let h = SubgroupHeader::new(70000, 5, 6, version);
        let b = encode(&h, version, 40);
        let back = SubgroupHeader::from_bytes(&mut Reader::with_slice(&b), version).unwrap();
        assert_eq!(back, h);
    }
    let implicit = SubgroupHeader::from_bytes(&mut Reader::with_slice(&[0x08, 0x01, 0x02, 0x07]), MOQ_VERSION_DRAFT_12)
        .unwrap();
    assert_eq!(implicit.subgroup_id, Some(0));
    assert_eq!(implicit.publisher_priority, 7);
    let absent = SubgroupHeader::from_bytes(&mut Reader::with_slice(&[0x0a, 0x01, 0x02, 0x07]), MOQ_VERSION_DRAFT_12)
        .unwrap();
    assert_eq!(absent.subgroup_id, None);
    assert!(matches!(
        SubgroupHeader::from_bytes(&mut Reader::with_slice(&[0x04, 0x01, 0x02, 0x07]), MOQ_VERSION_DRAFT_12),
        Err(Error::ProtocolViolation(_))
    ));
    assert!(matches!(
        SubgroupHeader::from_bytes(&mut Reader::with_slice(&[0x0d, 0x01, 0x02, 0x07]), MOQ_VERSION_DRAFT_10),
        Err(Error::ProtocolViolation(_))
    ));
    assert!(SubgroupHeader::extensions_present(0x9));
    assert!(SubgroupHeader::extensions_present(0xb));
    assert!(SubgroupHeader::extensions_present(0xd));
    assert!(!SubgroupHeader::extensions_present(0x4));
    assert!(!SubgroupHeader::extensions_present(0xc));
    assert!(SubgroupHeader::subgroup_id_present(0xc));
    assert!(SubgroupHeader::subgroup_id_present(0xd));
    assert!(!SubgroupHeader::subgroup_id_present(0x8));
    assert!(SubgroupHeader::subgroup_id_implicit_zero(0x8));
    assert!(SubgroupHeader::subgroup_id_implicit_zero(0x9));
    assert!(!SubgroupHeader::subgroup_id_implicit_zero(0xa));
}

#[test]
fn object_header_with_and_without_extensions() {
    let plain = ObjectHeader::new(0, 5, 0x4);
    assert_eq!(plain.payload_len(), 5);
    assert_eq!(encode(&plain, MOQ_VERSION_DRAFT_07, 10), vec![0x00, 0x05]);
    let with = ObjectHeader::new(0, 5, 0xd);
    assert_eq!(encode(&with, MOQ_VERSION_DRAFT_13, 10), vec![0x00, 0x00, 0x05]);
    let subgroup7 = SubgroupHeader::new(1, 0, 0, MOQ_VERSION_DRAFT_07);
    let subgroup13 = SubgroupHeader::new(1, 0, 0, MOQ_VERSION_DRAFT_13);
    let back = ObjectHeader::from_bytes(&mut Reader::with_slice(&[0x00, 0x05]), MOQ_VERSION_DRAFT_07, &subgroup7)
        .unwrap();
    assert_eq!((back.id, back.payload_len, back.status), (0, 5, None));
    let mut full = ObjectHeader::new(3, 0, 0xd);
    full.status = Some(1);
    full.extension_headers = vec![KeyValuePair::new_varint(2, 70), KeyValuePair::new_bytes(7, vec![1, 2, 3])];
    let b = encode(&full, MOQ_VERSION_DRAFT_13, 40);
    assert_eq!(b, vec![0x03, 0x08, 0x02, 0x40, 0x46, 0x07, 0x03, 0x01, 0x02, 0x03, 0x00, 0x01]);
    let mut r = Reader::with_slice(&b);
    let back = ObjectHeader::from_bytes(&mut r, MOQ_VERSION_DRAFT_13, &subgroup13).unwrap();
    assert_eq!(r.cap(), 0);
    assert_eq!(back.id, 3);
    assert_eq!(back.extension_headers, full.extension_headers);
    assert_eq!(back.payload_len(), 0);
    assert_eq!(back.status, Some(1));
    let overrun = [0x03, 0x02, 0x02, 0x40, 0x46, 0x05];
    assert!(matches!(
        ObjectHeader::from_bytes(&mut Reader::with_slice(&overrun), MOQ_VERSION_DRAFT_13, &subgroup13),
        Err(Error::ProtocolViolation(_))
    ));
    assert!(matches!(
        ObjectHeader::from_bytes(&mut Reader::with_slice(&[0x03, 0x08, 0x02]), MOQ_VERSION_DRAFT_13, &subgroup13),
        Err(Error::Octets(_))
    ));
}

#[test]
fn draft_07_and_draft_13_subscribes_do_not_decode_alike() {
    let d7 = encode(&sample_subscribe(MOQ_VERSION_DRAFT_07), MOQ_VERSION_DRAFT_07, 100);
    let d13 = encode(&sample_subscribe(MOQ_VERSION_DRAFT_13), MOQ_VERSION_DRAFT_13, 100);
    for (bytes, right, wrong) in [
        (&d7, MOQ_VERSION_DRAFT_07, MOQ_VERSION_DRAFT_13),
        (&d13, MOQ_VERSION_DRAFT_13, MOQ_VERSION_DRAFT_07),
    ] {
        let good = SubscribeMessage::from_bytes(&mut Reader::with_slice(bytes), right).unwrap();
        assert_eq!(good, sample_subscribe(right));
        match SubscribeMessage::from_bytes(&mut Reader::with_slice(bytes), wrong) {
            Ok(other) => assert_ne!(other, good),
            Err(_) => {}
        }
    }
}

#[test]
fn writer_that_is_too_small_reports_too_short() {
    let m = sample_subscribe(MOQ_VERSION_DRAFT_08);
    let whole = encode(&m, MOQ_VERSION_DRAFT_08, 100);
    for room in 0..whole.len() {
        let mut w = Writer::with_capacity(room);
        assert!(matches!(m.to_bytes(&mut w, MOQ_VERSION_DRAFT_08), Err(Error::Octets(_))));
    }
    let mut w = Writer::with_capacity(whole.len());
    m.to_bytes(&mut w, MOQ_VERSION_DRAFT_08).unwrap();
    assert_eq!(w.cap(), 0);
    for cut in 0..whole.len() {
        let r = SubscribeMessage::from_bytes(&mut Reader::with_slice(&whole[..cut]), MOQ_VERSION_DRAFT_08);
        assert!(matches!(r, Err(Error::Octets(_))));
    }
}
