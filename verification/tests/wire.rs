use mm1::address::{Address, AddressRange, NetAddress, NetMask};
use mm1::codec::{ErasedCodec, Protocol, TypeTag};
use mm1::codecs::{Codec, SerdeFormat};
use mm1::connection::{handle_set_routes, Arrival, DeclaredTypes, DeclarationConflict, TypeDeclared, TypeKeyMap};
use mm1::framing::{
    frame, payload_len, FrameTooLong, HANDSHAKE_LEN_FIELD, HANDSHAKE_MAX_FRAME_LEN, LINK_LEN_FIELD, LINK_MAX_FRAME_LEN,
};
use mm1::hello::{
    authc_plan, capabilities, check_cookie, check_done, check_padding, hello_frame, hello_payload, negotiate_frame,
    peer_cookie_len,
    AuthcConfig, AuthcError, AuthcPlan, CapAuthc, HelloError, Negotiate, HELLO_FRAME_LEN,
};
use mm1::pdu::{
    body_len, header_frame, padded, read_frame, utf8_len, DeclareType, FrameOverflow, Header, Hello, Inbound, ReadError,
    SubnetDistance, TransmitMessage, HEADER_FRAME_SIZE,
};
use mm1::proto::{Forward, SetRoute};
use mm1::remote_subnet::{
    agree_format, authc_digests, capability_packets, check_magic, check_peer_response, check_requested_types,
    encoder_indices, fits_in_frame, fresh_challenge, inbound_type, outbound_header, protocol_magic,
    AdvertisedCapabilities, FormatError, OutboundDrop, Packet, RequestedCapabilities, CHALLENGE_SIZE,
};
use mm1::route_registry::RouteRegistry;
use mm1::type_keys::{ForeignTypeKey, LocalTypeKey};
use mm1::writer::{outbound_by_type_id, EnvelopeInfo, Frame, OutputWriter, WriteError};
use sha3::{Digest, Sha3_256};

fn net(v: u64, mask: u8) -> NetAddress {
    NetAddress { address: Address(v), mask: NetMask(mask) }
}

fn info(to: u64) -> EnvelopeInfo {
    EnvelopeInfo { to: Address(to), trace_id: 9, origin_seq_no: 3, ttl: 4, priority: true }
}

#[test]
fn a_header_is_padded_to_its_frame() {
    let f = header_frame(&vec![1, 2, 3]).unwrap();
    assert_eq!(f.len(), HEADER_FRAME_SIZE);
    assert_eq!(&f[..3], &[1, 2, 3]);
    assert!(f[3..].iter().all(|b| *b == 0));
    assert_eq!(header_frame(&vec![7; 48]).unwrap(), vec![7; 48]);
    assert_eq!(header_frame(&vec![7; 49]), Err(FrameOverflow));
}

#[test]
fn a_header_announces_its_body() {
    let d: Header<ForeignTypeKey> = Header::DeclareType(DeclareType { message_type: ForeignTypeKey(1), type_name_len: 5 });
    assert_eq!(body_len(&d), 5);
    let t: Header<ForeignTypeKey> = Header::TransmitMessage(TransmitMessage {
        dst_address: Address(1),
        message_type: ForeignTypeKey(2),
        trace_id: 0,
        origin_seq_no: 0,
        payload_size: 555,
        ttl: 1,
        priority: false,
    });
    assert_eq!(body_len(&t), 555);
    assert_eq!(body_len(&Header::<ForeignTypeKey>::KeepAlive), 0);
}

#[test]
fn a_declared_name_must_be_utf8() {
    let d = |len: u16| Header::DeclareType(DeclareType { message_type: ForeignTypeKey(8), type_name_len: len });
    match read_frame(d(3), b"abc".to_vec()) {
        Ok(Some(Inbound::DeclareType { foreign_type_key, name })) => {
            assert_eq!(foreign_type_key, ForeignTypeKey(8));
            assert_eq!(name, "abc");
        },
        other => panic!("unexpected {:?}", other),
    }
    assert_eq!(read_frame(d(2), vec![0xff, 0xfe]).unwrap_err(), ReadError::NonUtf8Name);
}

#[test]
fn a_hello_after_the_handshake_is_refused() {
    let h: Header<ForeignTypeKey> = Header::Hello(Hello(vec![0; 30]));
    assert_eq!(read_frame(h, vec![]).unwrap_err(), ReadError::UnexpectedHello);
    assert!(read_frame(Header::KeepAlive, vec![]).unwrap().is_none());
}

#[test]
fn a_transmitted_message_keeps_its_envelope() {
    let h = Header::TransmitMessage(TransmitMessage {
        dst_address: Address(77),
        message_type: ForeignTypeKey(2),
        trace_id: 11,
        origin_seq_no: 12,
        payload_size: 2,
        ttl: 13,
        priority: true,
    });
    match read_frame(h, vec![5, 6]) {
        Ok(Some(Inbound::ReceivedMessage { dst_address, trace_id, origin_seq_no, ttl, priority, foreign_type_key, body })) => {
            assert_eq!((dst_address, trace_id, origin_seq_no, ttl, priority), (Address(77), 11, 12, 13, true));
            assert_eq!(foreign_type_key, ForeignTypeKey(2));
            assert_eq!(body, vec![5, 6]);
        },
        other => panic!("unexpected {:?}", other),
    }
    let s = Header::SubnetDistance(SubnetDistance { net_address: net(0xa0, 60), type_handle: ForeignTypeKey(4), metric: None });
    match read_frame(s, vec![]) {
        Ok(Some(Inbound::SubnetDistance { net_address, type_handle, metric })) => {
            assert_eq!((net_address, type_handle, metric), (net(0xa0, 60), ForeignTypeKey(4), None));
        },
        other => panic!("unexpected {:?}", other),
    }
}

#[test]
fn a_name_is_measured_in_utf8_bytes() {
    assert_eq!(utf8_len(&"abc".to_string()), 3);
    assert_eq!(utf8_len(&"é".to_string()), 2);
}

#[test]
fn a_key_is_declared_once_per_name() {
    let mut w = OutputWriter::new(vec![]);
    let k = LocalTypeKey(5);
    let frames = w.declare_type(k, "m".to_string()).unwrap();
    assert_eq!(frames.len(), 2);
    match (&frames[0], &frames[1]) {
        (Frame::Header(Header::DeclareType(d)), Frame::TypeName(n)) => {
            assert_eq!(d.message_type, k);
            assert_eq!(d.type_name_len, 1);
            assert_eq!(n, "m");
        },
        _ => panic!("a declaration is a header and a name"),
    }
    assert!(w.is_declared(k));
    assert!(w.declare_type(k, "m".to_string()).unwrap().is_empty());
    assert_eq!(w.declare_type(k, "other".to_string()).unwrap_err(), WriteError::DeclarationConflict(k));
    let long = "x".repeat(70_000);
    assert_eq!(w.declare_type(LocalTypeKey(6), long).unwrap_err(), WriteError::NameTooLong(LocalTypeKey(6)));
    assert!(!w.is_declared(LocalTypeKey(6)));
}

#[test]
fn a_route_report_declares_its_type_first() {
    let mut w = OutputWriter::new(vec![]);
    let route = SetRoute { message: LocalTypeKey(5), destination: net(0xa0, 60), via: None, metric: Some(2) };
    let frames = w.subnet_distance(&route, Some("m".to_string())).unwrap();
    assert_eq!(frames.len(), 3);
    match &frames[2] {
        Frame::Header(Header::SubnetDistance(s)) => {
            assert_eq!((s.net_address, s.type_handle, s.metric), (net(0xa0, 60), LocalTypeKey(5), Some(2)));
        },
        _ => panic!("the report comes last"),
    }
    assert_eq!(w.subnet_distance(&route, None).unwrap().len(), 1);
}

#[test]
fn a_forwarded_message_too_large_is_refused_after_its_declaration() {
    let mut w = OutputWriter::new(vec![]);
    let forward = Forward { local_type_key: LocalTypeKey(5), body: vec![0; 70_000] };
    let (frames, r) = w.opaque_message(&info(1), forward, Some("m".to_string()));
    assert_eq!(r, Err(WriteError::MessageTooLarge));
    assert_eq!(frames.len(), 2);
    assert!(w.is_declared(LocalTypeKey(5)));
    let (frames, r) = w.opaque_message(&info(1), Forward { local_type_key: LocalTypeKey(5), body: vec![1, 2] }, None);
    assert_eq!(r, Ok(()));
    assert_eq!(frames.len(), 2);
    match (&frames[0], &frames[1]) {
        (Frame::Header(Header::TransmitMessage(t)), Frame::Payload(b)) => {
            assert_eq!(t.dst_address, Address(1));
            assert_eq!((t.trace_id, t.origin_seq_no, t.ttl, t.priority), (9, 3, 4, true));
            assert_eq!(t.payload_size, 2);
            assert_eq!(b, &vec![1, 2]);
        },
        _ => panic!("a message is a header and a payload"),
    }
}

#[test]
fn a_known_message_goes_by_its_type() {
    let mut w = OutputWriter::new(vec![(TypeTag(100), LocalTypeKey(5))]);
    w.declare_type(LocalTypeKey(5), "m".to_string()).unwrap();
    assert_eq!(w.key_of(TypeTag(100)), Some(LocalTypeKey(5)));
    assert_eq!(w.known_message(&info(2), TypeTag(101), vec![1]).unwrap_err(), WriteError::NoCodec(TypeTag(101)));
    assert_eq!(w.known_message(&info(2), TypeTag(100), vec![0; 65_536]).unwrap_err(), WriteError::MessageTooLarge);
    let frames = w.known_message(&info(2), TypeTag(100), vec![0; 65_535]).unwrap();
    match &frames[0] {
        Frame::Header(Header::TransmitMessage(t)) => {
            assert_eq!(t.message_type, LocalTypeKey(5));
            assert_eq!(t.payload_size, 65_535);
        },
        _ => panic!("a message starts with its header"),
    }
}

#[test]
fn outbound_types_are_found_by_name() {
    let p = Protocol::new()
        .with_codec(ErasedCodec::known(TypeTag(1), "a".to_string()))
        .with_codec(ErasedCodec::known(TypeTag(2), "b".to_string()));
    let r = outbound_by_type_id(&p, &vec![("b".to_string(), LocalTypeKey(20)), ("a".to_string(), LocalTypeKey(10))]);
    assert_eq!(r, vec![(TypeTag(2), LocalTypeKey(20)), (TypeTag(1), LocalTypeKey(10))]);
}

#[test]
fn a_hello_round_trips() {
    let caps = vec![2u8, 0, 1];
    let f = hello_frame(&caps).unwrap();
    assert_eq!(f.len(), HELLO_FRAME_LEN);
    assert_eq!(&f[..4], b"MM1!");
    let payload = hello_payload(&f).unwrap();
    assert_eq!(&payload[..3], &caps[..]);
    check_padding(&payload, 3).unwrap();
    assert_eq!(check_padding(&payload, 2), Err(HelloError::StrayData));
    assert_eq!(hello_frame(&vec![0; 27]), Err(HelloError::CapabilitiesTooLong));
    let mut bad = f.clone();
    bad[0] = b'X';
    assert_eq!(hello_payload(&bad), Err(HelloError::BadMagic));
}

#[test]
fn authentication_follows_the_configuration() {
    assert_eq!(capabilities(&AuthcConfig::Cookie(b"c".to_vec())), CapAuthc::Cookie);
    assert_eq!(CapAuthc::default(), CapAuthc::Trusted);
    assert_eq!(
        authc_plan(&AuthcConfig::Trusted, CapAuthc::Trusted, CapAuthc::Cookie),
        Err(AuthcError::IncompatibleAuthc { local: CapAuthc::Trusted, peer: CapAuthc::Cookie })
    );
    assert_eq!(authc_plan(&AuthcConfig::Trusted, CapAuthc::Trusted, CapAuthc::Trusted), Ok(AuthcPlan::Trusted));
    assert_eq!(
        authc_plan(&AuthcConfig::Cookie(b"secret".to_vec()), CapAuthc::Cookie, CapAuthc::Cookie),
        Ok(AuthcPlan::Cookie { announce: Negotiate::Cookie(6), cookie: b"secret".to_vec() })
    );
    assert_eq!(
        authc_plan(&AuthcConfig::Cookie(vec![0; 70_000]), CapAuthc::Cookie, CapAuthc::Cookie),
        Err(AuthcError::CookieTooLong)
    );
    assert_eq!(
        authc_plan(&AuthcConfig::SharedSecret(b"s".to_vec()), CapAuthc::SharedSecret, CapAuthc::SharedSecret),
        Err(AuthcError::SharedSecretNotImplemented)
    );
    assert_eq!(peer_cookie_len(Negotiate::Cookie(6)), Ok(6));
    assert_eq!(peer_cookie_len(Negotiate::Done), Err(AuthcError::ExpectedCookie));
    assert_eq!(check_cookie(&b"abc".to_vec(), &b"abc".to_vec()), Ok(()));
    assert_eq!(check_cookie(&b"abc".to_vec(), &b"abd".to_vec()), Err(AuthcError::CookieMismatch));
    assert_eq!(check_done(Negotiate::Done), Ok(()));
    assert_eq!(check_done(Negotiate::Cookie(1)), Err(AuthcError::ExpectedDone));
}

#[test]
fn the_link_starts_with_the_magic() {
    assert_eq!(protocol_magic(), b"MM1-WIP".to_vec());
    assert!(check_magic(&b"MM1-WIP".to_vec()).is_ok());
    assert!(check_magic(&b"MM1-WIQ".to_vec()).is_err());
    assert!(check_magic(&b"MM1".to_vec()).is_err());
}

#[test]
fn shared_secret_responses_agree() {
    let a: Vec<u8> = (0..64).collect();
    let b: Vec<u8> = (100..164).collect();
    let secret = b"top secret".to_vec();
    let (a_sends, a_expects) = authc_digests(&a, &b, &secret);
    let (b_sends, b_expects) = authc_digests(&b, &a, &secret);
    assert_eq!(a_sends, b_expects);
    assert_eq!(b_sends, a_expects);
    assert_ne!(a_sends, b_sends);
    let mut h = Sha3_256::new();
    h.update(&a[..32]);
    h.update(&b[32..]);
    h.update(&secret);
    assert_eq!(a_sends, h.finalize().to_vec());
    assert!(check_peer_response(&a_expects, &b_sends).is_ok());
    assert!(check_peer_response(&a_expects, &a_sends).is_err());
}

#[test]
fn a_fresh_challenge_has_its_size() {
    let c = fresh_challenge().unwrap();
    assert_eq!(c.len(), CHALLENGE_SIZE);
}

#[test]
fn capabilities_are_negotiated_packet_by_packet() {
    let advertised = AdvertisedCapabilities {
        advertised_types: vec![(TypeTag(1), "a".to_string()), (TypeTag(2), "b".to_string()), (TypeTag(1), "c".to_string())],
    };
    let packets = capability_packets(net(0xa0, 60), SerdeFormat::Json, &advertised);
    assert_eq!(packets.len(), 6);
    let mut caps = RequestedCapabilities::new();
    let mut done = false;
    for p in packets {
        done = caps.receive(p);
    }
    assert!(done);
    assert_eq!(caps.requested_subnet, net(0xa0, 60));
    assert_eq!(agree_format(SerdeFormat::Json, &caps), Ok(()));
    assert_eq!(agree_format(SerdeFormat::Bincode, &caps), Err(FormatError::FormatMismatch));
    assert_eq!(agree_format(SerdeFormat::Json, &RequestedCapabilities::new()), Err(FormatError::NoFormatRequested));
    assert_eq!(caps.requested_types, vec!["a".to_string(), "b".to_string(), "c".to_string()]);

    let codec = Codec::new().with_named_type("a".to_string(), TypeTag(1)).with_named_type("b".to_string(), TypeTag(2));
    assert!(check_requested_types(&codec, &caps).is_err());
    let codec = codec.with_named_type("c".to_string(), TypeTag(1));
    assert!(check_requested_types(&codec, &caps).is_ok());

    assert_eq!(inbound_type(&caps.requested_types, 1), Some("b".to_string()));
    assert_eq!(inbound_type(&caps.requested_types, 3), None);

    let encoders = encoder_indices(&advertised);
    let h = outbound_header(&encoders, Address(9), TypeTag(1), 3).unwrap();
    assert_eq!((h.to, h.ttl, h.type_idx), (Address(9), 2, 2));
    assert_eq!(outbound_header(&encoders, Address(9), TypeTag(1), 0), Err(OutboundDrop::OutOfTtl));
    assert_eq!(outbound_header(&encoders, Address(9), TypeTag(3), 5), Err(OutboundDrop::UnsupportedMessage));
    assert!(fits_in_frame(65_536));
    assert!(!fits_in_frame(65_537));
}

#[test]
fn a_peer_type_is_bound_once() {
    let inbound = vec![("known".to_string(), LocalTypeKey(3))];
    let mut m = TypeKeyMap::new();
    assert_eq!(m.declare_type(ForeignTypeKey(1), &"known".to_string(), &inbound), Ok(TypeDeclared::Known(LocalTypeKey(3))));
    assert_eq!(m.local_key(ForeignTypeKey(1)), Some(LocalTypeKey(3)));
    assert!(m.declare_type(ForeignTypeKey(1), &"known".to_string(), &inbound).is_err());
    assert_eq!(m.declare_type(ForeignTypeKey(2), &"other".to_string(), &inbound), Ok(TypeDeclared::Opaque));
    assert_eq!(m.local_key(ForeignTypeKey(2)), None);
    m.bind(ForeignTypeKey(2), LocalTypeKey(9));
    assert_eq!(m.local_key(ForeignTypeKey(2)), Some(LocalTypeKey(9)));
}

#[test]
fn a_peer_route_is_one_step_further() {
    let inbound = vec![("known".to_string(), LocalTypeKey(3))];
    let mut m = TypeKeyMap::new();
    m.declare_type(ForeignTypeKey(1), &"known".to_string(), &inbound).unwrap();
    let u = m.subnet_distance(Address(50), net(0xa0, 60), ForeignTypeKey(1), Some(2)).unwrap();
    assert_eq!(u, SetRoute { message: LocalTypeKey(3), destination: net(0xa0, 60), via: Some(Address(50)), metric: Some(3) });
    assert!(m.subnet_distance(Address(50), net(0xa0, 60), ForeignTypeKey(7), None).is_err());
    let far = m.subnet_distance(Address(50), net(0xa0, 60), ForeignTypeKey(1), Some(255)).unwrap();
    assert_eq!(far.metric, Some(255));
    assert_eq!(m.subnet_distance(Address(50), net(0xa0, 60), ForeignTypeKey(1), None).unwrap().metric, None);
    let local = vec![AddressRange { lo: 0x100, hi: 0x1ff }];
    assert_eq!(m.received_message(&local, Address(0x150), ForeignTypeKey(1)), Ok(Arrival::Deliver(LocalTypeKey(3))));
    assert_eq!(m.received_message(&local, Address(0x250), ForeignTypeKey(1)), Ok(Arrival::Forward(LocalTypeKey(3))));
}

#[test]
fn route_changes_are_reported_unless_they_came_from_the_peer() {
    let mut reg = RouteRegistry::new();
    let own_gw = Address(50);
    let from_peer = SetRoute { message: LocalTypeKey(3), destination: net(0xa000, 60), via: Some(own_gw), metric: Some(1) };
    let local = SetRoute { message: LocalTypeKey(3), destination: net(0xb000, 60), via: None, metric: Some(0) };
    let (reports, r) = handle_set_routes(&mut reg, own_gw, &vec![from_peer, local]);
    assert!(r.is_ok());
    assert_eq!(reports, vec![local]);
    let (reports, r) = handle_set_routes(&mut reg, own_gw, &vec![local]);
    assert!(r.is_ok());
    assert!(reports.is_empty());
}

#[test]
fn declared_types_keep_their_names() {
    let mut d = DeclaredTypes::new();
    assert_eq!(d.declare(LocalTypeKey(1), "a".to_string()), Ok(true));
    assert_eq!(d.declare(LocalTypeKey(1), "a".to_string()), Ok(false));
    assert_eq!(d.declare(LocalTypeKey(1), "b".to_string()), Err(DeclarationConflict(LocalTypeKey(1))));
    assert!(d.is_declared(LocalTypeKey(1)));
    assert!(!d.is_declared(LocalTypeKey(2)));
}

#[test]
fn a_frame_carries_its_length_big_endian() {
    let f = frame(HANDSHAKE_LEN_FIELD, HANDSHAKE_MAX_FRAME_LEN, &vec![9, 8, 7]).unwrap();
    assert_eq!(f, vec![0, 3, 9, 8, 7]);
    let big = vec![1u8; 300];
    let f = frame(LINK_LEN_FIELD, LINK_MAX_FRAME_LEN, &big).unwrap();
    assert_eq!(&f[..4], &[0, 0, 1, 44]);
    assert_eq!(&f[4..], &big[..]);
    assert_eq!(frame(HANDSHAKE_LEN_FIELD, HANDSHAKE_MAX_FRAME_LEN, &vec![0; 1025]), Err(FrameTooLong));
    assert_eq!(payload_len(HANDSHAKE_MAX_FRAME_LEN, &vec![0x04, 0x00]), Ok(1024));
    assert_eq!(payload_len(HANDSHAKE_MAX_FRAME_LEN, &vec![0x04, 0x01]), Err(FrameTooLong));
    assert_eq!(payload_len(LINK_MAX_FRAME_LEN, &vec![0, 0, 1, 44]), Ok(300));
    assert_eq!(payload_len(LINK_MAX_FRAME_LEN, &vec![0, 1, 0, 1]), Err(FrameTooLong));
}

#[test]
fn a_declared_name_reads_back() {
    let mut w = OutputWriter::new(vec![]);
    let frames = w.declare_type(LocalTypeKey(3), "héllo".to_string()).unwrap();
    let (len, bytes) = match (&frames[0], &frames[1]) {
        (Frame::Header(Header::DeclareType(d)), Frame::TypeName(n)) => (d.type_name_len, n.as_bytes().to_vec()),
        _ => panic!("a declaration is a header and a name"),
    };
    assert_eq!(len as usize, bytes.len());
    let peer_header = Header::DeclareType(DeclareType { message_type: ForeignTypeKey(3), type_name_len: len });
    match read_frame(peer_header, bytes) {
        Ok(Some(Inbound::DeclareType { foreign_type_key, name })) => {
            assert_eq!(foreign_type_key, ForeignTypeKey(3));
            assert_eq!(name, "héllo");
        },
        other => panic!("unexpected {:?}", other),
    }
}

#[test]
fn a_negotiation_message_is_padded_to_its_frame() {
    assert_eq!(negotiate_frame(&vec![1, 6]).unwrap(), vec![1, 6, 0, 0, 0, 0, 0, 0]);
    assert_eq!(negotiate_frame(&vec![0; 9]), Err(FrameOverflow));
    assert_eq!(padded(&vec![5], 3).unwrap(), vec![5, 0, 0]);
}
