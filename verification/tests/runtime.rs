use std::sync::Arc;
use std::time::Duration;

use mm1::address::{Address, AddressRange, NetAddress, NetMask};
use mm1::child_spec::{ActorFactory, ChildSpec, InitType};
use mm1::codec::{ErasedCodec, Opaque, Protocol, TypeTag};
use mm1::codecs::{Codec, CodecRegistry, SupportedType};
use mm1::dispatch::{Dispatcher, DispatcherBuildError, Outcome as DispatchOutcome, Process};
use mm1::ifaces::{IfaceErrorKind, IfaceRequest, Ifaces};
use mm1::ingress::{IngressRoute, SubnetIngress};
use mm1::manager::{
    bind_opaque_type,
    get_protocol_by_name, local_routes, register_opaque_message, resolve_protocol, IngressChange, ManagerRoutes,
    ProtocolLookup, WatchLost,
};
use mm1::mixed::{
    children_or_refusal, init_children, on_report, CollectInto, MixedSup, plan_action, quit_result, tell_decider, Action, ChildType, Decider, DeciderCall, MixedChildren,
    MixedSupError, SupReport, SupStep,
};
use mm1::name_client::{wait_step, WaitStep};
use mm1::name_service::{NameTable, RegisterErrorKind, Resolution, UnregisterErrorKind};
use mm1::protocol_registry::ProtocolRegistry;
use mm1::protocols::{reduce, InconsistentMappings, ProtocolResolved};
use mm1::proto::SetRoute;
use mm1::remote_subnet::next_delay_ms;
use mm1::server::{Handlers, Outcome};
use mm1::connection::TypeKeyMap;
use mm1::type_keys::{ForeignTypeKey, LocalTypeKey};

fn net(v: u64, mask: u8) -> NetAddress {
    NetAddress { address: Address(v), mask: NetMask(mask) }
}

fn s(v: &str) -> String {
    v.to_string()
}

#[derive(Debug)]
struct P(String);

#[derive(Debug)]
struct E(String);

struct S;

#[derive(Debug)]
struct C1;

#[derive(Debug)]
struct C2;

impl Process<P> for C1 {
    type State = S;
    type Output = E;
    type Error = std::convert::Infallible;

    fn process(&self, _state: &mut S, packet: P) -> Result<DispatchOutcome<E, P>, Self::Error> {
        Ok(if packet.0 == "M1" { DispatchOutcome::Done(E(packet.0)) } else { DispatchOutcome::Rejected(packet) })
    }
}

impl Process<P> for C2 {
    type State = S;
    type Output = E;
    type Error = std::convert::Infallible;

    fn process(&self, _state: &mut S, packet: P) -> Result<DispatchOutcome<E, P>, Self::Error> {
        Ok(if packet.0 == "M2" { DispatchOutcome::Done(E(packet.0)) } else { DispatchOutcome::Rejected(packet) })
    }
}

/// The dispatcher holds one type of backend: either codec.
#[derive(Debug)]
enum Backend {
    One(C1),
    Two(C2),
}

impl Process<P> for Backend {
    type State = S;
    type Output = E;
    type Error = std::convert::Infallible;

    fn process(&self, state: &mut S, packet: P) -> Result<DispatchOutcome<E, P>, Self::Error> {
        match self {
            Backend::One(c) => c.process(state, packet),
            Backend::Two(c) => c.process(state, packet),
        }
    }
}

/// The selector: a packet's type is its name.
fn required_type(p: &P) -> Option<String> {
    Some(p.0.clone())
}

#[test]
fn ergonomics_01() {
    let mut state = S;

    let mut d = Dispatcher::new()
        .with(Backend::One(C1), vec![s("M1")])
        .expect("couldn't add C1")
        .with(Backend::Two(C2), vec![s("M2")])
        .expect("couldn't add C2");

    d.add(Backend::One(C1), vec![s("M1")]).map(|_| ()).expect_err("couldn't have added C1 again");

    assert!(matches!(C1.process(&mut state, P(s("M1"))).unwrap(), DispatchOutcome::Done(E(_))));
    assert!(matches!(C1.process(&mut state, P(s("M2"))).unwrap(), DispatchOutcome::Rejected(P(_))));
    assert!(matches!(C1.process(&mut state, P(s("M3"))).unwrap(), DispatchOutcome::Rejected(P(_))));

    assert!(matches!(C2.process(&mut state, P(s("M1"))).unwrap(), DispatchOutcome::Rejected(P(_))));
    assert!(matches!(C2.process(&mut state, P(s("M2"))).unwrap(), DispatchOutcome::Done(E(_))));
    assert!(matches!(C2.process(&mut state, P(s("M3"))).unwrap(), DispatchOutcome::Rejected(P(_))));

    let m1 = P(s("M1"));
    assert!(matches!(d.process(required_type(&m1), &mut state, m1).unwrap(), DispatchOutcome::Done(E(_))));
    let m2 = P(s("M2"));
    assert!(matches!(d.process(required_type(&m2), &mut state, m2).unwrap(), DispatchOutcome::Done(E(_))));
    let m3 = P(s("M3"));
    assert!(matches!(d.process(required_type(&m3), &mut state, m3).unwrap(), DispatchOutcome::Rejected(P(_))));
}

#[test]
fn a_duplicate_key_hands_the_backend_back() {
    let mut d = Dispatcher::new();
    d.add(1u8, vec![s("a"), s("b")]).unwrap();
    match d.add(2u8, vec![s("c"), s("b")]) {
        Err(DispatcherBuildError::DuplicateKey(k, b)) => {
            assert_eq!(k, "b");
            assert_eq!(b, 2);
        },
        Ok(()) => panic!("a key has one backend"),
    }
    assert_eq!(d.backend_of(&s("c")), None);
}

#[test]
fn codecs_select_types_by_name() {
    let codec = Codec::new().with_named_type(s("a"), TypeTag(1)).with_named_type(s("b"), TypeTag(2));
    assert_eq!(codec.select_type("b").map(|t| t.supported_type_id()), Some(TypeTag(2)));
    assert!(codec.select_type("c").is_none());
    let mut names = codec.supported_types();
    names.sort_by_key(|t| t.0 .0);
    assert_eq!(names, vec![(TypeTag(1), s("a")), (TypeTag(2), s("b"))]);
    assert_eq!(SupportedType::new(TypeTag(5)).supported_type_id(), TypeTag(5));

    let mut reg = CodecRegistry::new();
    reg.add_codec("full", codec).add_codec("empty", Codec::new());
    assert!(reg.get_codec("full").unwrap().select_type("a").is_some());
    assert!(reg.get_codec("empty").unwrap().select_type("a").is_none());
    assert!(reg.get_codec("none").is_none());
}

#[test]
fn a_codec_names_its_message_type() {
    let k = ErasedCodec::known(TypeTag(3), s("m"));
    assert_eq!((k.tid(), k.name()), (Some(TypeTag(3)), s("m")));
    let o = ErasedCodec::from_opaque(Opaque(s("o")));
    assert_eq!((o.tid(), o.name()), (None, s("o")));
}

fn protocol(codecs: &[(u64, &str)]) -> Arc<Protocol> {
    let mut p = Protocol::new();
    for (t, n) in codecs {
        p.add_codec(ErasedCodec::known(TypeTag(*t), s(n)));
    }
    Arc::new(p)
}

#[test]
fn consistent_protocols_combine() {
    let a = ProtocolResolved {
        protocol: protocol(&[(1, "a")]),
        outbound: vec![(s("a"), LocalTypeKey(10))],
        inbound: vec![(s("a"), LocalTypeKey(10))],
    };
    let b = ProtocolResolved {
        protocol: protocol(&[(1, "a"), (2, "b")]),
        outbound: vec![(s("b"), LocalTypeKey(20))],
        inbound: vec![],
    };
    let c = reduce(&vec![a, b]).unwrap();
    let mut out = c.outbound.clone();
    out.sort();
    assert_eq!(out, vec![(s("a"), LocalTypeKey(10)), (s("b"), LocalTypeKey(20))]);
    assert_eq!(c.inbound, vec![(s("a"), LocalTypeKey(10))]);
    let names: Vec<String> = c.protocol.outbound_types().iter().map(|c| c.name()).collect();
    assert_eq!(names, vec![s("a"), s("b")]);
}

#[test]
fn a_pair_given_twice_is_refused() {
    let a = ProtocolResolved { protocol: protocol(&[(1, "a")]), outbound: vec![(s("a"), LocalTypeKey(10))], inbound: vec![] };
    let b = ProtocolResolved { protocol: protocol(&[(1, "a")]), outbound: vec![(s("a"), LocalTypeKey(10))], inbound: vec![] };
    assert!(matches!(reduce(&vec![a, b]), Err(InconsistentMappings)));
}

#[test]
fn a_pair_that_overwrites_two_pairs_replaces_them() {
    let a = ProtocolResolved {
        protocol: protocol(&[(1, "a"), (2, "b")]),
        outbound: vec![(s("a"), LocalTypeKey(10)), (s("b"), LocalTypeKey(20))],
        inbound: vec![],
    };
    let b = ProtocolResolved { protocol: protocol(&[(1, "a")]), outbound: vec![(s("a"), LocalTypeKey(20))], inbound: vec![] };
    let c = reduce(&vec![a, b]).unwrap();
    assert_eq!(c.outbound, vec![(s("a"), LocalTypeKey(20))]);
}

#[test]
fn a_name_under_two_keys_is_refused() {
    let a = ProtocolResolved {
        protocol: protocol(&[(1, "a")]),
        outbound: vec![(s("a"), LocalTypeKey(10))],
        inbound: vec![],
    };
    let b = ProtocolResolved {
        protocol: protocol(&[(1, "a")]),
        outbound: vec![(s("a"), LocalTypeKey(11))],
        inbound: vec![],
    };
    assert!(matches!(reduce(&vec![a, b]), Err(InconsistentMappings)));
}

#[test]
fn a_protocol_resolves_to_registered_keys() {
    let mut reg = ProtocolRegistry::new();
    let p = protocol(&[(1, "a"), (2, "b")]);
    let r = resolve_protocol(&mut reg, p.clone());
    assert_eq!(r.outbound.len(), 2);
    assert_eq!(r.outbound, r.inbound);
    assert_eq!(r.outbound[0].0, "a");
    assert_ne!(r.outbound[0].1, r.outbound[1].1);
    let again = resolve_protocol(&mut reg, p);
    assert_eq!(again.outbound, r.outbound);
}

#[test]
fn a_protocol_is_waited_for_only_when_asked() {
    let mut reg = ProtocolRegistry::new();
    assert!(matches!(get_protocol_by_name(&mut reg, &s("p"), None), ProtocolLookup::NoProtocol));
    assert!(matches!(get_protocol_by_name(&mut reg, &s("p"), Some(100)), ProtocolLookup::Wait));
    reg.register_protocol(s("p"), protocol(&[(1, "a")])).unwrap();
    match get_protocol_by_name(&mut reg, &s("p"), None) {
        ProtocolLookup::Found(r) => {
            assert_eq!(r.outbound[0].0, "a");
            assert_eq!(r.outbound.len(), 1);
            assert_eq!(r.inbound.len(), 1);
            assert_eq!(r.inbound[0].0, "a");
            assert_eq!(reg.key_by_name(&s("a")), Some(r.outbound[0].1));
            assert_eq!(r.inbound[0].1, r.outbound[0].1);
        },
        _ => panic!("a registered protocol is found"),
    }
}

#[test]
fn an_opaque_message_is_registered_by_its_name() {
    let mut reg = ProtocolRegistry::new();
    let k = register_opaque_message(&mut reg, s("peer::Message"));
    assert_eq!(reg.key_by_name(&s("peer::Message")), Some(k));
    assert!(reg.type_of_key(k).is_none());
    assert_eq!(register_opaque_message(&mut reg, s("peer::Message")), k);
    let other = register_opaque_message(&mut reg, s("peer::Other"));
    assert_ne!(other, k);
}

#[test]
fn a_local_subnet_is_kept_once() {
    let mut m = ManagerRoutes::new();
    m.register_local_subnet(net(0xa000, 60));
    m.register_local_subnet(net(0xb000, 60));
    m.register_local_subnet(net(0xa000, 60));
    assert_eq!(
        m.local_subnets(),
        vec![AddressRange { lo: 0xa000, hi: 0xa00f }, AddressRange { lo: 0xb000, hi: 0xb00f }]
    );
}

#[test]
fn inbound_types_route_to_each_local_subnet() {
    let r = local_routes(LocalTypeKey(4), &vec![net(0xa000, 60), net(0xb000, 60)]);
    assert_eq!(
        r,
        vec![
            SetRoute { message: LocalTypeKey(4), destination: net(0xa000, 60), via: None, metric: Some(0) },
            SetRoute { message: LocalTypeKey(4), destination: net(0xb000, 60), via: None, metric: Some(0) },
        ]
    );
}

#[test]
fn a_remote_subnet_gets_an_ingress_with_its_first_route() {
    let mut m = ManagerRoutes::new();
    m.register_local_subnet(net(0xa000, 60));
    assert_eq!(m.local_subnets(), vec![AddressRange { lo: 0xa000, hi: 0xa00f }]);

    let local = SetRoute { message: LocalTypeKey(1), destination: net(0xa000, 60), via: None, metric: Some(0) };
    let fx = m.set_route(local).unwrap();
    assert_eq!(fx.ingress, IngressChange::Nothing);
    assert_eq!(fx.watch_gw, None);

    let gw = Address(0x77);
    let remote = SetRoute { message: LocalTypeKey(1), destination: net(0xb000, 60), via: Some(gw), metric: Some(1) };
    let fx = m.set_route(remote).unwrap();
    assert_eq!(fx.ingress, IngressChange::Start);
    assert_eq!(fx.watch_gw, Some(gw));
    m.gw_watched(5, gw);

    let sub = Address(0x99);
    let routes = m.subscribe(6, sub);
    assert_eq!(routes.len(), 2);

    let removal = SetRoute { metric: None, ..remote };
    let fx = m.set_route(removal).unwrap();
    assert_eq!(fx.ingress, IngressChange::Stop);
    assert_eq!(fx.watch_gw, None);
    assert_eq!(fx.announce_to, vec![sub]);
}

#[test]
fn a_lost_gateway_takes_its_routes_along() {
    let mut m = ManagerRoutes::new();
    let gw = Address(0x77);
    let remote = SetRoute { message: LocalTypeKey(1), destination: net(0xb000, 60), via: Some(gw), metric: Some(1) };
    m.set_route(remote).unwrap();
    m.gw_watched(5, gw);
    m.subscribe(6, Address(0x99));
    assert!(matches!(m.watch_lost(6, Address(0x99)), WatchLost::Subscriber));
    match m.watch_lost(5, gw) {
        WatchLost::Gateway(removals) => assert_eq!(removals, vec![SetRoute { metric: None, ..remote }]),
        _ => panic!("a gateway's watch"),
    }
    assert!(matches!(m.watch_lost(5, gw), WatchLost::Unknown));
}

#[test]
fn an_ingress_routes_by_its_subnet() {
    let gw = Address(0x77);
    let routes = vec![
        SetRoute { message: LocalTypeKey(1), destination: net(0xb000, 60), via: Some(gw), metric: Some(1) },
        SetRoute { message: LocalTypeKey(1), destination: net(0xc000, 60), via: None, metric: Some(0) },
    ];
    let mut ing = SubnetIngress::new(net(0xb000, 60), &routes).unwrap();
    assert_eq!(ing.route(LocalTypeKey(1), Address(0xb001)), IngressRoute::Forward(gw));
    assert_eq!(ing.route(LocalTypeKey(1), Address(0xc001)), IngressRoute::NoRoute);
    assert_eq!(ing.route(LocalTypeKey(2), Address(0xb001)), IngressRoute::NoRoute);
    ing.on_set_route(SetRoute { message: LocalTypeKey(2), destination: net(0xb000, 60), via: None, metric: Some(0) })
        .unwrap();
    assert_eq!(ing.route(LocalTypeKey(2), Address(0xb001)), IngressRoute::LocalSubnet);
    assert_eq!(ing.cached_type_key(TypeTag(9)), None);
    ing.cache_type_key(TypeTag(9), LocalTypeKey(2));
    assert_eq!(ing.cached_type_key(TypeTag(9)), Some(LocalTypeKey(2)));
}

#[test]
fn an_interface_is_bound_once() {
    let mut ifaces = Ifaces::new();
    assert_eq!(ifaces.check_request(IfaceRequest::Bind, &s("tcp://1")), Ok(()));
    ifaces.add(s("tcp://1"), Address(3));
    assert_eq!(ifaces.check_request(IfaceRequest::Bind, &s("tcp://1")), Err(IfaceErrorKind::DuplicateBindAddr));
    assert_eq!(ifaces.check_request(IfaceRequest::Connect, &s("tcp://1")), Err(IfaceErrorKind::DuplicateDstAddr));
    assert_eq!(ifaces.check_request(IfaceRequest::Connect, &s("tcp://2")), Ok(()));
}

#[test]
fn an_exclusive_name_has_one_holder() {
    let mut t = NameTable::new();
    t.register(s("a"), Address(1), true, 100).unwrap();
    assert_eq!(t.register(s("a"), Address(2), true, 100), Err(RegisterErrorKind::Conflict));
    assert_eq!(t.register(s("a"), Address(2), false, 100), Err(RegisterErrorKind::Conflict));
    t.register(s("a"), Address(1), true, 200).unwrap();
    assert_eq!(t.resolve_at(s("a"), 50), vec![(Address(1), 150)]);
    assert_eq!(t.unregister(s("a"), Address(2)), Err(UnregisterErrorKind::NotFound));
    t.unregister(s("a"), Address(1)).unwrap();
    assert!(t.resolve_at(s("a"), 50).is_empty());
}

#[test]
fn a_shared_name_has_many_holders_until_they_run_out() {
    let mut t = NameTable::new();
    t.register_for(s("b"), Address(1), false, 10, 0).unwrap();
    t.register_for(s("b"), Address(2), false, 20, 0).unwrap();
    assert_eq!(t.register(s("b"), Address(3), true, 100), Err(RegisterErrorKind::Conflict));
    let mut found = t.resolve_at(s("b"), 5);
    found.sort();
    assert_eq!(found, vec![(Address(1), 5), (Address(2), 15)]);
    assert_eq!(t.resolve_at(s("b"), 10), vec![(Address(2), 10)]);
    assert!(t.resolve_at(s("b"), 20).is_empty());
    t.register(s("b"), Address(3), true, 100).unwrap();
}

#[test]
fn a_resolution_ages() {
    let r = Resolution::new(s("k"), 10, vec![(Address(1), 5), (Address(2), 20)]);
    assert_eq!(r.name(), "k");
    assert_eq!(r.first(12), Some(Address(1)));
    assert_eq!(r.first(15), None);
    assert_eq!(r.any(15), Some(Address(2)));
    assert_eq!(r.any(30), None);
}

#[test]
fn a_resolver_waits_a_bounded_number_of_rounds() {
    assert_eq!(wait_step(1, 0, 3), WaitStep::Resolved);
    assert_eq!(wait_step(0, 0, 3), WaitStep::Retry);
    assert_eq!(wait_step(0, 3, 3), WaitStep::OutOfRetries);
}

#[test]
fn an_outcome_may_stop_the_server() {
    let o: Outcome<u8, u8> = Outcome::reply(1);
    assert!(!o.stops());
    assert!(o.then_stop().stops());
    assert!(!Outcome::<u8, u8>::forward(Address(1), 2).stops());
    assert!(!Outcome::<u8, u8>::no_reply().stops());
}

#[test]
fn a_child_spec_is_built_step_by_step() {
    let c = ChildSpec::new("launcher");
    assert_eq!(c.stop_timeout, Duration::from_secs(1));
    assert!(!c.announce_parent);
    let c = c
        .with_child_type(ChildType::Transient)
        .with_init_type(InitType::WithAck { start_timeout: Duration::from_millis(5) })
        .with_stop_timeout(Duration::from_secs(3))
        .announce_parent();
    assert_eq!(c.child_type, ChildType::Transient);
    assert!(matches!(c.init_type, InitType::WithAck { start_timeout } if start_timeout == Duration::from_millis(5)));
    assert_eq!(c.stop_timeout, Duration::from_secs(3));
    assert!(c.announce_parent);
    assert!(!c.clone().with_announce_parent(false).announce_parent);
}

struct Recorder(Vec<String>, Option<String>);

impl Decider for Recorder {
    fn add(&mut self, key: String) -> Result<(), String> {
        if Some(&key) == self.1.as_ref() {
            return Err(format!("refused {}", key));
        }
        self.0.push(key);
        Ok(())
    }

    fn rm(&mut self, key: &String) -> Result<(), String> {
        self.0.retain(|k| k != key);
        Ok(())
    }

    fn started(&mut self, _key: &String, _addr: Address, _at: u64) {}

    fn exited(&mut self, _addr: Address, _normal_exit: bool, _at: u64) {}

    fn failed(&mut self, _key: &String, _at: u64) {}

    fn quit(&mut self, _normal_exit: bool) {}

    fn next_action(&mut self, _at: u64) -> Result<Option<Action>, String> {
        Ok(self.0.first().map(|k| Action::Start { child_id: k.clone() }))
    }
}

#[test]
fn children_are_added_to_the_decider_in_order() {
    let spec = |t: u64| ChildSpec::new(t).with_child_type(ChildType::Permanent).with_stop_timeout(Duration::from_secs(t));
    let mut d = Recorder(vec![], None);
    let children = init_children(&mut d, vec![(s("a"), spec(1)), (s("b"), spec(2)), (s("a"), spec(3))]).unwrap();
    assert_eq!(d.0, vec![s("a"), s("b"), s("a")]);
    assert_eq!(children.get(&s("a")).unwrap().launcher, 3);
    assert_eq!(children.stop_timeout(Some(&s("b"))), Duration::from_secs(2));
    assert_eq!(children.stop_timeout(None), Duration::from_secs(0));

    let mut refusing = Recorder(vec![], Some(s("b")));
    let r = init_children(&mut refusing, vec![(s("a"), spec(1)), (s("b"), spec(2))]);
    assert_eq!(r.err(), Some(MixedSupError::Decider(s("refused b"))));

    match plan_action(&children, d.next_action(0).unwrap().unwrap()) {
        SupStep::Start { child_id, child_spec } => {
            assert_eq!(child_id, "a");
            assert_eq!(child_spec.launcher, 3);
        },
        _ => panic!("the decider asked for a start"),
    }
    match plan_action(&children, Action::Stop { address: Address(5), child_id: Some(s("b")) }) {
        SupStep::Stop { address, stop_timeout } => assert_eq!((address, stop_timeout), (Address(5), Duration::from_secs(2))),
        _ => panic!("a stop"),
    }
    assert!(matches!(plan_action(&children, Action::Quit { normal_exit: false }), SupStep::Quit(Err(MixedSupError::Escalated))));
    assert!(matches!(plan_action(&children, Action::Noop), SupStep::Nothing));
    assert!(matches!(plan_action(&children, Action::InitDone), SupStep::AckInit));

    let mut none = Recorder(vec![], None);
    let empty = init_children::<_, u64>(&mut none, vec![]).unwrap();
    assert!(empty.get(&s("a")).is_none());
    assert!(none.0.is_empty());

    let flat = MixedChildren::new(vec![(s("x"), spec(7))]);
    assert!(flat.get(&s("y")).is_none());
    assert_eq!(quit_result(true), Ok(()));
    assert_eq!(quit_result(false), Err(MixedSupError::Escalated));
}

#[test]
fn the_first_handler_of_a_type_keeps_it() {
    let mut h = Handlers::new();
    assert!(h.register(TypeTag(1), 0));
    assert!(!h.register(TypeTag(1), 1));
    assert!(h.register(TypeTag(2), 2));
    assert_eq!(h.handler_for(TypeTag(1)), Some(0));
    assert_eq!(h.handler_for(TypeTag(2)), Some(2));
    assert_eq!(h.handler_for(TypeTag(3)), None);
}

#[test]
fn a_rendez_vous_backs_off_twice_as_long_up_to_its_limit() {
    assert_eq!(next_delay_ms(10, 1000), 20);
    assert_eq!(next_delay_ms(600, 1000), 1000);
    assert_eq!(next_delay_ms(u64::MAX, 1000), 1000);
}

#[test]
fn handlers_are_registered_in_order_and_the_first_keeps_its_type() {
    let h = Handlers::register_all(&vec![TypeTag(7), TypeTag(8), TypeTag(7), TypeTag(9)]);
    assert_eq!(h.handler_for(TypeTag(7)), Some(0));
    assert_eq!(h.handler_for(TypeTag(8)), Some(1));
    assert_eq!(h.handler_for(TypeTag(9)), Some(3));
    assert_eq!(h.handler_for(TypeTag(10)), None);
}

#[test]
fn a_failed_stop_makes_the_mixed_supervisor_quit() {
    assert_eq!(
        on_report(SupReport::StopFailed { address: Address(3), reason: s("timeout") }),
        (None, DeciderCall::Quit { normal_exit: false })
    );
    assert_eq!(
        on_report(SupReport::Started { child_id: s("a"), address: Address(4) }),
        (Some(Address(4)), DeciderCall::Started { key: s("a"), address: Address(4) })
    );
    assert_eq!(on_report(SupReport::StartFailed { child_id: s("b") }), (None, DeciderCall::Failed { key: s("b") }));
    assert_eq!(
        on_report(SupReport::Exited { peer: Address(4), normal_exit: true }),
        (None, DeciderCall::Exited { peer: Address(4), normal_exit: true })
    );
    let mut d = Recorder(vec![s("a")], None);
    tell_decider(&mut d, DeciderCall::Failed { key: s("a") }, 0);
    assert_eq!(d.0, vec![s("a")]);
}

#[test]
fn a_codec_added_twice_is_there_once() {
    let p = Protocol::new()
        .with_codec(ErasedCodec::known(TypeTag(1), s("a")))
        .with_codec(ErasedCodec::known(TypeTag(2), s("b")))
        .with_codec(ErasedCodec::known(TypeTag(1), s("a")));
    let names: Vec<String> = p.outbound_types().iter().map(|c| c.name()).collect();
    assert_eq!(names, vec![s("a"), s("b")]);
}

#[test]
fn the_last_type_added_under_a_name_is_kept() {
    let codec = Codec::new()
        .with_named_type(s("a"), TypeTag(1))
        .with_named_type(s("b"), TypeTag(2))
        .with_named_type(s("a"), TypeTag(3));
    assert_eq!(codec.select_type("a").map(|t| t.supported_type_id()), Some(TypeTag(3)));
    assert_eq!(codec.select_type("b").map(|t| t.supported_type_id()), Some(TypeTag(2)));
    assert_eq!(codec.supported_types().len(), 2);
}

#[test]
fn a_refusal_of_the_decider_is_the_supervisors_error() {
    let spec = |t: u64| ChildSpec::new(t).with_child_type(ChildType::Temporary);
    let r = children_or_refusal(vec![(s("a"), spec(1))], Some(s("no room")));
    assert_eq!(r.err(), Some(MixedSupError::Decider(s("no room"))));
    let c = children_or_refusal(vec![(s("a"), spec(1)), (s("a"), spec(2))], None).unwrap();
    assert_eq!(c.get(&s("a")).unwrap().launcher, 2);
}

struct Launcher(u32);

impl ActorFactory for Launcher {
    type Args = ();
    type Runnable = u32;

    fn produce(&self, _args: ()) -> u32 {
        self.0
    }
}

#[test]
fn children_come_in_the_order_they_were_added() {
    let sup = MixedSup::new("one-for-one")
        .with_child(s("b"), ChildSpec::new(Launcher(1)).with_child_type(ChildType::Permanent))
        .with_child(s("a"), ChildSpec::new(Launcher(2)).with_child_type(ChildType::Transient))
        .with_child(s("c"), ChildSpec::new(Launcher(3)).with_child_type(ChildType::Temporary));
    let (strategy, children) = sup.into_parts();
    assert_eq!(strategy, "one-for-one");
    let mut flat = Vec::new();
    children.collect_into(&mut flat);
    let keys: Vec<String> = flat.iter().map(|(k, _)| k.clone()).collect();
    assert_eq!(keys, vec![s("b"), s("a"), s("c")]);
    let launched: Vec<u32> = flat.iter().map(|(_, c)| c.launcher.produce(())).collect();
    assert_eq!(launched, vec![1, 2, 3]);
    assert_eq!(flat[1].1.child_type, ChildType::Transient);
}

#[test]
fn an_opaque_declaration_binds_the_peers_key() {
    let mut reg = ProtocolRegistry::new();
    let mut types = TypeKeyMap::new();
    let k = bind_opaque_type(&mut types, &mut reg, ForeignTypeKey(9), s("peer::Only"));
    assert_eq!(types.local_key(ForeignTypeKey(9)), Some(k));
    assert_eq!(reg.key_by_name(&s("peer::Only")), Some(k));
}

#[test]
fn a_registry_keeps_the_last_codec_added_under_a_name() {
    let mut reg = CodecRegistry::new();
    assert!(reg.get_codec("x").is_none());
    reg.add_codec("x", Codec::new().with_named_type(s("m"), TypeTag(1)));
    reg.add_codec("y", Codec::new());
    reg.add_codec("x", Codec::new().with_named_type(s("n"), TypeTag(2)));
    let x = reg.get_codec("x").unwrap();
    assert!(x.select_type("m").is_none());
    assert_eq!(x.select_type("n").map(|t| t.supported_type_id()), Some(TypeTag(2)));
    assert!(reg.get_codec("y").is_some());
    assert!(reg.get_codec("z").is_none());
}
