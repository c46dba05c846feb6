use mm1::address::{Address, NetAddress, NetMask};
use mm1::codec::{ErasedCodec, Opaque, Protocol, TypeTag};
use mm1::protocol_registry::{ProtocolRegistry, RegisterProtocolErrorKind, UnregisterProtocolErrorKind};
use mm1::route_registry::{FindRouteError, RouteRegistry, SetRouteError};
use mm1::type_keys::{LocalTypeKey, NULL_TYPE_KEY};

fn a(v: u64) -> Address {
    Address(v)
}

fn n(v: u64, mask: u8) -> NetAddress {
    NetAddress { address: Address(v), mask: NetMask(mask) }
}

fn m() -> LocalTypeKey {
    LocalTypeKey::default()
}

// "<f:100>" and its neighbours, "<a:101>", "<a:102>".
const F100: u64 = 0xf000_0000_0000_0100;
const F101: u64 = 0xf000_0000_0000_0101;
const F102: u64 = 0xf000_0000_0000_0102;
const A101: u64 = 0xa000_0000_0000_0101;
const A102: u64 = 0xa000_0000_0000_0102;

#[test]
fn none_is_less_than_some() {
    assert!(Option::<usize>::None < Option::<usize>::Some(1));
}

#[test]
fn routes() {
    let mut routes = RouteRegistry::default();

    assert!(routes.set_route(m(), n(F100, 56), Some(a(A101)), Some(1)).unwrap().is_none());
    routes.set_route(m(), n(F100, 60), Some(a(A102)), Some(1)).unwrap_err();
    assert!(routes.set_route(m(), n(F100, 56), Some(a(A102)), Some(2)).unwrap().is_none());
    assert_eq!(routes.find_route(m(), a(F100)).unwrap(), (Some(a(A101)), 1));
    assert_eq!(routes.find_route(m(), a(F101)).unwrap(), (Some(a(A101)), 1));
    assert_eq!(routes.find_route(m(), a(F102)).unwrap(), (Some(a(A101)), 1));

    assert_eq!(routes.set_route(m(), n(F100, 56), Some(a(A101)), Some(3)).unwrap(), Some(1));
    assert_eq!(routes.find_route(m(), a(F100)).unwrap(), (Some(a(A102)), 2));
    assert_eq!(routes.find_route(m(), a(F101)).unwrap(), (Some(a(A102)), 2));
    assert_eq!(routes.find_route(m(), a(F102)).unwrap(), (Some(a(A102)), 2));

    assert_eq!(routes.set_route(m(), n(F100, 56), Some(a(A102)), None).unwrap(), Some(2));
    assert_eq!(routes.find_route(m(), a(F100)).unwrap(), (Some(a(A101)), 3));
    assert_eq!(routes.find_route(m(), a(F101)).unwrap(), (Some(a(A101)), 3));
    assert_eq!(routes.find_route(m(), a(F102)).unwrap(), (Some(a(A101)), 3));

    assert_eq!(routes.set_route(m(), n(F100, 56), Some(a(A101)), None).unwrap(), Some(3));
    routes.find_route(m(), a(F100)).unwrap_err();
}

#[test]
fn reproduce_panic() {
    let mut r = RouteRegistry::default();

    // "<aa:>/16" and "<bb:>/16" through "<bb:801>".
    r.set_route(m(), n(0xaa00_0000_0000_0000, 16), Some(a(0xbb00_0000_0000_0801)), Some(1)).unwrap();
    r.set_route(m(), n(0xbb00_0000_0000_0000, 16), Some(a(0xbb00_0000_0000_0801)), Some(2)).unwrap();
}

#[test]
fn route_conflict_names_the_other_subnet() {
    let mut routes = RouteRegistry::new();
    routes.set_route(m(), n(F100, 56), Some(a(A101)), Some(1)).unwrap();
    match routes.set_route(m(), n(F100, 60), Some(a(A102)), Some(1)) {
        Err(SetRouteError::Conflict(c)) => assert_eq!(c, n(F100, 56)),
        Ok(_) => panic!("an overlapping subnet at the same metric must be refused"),
    }
}

#[test]
fn no_route_for_other_message_types() {
    let mut routes = RouteRegistry::new();
    routes.set_route(m(), n(F100, 56), Some(a(A101)), Some(1)).unwrap();
    assert!(matches!(routes.find_route(LocalTypeKey(7), a(F100)), Err(FindRouteError::NoRoute)));
    assert!(matches!(routes.find_route(m(), a(A101)), Err(FindRouteError::NoRoute)));
}

#[test]
fn removing_a_route_undoes_setting_it() {
    let mut routes = RouteRegistry::new();
    assert!(!routes.contains_net(n(F100, 56)));
    routes.set_route(m(), n(F100, 56), None, Some(0)).unwrap();
    assert!(routes.contains_net(n(F100, 56)));
    assert_eq!(routes.set_route(m(), n(F100, 56), None, None).unwrap(), Some(0));
    assert!(!routes.contains_net(n(F100, 56)));
    assert!(routes.all_routes().is_empty());
}

#[test]
fn routes_by_gateway() {
    let mut routes = RouteRegistry::new();
    routes.set_route(m(), n(F100, 56), Some(a(A101)), Some(1)).unwrap();
    routes.set_route(m(), n(0xb000_0000_0000_0000, 8), Some(a(A102)), Some(4)).unwrap();
    let via_a101 = routes.all_routes_by_gw(a(A101));
    assert_eq!(via_a101, vec![(m(), n(F100, 56), 1)]);
    assert_eq!(routes.all_routes().len(), 2);
}

#[test]
fn default_type_key_is_the_null_key() {
    assert_eq!(LocalTypeKey::default(), LocalTypeKey(NULL_TYPE_KEY));
}

const MESSAGE_TAG: TypeTag = TypeTag(42);

fn message_name() -> String {
    "tests::Message".to_string()
}

#[test]
fn register_opaque() {
    let name = message_name();
    let mut state = ProtocolRegistry::new();
    let opaque_key = state.register_message(ErasedCodec::from_opaque(Opaque(name.clone())));
    assert_eq!(state.key_by_name(&name).unwrap(), opaque_key);
    assert!(state.local_type_key_by_tid(MESSAGE_TAG).is_none());
    assert!(state.type_of_key(opaque_key).is_none());
}

#[test]
fn register_known() {
    let name = message_name();
    let mut state = ProtocolRegistry::new();
    let known_key = state.register_message(ErasedCodec::known(MESSAGE_TAG, name.clone()));
    assert_eq!(state.key_by_name(&name).unwrap(), known_key);
    assert_eq!(state.local_type_key_by_tid(MESSAGE_TAG).unwrap(), known_key);
    assert_eq!(state.type_of_key(known_key).unwrap(), MESSAGE_TAG);
}

#[test]
fn reigster_message() {
    let name = message_name();
    let mut state = ProtocolRegistry::new();

    let opaque_key = state.register_message(ErasedCodec::from_opaque(Opaque(name.clone())));
    assert_eq!(state.key_by_name(&name).unwrap(), opaque_key);
    assert!(state.local_type_key_by_tid(MESSAGE_TAG).is_none());
    assert!(state.type_of_key(opaque_key).is_none());

    let known_key = state.register_message(ErasedCodec::known(MESSAGE_TAG, name.clone()));
    assert_eq!(state.key_by_name(&name).unwrap(), known_key);
    assert_eq!(state.local_type_key_by_tid(MESSAGE_TAG).unwrap(), known_key);
    assert_eq!(state.type_of_key(known_key), Some(MESSAGE_TAG));

    assert_eq!(known_key, opaque_key);
}

#[test]
fn registering_a_message_twice_gives_the_same_key() {
    let mut state = ProtocolRegistry::new();
    let k1 = state.register_message(ErasedCodec::known(MESSAGE_TAG, message_name()));
    let k2 = state.register_message(ErasedCodec::known(MESSAGE_TAG, message_name()));
    assert_eq!(k1, k2);
    assert_eq!(state.message_name_by_key(k1), message_name());
}

fn protocol_of(tags: &[(u64, &str)]) -> Protocol {
    let mut p = Protocol::new();
    for (t, name) in tags {
        p.add_codec(ErasedCodec::known(TypeTag(*t), name.to_string()));
    }
    p
}

#[test]
fn protocols_register_once_and_unregister() {
    let mut state = ProtocolRegistry::new();
    let p = std::sync::Arc::new(protocol_of(&[(1, "a::One"), (2, "a::Two")]));
    state.register_protocol("p".to_string(), p.clone()).unwrap();
    assert_eq!(
        state.register_protocol("p".to_string(), p.clone()),
        Err(RegisterProtocolErrorKind::DuplicateProtocolName)
    );
    assert!(state.protocol_by_name(&"p".to_string()).is_some());
    assert!(state.local_type_key_by_tid(TypeTag(2)).is_some());
    assert_eq!(state.unregister_protocol("p".to_string()), Err(UnregisterProtocolErrorKind::ProtocolInUse));
    drop(p);
    assert_eq!(state.unregister_protocol("p".to_string()), Ok(()));
    assert_eq!(state.unregister_protocol("p".to_string()), Err(UnregisterProtocolErrorKind::NoProtocol));
    assert!(state.protocol_by_name(&"p".to_string()).is_none());
}

#[test]
fn protocol_ignores_a_codec_of_a_known_name() {
    let mut p = Protocol::new();
    p.add_codec(ErasedCodec::known(TypeTag(1), "x::A".to_string()));
    p.add_codec(ErasedCodec::from_opaque(Opaque("x::A".to_string())));
    p.add_codec(ErasedCodec::from_opaque(Opaque("x::B".to_string())));
    let names: Vec<String> = p.outbound_types().iter().map(|c| c.name()).collect();
    assert_eq!(names, vec!["x::A".to_string(), "x::B".to_string()]);
    assert_eq!(p.inbound_types()[0].tid(), Some(TypeTag(1)));
}
