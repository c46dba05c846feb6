//! The decisions of the multinode manager: resolving protocols for the
//! connections that ask for them, the interfaces it binds and connects, and
//! what a route update or a lost gateway sets off.

use std::collections::HashMap;
use std::sync::Arc;

use bimap::BiHashMap;
use vstd::prelude::*;
use vstd::std_specs::iter::IteratorSpec;

use crate::address::{Address, AddressRange, NetAddress};
use crate::codec::{codec_views, CodecView, ErasedCodec, Opaque, Protocol, TypeTag};
use crate::connection::TypeKeyMap;
use crate::proto::SetRoute;
use crate::protocol_registry::{all_known, message_registered, protocol_handle, ProtocolRegistry, RegisterProtocolErrorKind};
use crate::codec::codecs_wf;
use crate::waitlist::{armed_for, WaitKey, Waitlist};
use crate::route_registry::{routes_after, set_route_blocked, RouteEntry, RouteRegistry, SetRouteError};
use crate::slots::SLOTS_MAX;
use crate::type_keys::{ForeignTypeKey, LocalTypeKey};

verus! {

/// The key under which a registry knows a codec: by its type where it has
/// one, else by its name.
pub open spec fn key_for(reg: ProtocolRegistry, c: CodecView) -> Option<u64> {
    match c.0 {
        Some(t) => if reg.by_tid().contains_key(t) { Some(reg.by_tid()[t]) } else { None },
        None => if reg.by_name().contains_key(c.1) { Some(reg.by_name()[c.1]) } else { None },
    }
}

/// Registering a codec keeps every key the registry knew, and the codec is
/// then known under the key it got.
proof fn lemma_registration_keeps_keys(old: ProtocolRegistry, new: ProtocolRegistry, c: CodecView, key: u64)
    requires
        message_registered(old, new, c, key),
    ensures
        key_for(new, c) == Some(key),
        forall|d: CodecView| key_for(old, d) is Some ==> #[trigger] key_for(new, d) == key_for(old, d),
{
}

/// Registers each codec of a protocol in turn and returns its name with the
/// key it got: the key under which the registry then knows it.
pub fn resolve_codecs(registry: &mut ProtocolRegistry, codecs: Vec<ErasedCodec>) -> (r: Vec<(String, LocalTypeKey)>)
    requires
        old(registry).wf(),
        old(registry).codec_count() + codecs.len() < SLOTS_MAX,
    ensures
        final(registry).wf(),
        final(registry).codec_count() <= old(registry).codec_count() + codecs.len(),
        final(registry).protocols() == old(registry).protocols(),
        r.len() == codecs.len(),
        forall|i: int| 0 <= i < r.len() ==> (#[trigger] r@[i]).0@ == codecs@[i]@.1
            && key_for(*final(registry), codecs@[i]@) == Some(r@[i].1.0),
        forall|d: CodecView| key_for(*old(registry), d) is Some ==> #[trigger] key_for(*final(registry), d)
            == key_for(*old(registry), d),
{
    let mut r: Vec<(String, LocalTypeKey)> = Vec::new();
    let n = codecs.len();
    let ghost all = codecs@;
    let mut codecs = codecs;
    let mut i: usize = 0;
    while i < n
        invariant
            0 <= i <= n,
            n == all.len(),
            codecs@ == all.skip(i as int),
            registry.wf(),
            registry.codec_count() <= old(registry).codec_count() + i,
            old(registry).codec_count() + n < SLOTS_MAX,
            registry.protocols() == old(registry).protocols(),
            r.len() == i,
            forall|j: int| 0 <= j < i ==> (#[trigger] r@[j]).0@ == all[j]@.1
                && key_for(*registry, all[j]@) == Some(r@[j].1.0),
            forall|d: CodecView| key_for(*old(registry), d) is Some ==> #[trigger] key_for(*registry, d)
                == key_for(*old(registry), d),
        decreases n - i,
    {
        let c = codecs.remove(0);
        let ghost cv = c@;
        let ghost before = *registry;
        let name = c.name();
        let key = registry.register_message(c);
        proof {
            lemma_registration_keeps_keys(before, *registry, cv, key.0);
            assert(all[i as int]@ == cv);
        }
        let ghost r0 = r@;
        r.push((name, key));
        proof {
            assert(codecs@ =~= all.skip(i + 1));
            assert forall|j: int| 0 <= j < i + 1 implies (#[trigger] r@[j]).0@ == all[j]@.1
                && key_for(*registry, all[j]@) == Some(r@[j].1.0) by {
                if j < i {
                    assert(r0[j] == r@[j]);
                    assert(key_for(before, all[j]@) is Some);
                }
            }
        }
        i = i + 1;
    }
    r
}

/// A connection's peer declared a message type that no protocol here knows:
/// its name is registered with an opaque codec (a name and no type), and the
/// key under which the registry then knows that name is returned, for the
/// connection to bind the peer's key to.
pub fn register_opaque_message(registry: &mut ProtocolRegistry, name: String) -> (r: LocalTypeKey)
    requires
        old(registry).wf(),
        old(registry).codec_count() < SLOTS_MAX,
    ensures
        final(registry).wf(),
        final(registry).codec_count() <= old(registry).codec_count() + 1,
        message_registered(*old(registry), *final(registry), (None::<TypeTag>, name@), r.0),
        key_for(*final(registry), (None::<TypeTag>, name@)) == Some(r.0),
{
    let codec = ErasedCodec::from_opaque(Opaque(name));
    registry.register_message(codec)
}

/// Finishes the peer's declaration of a type that no protocol here knows:
/// its name is registered as an opaque message, and the peer's key `fkey` is
/// bound to the key the name then has.
pub fn bind_opaque_type(
    types: &mut TypeKeyMap,
    registry: &mut ProtocolRegistry,
    fkey: ForeignTypeKey,
    name: String,
) -> (r: LocalTypeKey)
    requires
        old(types).wf(),
        !old(types)@.contains_key(fkey.0),
        old(registry).wf(),
        old(registry).codec_count() < SLOTS_MAX,
    ensures
        final(types).wf(),
        final(types)@ == old(types)@.insert(fkey.0, r.0),
        final(registry).wf(),
        final(registry).codec_count() <= old(registry).codec_count() + 1,
        message_registered(*old(registry), *final(registry), (None::<TypeTag>, name@), r.0),
        key_for(*final(registry), (None::<TypeTag>, name@)) == Some(r.0),
{
    let key = register_opaque_message(registry, name);
    types.bind(fkey, key);
    key
}

/// A protocol as a connection receives it: the protocol and the keys of its
/// outbound and inbound message names.
pub struct Resolved {
    pub protocol: Arc<Protocol>,
    pub outbound: Vec<(String, LocalTypeKey)>,
    pub inbound: Vec<(String, LocalTypeKey)>,
}

/// Resolves a protocol: its outbound and inbound codecs (all of them) are
/// registered, each name with its key.
pub fn resolve_protocol(registry: &mut ProtocolRegistry, protocol: Arc<Protocol>) -> (r: Resolved)
    requires
        old(registry).wf(),
        old(registry).codec_count() + 2 * (*protocol)@.len() < SLOTS_MAX,
    ensures
        final(registry).wf(),
        final(registry).protocols() == old(registry).protocols(),
        r.protocol == protocol,
        r.outbound.len() == (*protocol)@.len(),
        r.inbound.len() == (*protocol)@.len(),
        forall|i: int| 0 <= i < r.outbound.len() ==> (#[trigger] r.outbound@[i]).0@ == (*protocol)@[i].1
            && key_for(*final(registry), (*protocol)@[i]) == Some(r.outbound@[i].1.0),
        forall|i: int| 0 <= i < r.inbound.len() ==> (#[trigger] r.inbound@[i]).0@ == (*protocol)@[i].1
            && key_for(*final(registry), (*protocol)@[i]) == Some(r.inbound@[i].1.0),
        forall|d: CodecView| key_for(*old(registry), d) is Some ==> #[trigger] key_for(*final(registry), d)
            == key_for(*old(registry), d),
{
    let out_codecs = protocol.outbound_types();
    proof {
        assert(out_codecs@.len() == codec_views(out_codecs@).len());
    }
    let outbound = resolve_codecs(registry, out_codecs);
    let in_codecs = protocol.inbound_types();
    proof {
        assert(in_codecs@.len() == codec_views(in_codecs@).len());
    }
    let ghost mid = *registry;
    let inbound = resolve_codecs(registry, in_codecs);
    proof {
        assert forall|i: int| 0 <= i < outbound.len() implies (#[trigger] outbound@[i]).0@ == (*protocol)@[i].1
            && key_for(*registry, (*protocol)@[i]) == Some(outbound@[i].1.0) by {
            assert(codec_views(out_codecs@)[i] == out_codecs@[i]@);
            assert(outbound@[i].0@ == out_codecs@[i]@.1);
            assert(key_for(mid, out_codecs@[i]@) == Some(outbound@[i].1.0));
        }
        assert forall|i: int| 0 <= i < inbound.len() implies (#[trigger] inbound@[i]).0@ == (*protocol)@[i].1
            && key_for(*registry, (*protocol)@[i]) == Some(inbound@[i].1.0) by {
            assert(codec_views(in_codecs@)[i] == in_codecs@[i]@);
        }
    }
    Resolved { protocol, outbound, inbound }
}

/// `res` lists, for each codec of `codecs` in order, its name with the key
/// under which `registry` knows it: once for the outbound side and once for
/// the inbound side.
pub open spec fn lists_keys_of(registry: ProtocolRegistry, codecs: Seq<CodecView>, res: Resolved) -> bool {
    &&& res.outbound.len() == codecs.len()
    &&& res.inbound.len() == codecs.len()
    &&& forall|i: int| 0 <= i < res.outbound.len() ==> (#[trigger] res.outbound@[i]).0@ == codecs[i].1
        && key_for(registry, codecs[i]) == Some(res.outbound@[i].1.0)
    &&& forall|i: int| 0 <= i < res.inbound.len() ==> (#[trigger] res.inbound@[i]).0@ == codecs[i].1
        && key_for(registry, codecs[i]) == Some(res.inbound@[i].1.0)
}

/// The answer to a request for a protocol by name.
pub enum ProtocolLookup {
    /// The protocol is registered: reply with it.
    Found(Resolved),
    /// Not registered and no wait asked for: reply `NoProtocol`.
    NoProtocol,
    /// Not registered: wait for it, at most the requested time.
    Wait,
}

/// A request for the protocol `name`, waiting at most `timeout` if given.
pub fn get_protocol_by_name(registry: &mut ProtocolRegistry, name: &String, timeout: Option<u64>) -> (r: ProtocolLookup)
    requires
        old(registry).wf(),
        forall|n: Seq<char>| #[trigger] old(registry).protocols().contains_key(n)
            ==> old(registry).codec_count() + 2 * old(registry).protocols()[n].len() < SLOTS_MAX,
    ensures
        final(registry).wf(),
        final(registry).protocols() == old(registry).protocols(),
        old(registry).protocols().contains_key(name@) <==> r is Found,
        r matches ProtocolLookup::Found(res) ==> (*res.protocol)@ == old(registry).protocols()[name@]
            && lists_keys_of(*final(registry), old(registry).protocols()[name@], res),
        !old(registry).protocols().contains_key(name@) ==> (r is Wait <==> timeout is Some),
{
    match registry.protocol_by_name(name) {
        Some(p) => ProtocolLookup::Found(resolve_protocol(registry, p)),
        None => match timeout {
            None => ProtocolLookup::NoProtocol,
            Some(_) => ProtocolLookup::Wait,
        },
    }
}

/// The routes that a node announces for a message type it receives: each
/// local subnet, in order, directly, at metric 0.
pub open spec fn local_routes_spec(message: LocalTypeKey, local_subnets: Seq<NetAddress>) -> Seq<SetRoute> {
    Seq::new(local_subnets.len(), |i: int| SetRoute { message, destination: local_subnets[i], via: None, metric: Some(0u8) })
}

/// The routes that a node announces for a message type it receives: each
/// local subnet, directly, at metric 0.
pub fn local_routes(message: LocalTypeKey, local_subnets: &Vec<NetAddress>) -> (r: Vec<SetRoute>)
    ensures
        r@ == local_routes_spec(message, local_subnets@),
{
    let mut r: Vec<SetRoute> = Vec::new();
    let mut i: usize = 0;
    while i < local_subnets.len()
        invariant
            0 <= i <= local_subnets.len(),
            r.len() == i,
            forall|j: int| 0 <= j < i ==> #[trigger] r@[j] == (SetRoute {
                message,
                destination: local_subnets@[j],
                via: None,
                metric: Some(0u8),
            }),
        decreases local_subnets.len() - i,
    {
        r.push(SetRoute { message, destination: local_subnets[i], via: None, metric: Some(0) });
        i = i + 1;
    }
    assert(r@ =~= local_routes_spec(message, local_subnets@));
    r
}

/// What registering a protocol sets off.
pub struct ProtocolRegistered {
    /// The answer to the request.
    pub reply: Result<(), RegisterProtocolErrorKind>,
    /// The waits for the protocol, answered now: their timers are cancelled
    /// and they get the resolved protocol.
    pub hits: Vec<(WaitKey, u64, u64)>,
    /// For each inbound message type, in order, its key and its routes to
    /// the local subnets, sent to the manager itself.
    pub routes: Vec<(LocalTypeKey, Vec<SetRoute>)>,
    /// The protocol resolved for the waits.
    pub resolved: Resolved,
}

/// A request to register `protocol` as `name`: the protocol is registered if
/// the name is free, and then the waits for it are taken; either way its
/// inbound message types are registered and routed to each local subnet, and
/// the protocol is resolved.
pub fn register_protocol_request(
    registry: &mut ProtocolRegistry,
    waitlist: &mut Waitlist,
    name: String,
    protocol: Arc<Protocol>,
    local_subnets: &Vec<NetAddress>,
) -> (r: ProtocolRegistered)
    requires
        old(registry).wf(),
        old(waitlist).wf(),
        codecs_wf((*protocol)@),
        all_known((*protocol)@),
        old(registry).codec_count() + 4 * (*protocol)@.len() < SLOTS_MAX,
    ensures
        final(registry).wf(),
        final(waitlist).wf(),
        old(registry).protocols().contains_key(name@) ==> r.reply == Err::<(), _>(RegisterProtocolErrorKind::DuplicateProtocolName)
            && final(registry).protocols() == old(registry).protocols()
            && final(waitlist).waits() == old(waitlist).waits()
            && r.hits@.len() == 0,
        !old(registry).protocols().contains_key(name@) ==> r.reply is Ok
            && final(registry).protocols() == old(registry).protocols().insert(name@, (*protocol)@)
            && final(waitlist).waits() == old(waitlist).waits().remove_keys(armed_for(old(waitlist).waits(), name@))
            && (forall|i: int| 0 <= i < r.hits.len() ==> #[trigger] armed_for(old(waitlist).waits(), name@).contains(r.hits@[i].0.id()))
            && (forall|k: u64| #[trigger] armed_for(old(waitlist).waits(), name@).contains(k)
                ==> crate::waitlist::taken_among(r.hits@, r.hits.len() as int, k)),
        r.routes.len() == (*protocol)@.len(),
        forall|i: int| 0 <= i < r.routes.len() ==> key_for(*final(registry), (*protocol)@[i]) == Some(
            (#[trigger] r.routes@[i]).0.0,
        ) && r.routes@[i].1@ == local_routes_spec(r.routes@[i].0, local_subnets@),
        r.resolved.protocol == protocol,
        r.resolved.outbound.len() == (*protocol)@.len(),
        r.resolved.inbound.len() == (*protocol)@.len(),
        forall|i: int| 0 <= i < r.resolved.outbound.len() ==> (#[trigger] r.resolved.outbound@[i]).0@ == (*protocol)@[i].1
            && key_for(*final(registry), (*protocol)@[i]) == Some(r.resolved.outbound@[i].1.0),
        forall|i: int| 0 <= i < r.resolved.inbound.len() ==> (#[trigger] r.resolved.inbound@[i]).0@ == (*protocol)@[i].1
            && key_for(*final(registry), (*protocol)@[i]) == Some(r.resolved.inbound@[i].1.0),
{
    let reply = registry.register_protocol(name.clone(), protocol_handle(&protocol));
    let hits = match reply {
        Ok(()) => waitlist.take_waiting(&name),
        Err(_) => Vec::new(),
    };
    let ghost mid = registry.protocols();
    let inbound_codecs = protocol.inbound_types();
    let n = inbound_codecs.len();
    let ghost all = inbound_codecs@;
    let mut codecs = inbound_codecs;
    let mut routes: Vec<(LocalTypeKey, Vec<SetRoute>)> = Vec::new();
    let ghost before_all = *registry;
    let mut i: usize = 0;
    while i < n
        invariant
            0 <= i <= n,
            n == all.len(),
            n == (*protocol)@.len(),
            codec_views(all) == (*protocol)@,
            codecs@ == all.skip(i as int),
            registry.wf(),
            registry.protocols() == mid,
            registry.codec_count() <= old(registry).codec_count() + (*protocol)@.len() + i,
            old(registry).codec_count() + 4 * (*protocol)@.len() < SLOTS_MAX,
            routes.len() == i,
            forall|j: int| 0 <= j < i ==> key_for(*registry, all[j]@) == Some((#[trigger] routes@[j]).0.0)
                && routes@[j].1@ == local_routes_spec(routes@[j].0, local_subnets@),
        decreases n - i,
    {
        let c = codecs.remove(0);
        let ghost cv = c@;
        let ghost pre = *registry;
        proof {
            assert(codecs@ =~= all.skip(i + 1));
            assert(all[i as int]@ == cv);
        }
        let key = registry.register_message(c);
        proof {
            lemma_registration_keeps_keys(pre, *registry, cv, key.0);
        }
        let more = local_routes(key, local_subnets);
        let ghost r0 = routes@;
        routes.push((key, more));
        proof {
            assert forall|j: int| 0 <= j < i + 1 implies key_for(*registry, all[j]@) == Some((#[trigger] routes@[j]).0.0)
                && routes@[j].1@ == local_routes_spec(routes@[j].0, local_subnets@) by {
                if j < i {
                    assert(r0[j] == routes@[j]);
                    assert(key_for(pre, all[j]@) is Some);
                }
            }
        }
        i = i + 1;
    }
    let ghost before_resolve = *registry;
    let resolved = resolve_protocol(registry, protocol);
    proof {
        assert forall|j: int| 0 <= j < routes.len() implies key_for(*registry, (*protocol)@[j]) == Some(
            (#[trigger] routes@[j]).0.0,
        ) && routes@[j].1@ == local_routes_spec(routes@[j].0, local_subnets@) by {
            assert(codec_views(all)[j] == all[j]@);
            let rj = routes@[j];
            assert(key_for(before_resolve, all[j]@) == Some(rj.0.0));
        }
    }
    ProtocolRegistered { reply, hits, routes, resolved }
}

/// The effects of a route update on the manager, besides the update itself.
#[derive(Debug, Clone, Copy, PartialEq, Eq, Structural)]
pub enum IngressChange {
    Nothing,
    /// The last route to a remote subnet is gone: stop its ingress worker.
    Stop,
    /// The first route to a remote subnet appeared: start an ingress worker.
    Start,
}

/// What becomes of a subnet's ingress worker when the routes to it change:
/// only a subnet that is not local has one; it starts with the first route and
/// stops with the last.
pub open spec fn ingress_change(local: bool, before: bool, after: bool) -> IngressChange {
    if local {
        IngressChange::Nothing
    } else if before && !after {
        IngressChange::Stop
    } else if !before && after {
        IngressChange::Start
    } else {
        IngressChange::Nothing
    }
}


/// Names the watches of gateways that a bimap holds, as a map from the watch
/// to the gateway.
pub uninterp spec fn gw_watches(m: BiHashMap<u64, Address>) -> Map<u64, Address>;

/// `BiHashMap::new`: no watches.
#[verifier::external_body]
fn gw_watches_new() -> (r: BiHashMap<u64, Address>)
    ensures
        gw_watches(r) =~= Map::empty(),
{
    BiHashMap::new()
}

/// `BiHashMap::contains_right`: whether some watch is of this gateway.
#[verifier::external_body]
fn gw_watches_contains_gw(m: &BiHashMap<u64, Address>, gw: Address) -> (r: bool)
    ensures
        r == is_watched(gw_watches(*m), gw),
{
    m.contains_right(&gw)
}

/// `BiHashMap::contains_left`: whether the watch is held.
#[verifier::external_body]
fn gw_watches_contains_watch(m: &BiHashMap<u64, Address>, w: u64) -> (r: bool)
    ensures
        r == gw_watches(*m).contains_key(w),
{
    m.contains_left(&w)
}

/// `BiHashMap::insert` of a watch and a gateway that neither occurs: the
/// pair is added.
#[verifier::external_body]
fn gw_watches_insert(m: &mut BiHashMap<u64, Address>, w: u64, gw: Address)
    requires
        !gw_watches(*old(m)).contains_key(w),
        forall|x: u64| #[trigger] gw_watches(*old(m)).contains_key(x) ==> gw_watches(*old(m))[x] != gw,
    ensures
        gw_watches(*final(m)) == gw_watches(*old(m)).insert(w, gw),
{
    m.insert(w, gw);
}

/// `BiHashMap::remove_by_left`: drops the watch, if held.
#[verifier::external_body]
fn gw_watches_remove(m: &mut BiHashMap<u64, Address>, w: u64)
    ensures
        gw_watches(*final(m)) == gw_watches(*old(m)).remove(w),
{
    m.remove_by_left(&w);
}

/// The route state of the manager: the routes, the local subnets, the
/// watched gateways and the subscribers to route updates.
pub struct ManagerRoutes {
    registry: RouteRegistry,
    local_subnets: Vec<AddressRange>,
    route_gws: BiHashMap<u64, Address>,
    subscribers: HashMap<u64, Address>,
}

/// What a route update sets off.
pub struct RouteUpdateEffects {
    /// The change of the destination's ingress worker.
    pub ingress: IngressChange,
    /// A gateway to watch: the update came through it and it is not watched.
    pub watch_gw: Option<Address>,
    /// The subscribers to tell of the update.
    pub announce_to: Vec<Address>,
}

/// A lost watch: what the manager does.
pub enum WatchLost {
    /// A subscriber is gone: it is dropped.
    Subscriber,
    /// A gateway is gone: these removals of its routes are sent to the
    /// manager itself.
    Gateway(Vec<SetRoute>),
    /// Neither: nothing.
    Unknown,
}

/// Some watch is of the gateway `gw`.
pub open spec fn is_watched(m: Map<u64, Address>, gw: Address) -> bool {
    exists|w: u64| #[trigger] m.contains_key(w) && m[w] == gw
}

/// Some subscriber delivers to `a`.
pub open spec fn subscribed(m: Map<u64, Address>, a: Address) -> bool {
    exists|w: u64| #[trigger] m.contains_key(w) && m[w] == a
}

/// No gateway is watched twice.
pub open spec fn watches_one_to_one(m: Map<u64, Address>) -> bool {
    forall|a: u64, b: u64| #[trigger] m.contains_key(a) && #[trigger] m.contains_key(b) && a != b ==> m[a] != m[b]
}

/// Some route for messages of type `message` to `dst` goes through `gw`.
pub open spec fn has_route_via(v: Set<RouteEntry>, message: LocalTypeKey, dst: NetAddress, gw: Address) -> bool {
    exists|m: u8| #[trigger] v.contains(RouteEntry { message, dst_net: dst, gw: Some(gw), metric: m })
}

/// One of the local subnets overlaps the range.
pub open spec fn overlaps_local(local: Seq<AddressRange>, r: AddressRange) -> bool {
    exists|i: int| 0 <= i < local.len() && (#[trigger] local[i]).spec_overlaps(r)
}

/// Some route leads to exactly this subnet.
pub open spec fn has_net(v: Set<RouteEntry>, n: NetAddress) -> bool {
    exists|e: RouteEntry| #[trigger] v.contains(e) && e.dst_net == n
}

/// The subnets with an ingress worker after applying `change` for `dst`.
pub open spec fn workers_after(workers: Set<NetAddress>, dst: NetAddress, change: IngressChange) -> Set<NetAddress> {
    match change {
        IngressChange::Start => workers.insert(dst),
        IngressChange::Stop => workers.remove(dst),
        IngressChange::Nothing => workers,
    }
}

/// Exactly the subnets that are not local and that some route leads to have
/// an ingress worker.
pub open spec fn workers_match(workers: Set<NetAddress>, local: Seq<AddressRange>, v: Set<RouteEntry>) -> bool {
    forall|n: NetAddress| #[trigger] workers.contains(n) <==> (!overlaps_local(local, n.spec_range()) && has_net(v, n))
}

/// Applying the ingress change of each route update keeps the ingress
/// workers those of the remote subnets that routes lead to: a worker starts
/// with the first route to a remote subnet and stops with the last.
pub proof fn law_ingress_workers_follow_routes(
    workers: Set<NetAddress>,
    local: Seq<AddressRange>,
    v: Set<RouteEntry>,
    message: LocalTypeKey,
    dst: NetAddress,
    gw: Option<Address>,
    metric: Option<u8>,
)
    requires
        workers_match(workers, local, v),
    ensures
        ({
            let after = routes_after(v, message, dst, gw, metric);
            let change = ingress_change(overlaps_local(local, dst.spec_range()), has_net(v, dst), has_net(after, dst));
            workers_match(workers_after(workers, dst, change), local, after)
        }),
{
    let after = routes_after(v, message, dst, gw, metric);
    let change = ingress_change(overlaps_local(local, dst.spec_range()), has_net(v, dst), has_net(after, dst));
    let w = workers_after(workers, dst, change);
    assert forall|n: NetAddress| #[trigger] w.contains(n) <==> (!overlaps_local(local, n.spec_range()) && has_net(after, n)) by {
        if n != dst {
            if has_net(v, n) {
                let e = choose|e: RouteEntry| #[trigger] v.contains(e) && e.dst_net == n;
                assert(after.contains(e));
            }
            if has_net(after, n) {
                let e = choose|e: RouteEntry| #[trigger] after.contains(e) && e.dst_net == n;
                assert(v.contains(e));
            }
            assert(workers.contains(n) <==> (!overlaps_local(local, n.spec_range()) && has_net(v, n)));
        } else {
            assert(workers.contains(n) <==> (!overlaps_local(local, n.spec_range()) && has_net(v, n)));
        }
    }
}

impl ManagerRoutes {
    pub closed spec fn routes(&self) -> Set<RouteEntry> {
        self.registry@
    }

    pub closed spec fn local(&self) -> Seq<AddressRange> {
        self.local_subnets@
    }

    pub closed spec fn watches(&self) -> Map<u64, Address> {
        gw_watches(self.route_gws)
    }

    pub closed spec fn subscribers(&self) -> Map<u64, Address> {
        self.subscribers@
    }

    pub closed spec fn slot_count(&self) -> nat {
        self.registry.slot_count()
    }

    /// Watches and gateways are one-to-one; the routes are well formed.
    pub closed spec fn wf(&self) -> bool {
        &&& self.registry.wf()
        &&& self.subscribers@.dom().finite()
        &&& watches_one_to_one(self.watches())
    }

    pub fn new() -> (r: Self)
        ensures
            r.wf(),
            r.routes() =~= Set::empty(),
            r.local() =~= Seq::empty(),
            r.watches() =~= Map::empty(),
            r.subscribers() =~= Map::empty(),
            r.slot_count() == 0,
    {
        let r = ManagerRoutes {
            registry: RouteRegistry::new(),
            local_subnets: Vec::new(),
            route_gws: gw_watches_new(),
            subscribers: HashMap::new(),
        };
        r
    }

    /// Registers a local subnet; a subnet registered before is kept once.
    #[verifier::loop_isolation(false)]
    pub fn register_local_subnet(&mut self, net: NetAddress)
        requires
            old(self).wf(),
        ensures
            final(self).wf(),
            final(self).local() == if old(self).local().contains(net.spec_range()) {
                old(self).local()
            } else {
                old(self).local().push(net.spec_range())
            },
            final(self).routes() == old(self).routes(),
            final(self).watches() == old(self).watches(),
            final(self).subscribers() == old(self).subscribers(),
            final(self).slot_count() == old(self).slot_count(),
    {
        let range = AddressRange::from_net(net);
        let mut i: usize = 0;
        while i < self.local_subnets.len()
            invariant
                0 <= i <= self.local_subnets.len(),
                *self == *old(self),
                forall|j: int| 0 <= j < i ==> self.local_subnets@[j] != range,
            decreases self.local_subnets.len() - i,
        {
            if self.local_subnets[i] == range {
                assert(old(self).local()[i as int] == net.spec_range());
                return;
            }
            i = i + 1;
        }
        self.local_subnets.push(range);
    }

    /// The local subnets.
    pub fn local_subnets(&self) -> (r: Vec<AddressRange>)
        ensures
            r@ == self.local(),
    {
        self.local_subnets.clone()
    }

    /// A subscriber to route updates: it gets every route, and is watched
    /// under `watch`.
    #[verifier::loop_isolation(false)]
    pub fn subscribe(&mut self, watch: u64, deliver_to: Address) -> (r: Vec<SetRoute>)
        requires
            old(self).wf(),
        ensures
            final(self).wf(),
            final(self).subscribers() == old(self).subscribers().insert(watch, deliver_to),
            final(self).routes() == old(self).routes(),
            final(self).local() == old(self).local(),
            final(self).watches() == old(self).watches(),
            final(self).slot_count() == old(self).slot_count(),
            forall|i: int| 0 <= i < r.len() ==> #[trigger] r@[i].metric is Some && old(self).routes().contains(
                RouteEntry { message: r@[i].message, dst_net: r@[i].destination, gw: r@[i].via, metric: r@[i].metric->0 },
            ),
            forall|e: RouteEntry| #[trigger] old(self).routes().contains(e) ==> exists|i: int| 0 <= i < r.len()
                && r@[i] == (SetRoute { message: e.message, destination: e.dst_net, via: e.gw, metric: Some(e.metric) }),
    {
        let all = self.registry.all_routes();
        let mut r: Vec<SetRoute> = Vec::new();
        let mut i: usize = 0;
        while i < all.len()
            invariant
                0 <= i <= all.len(),
                r.len() == i,
                forall|j: int| 0 <= j < i ==> #[trigger] r@[j] == (SetRoute {
                    message: all@[j].0,
                    destination: all@[j].1,
                    via: all@[j].2,
                    metric: Some(all@[j].3),
                }),
            decreases all.len() - i,
        {
            r.push(SetRoute::from_route(all[i]));
            i = i + 1;
        }
        proof {
            assert forall|i: int| 0 <= i < r.len() implies #[trigger] r@[i].metric is Some && old(self).routes().contains(
                RouteEntry { message: r@[i].message, dst_net: r@[i].destination, gw: r@[i].via, metric: r@[i].metric->0 },
            ) by {
                assert(self.registry@.contains(RouteEntry::from_tuple(all@[i])));
            }
            assert forall|e: RouteEntry| #[trigger] old(self).routes().contains(e) implies exists|i: int| 0 <= i < r.len()
                && r@[i] == (SetRoute { message: e.message, destination: e.dst_net, via: e.gw, metric: Some(e.metric) }) by {
                let i = choose|i: int| 0 <= i < all.len() && all@[i] == e.as_tuple();
                assert(r@[i] == (SetRoute { message: e.message, destination: e.dst_net, via: e.gw, metric: Some(e.metric) }));
            }
        }
        self.put_subscriber(watch, deliver_to);
        r
    }

    fn put_subscriber(&mut self, watch: u64, deliver_to: Address)
        requires
            old(self).wf(),
        ensures
            final(self).wf(),
            final(self).subscribers() == old(self).subscribers().insert(watch, deliver_to),
            final(self).routes() == old(self).routes(),
            final(self).local() == old(self).local(),
            final(self).watches() == old(self).watches(),
            final(self).slot_count() == old(self).slot_count(),
    {
        broadcast use vstd::std_specs::hash::group_hash_axioms;

        self.subscribers.insert(watch, deliver_to);
    }

    /// The address of each subscriber, each subscriber once.
    fn subscriber_addresses(&self) -> (r: Vec<Address>)
        requires
            self.wf(),
        ensures
            r.len() == self.subscribers().dom().len(),
            forall|a: Address| r@.contains(a) <==> #[trigger] subscribed(self.subscribers(), a),
    {
        broadcast use vstd::std_specs::hash::group_hash_axioms;

        let mut r: Vec<Address> = Vec::new();
        for a in it: self.subscribers.values()
            invariant
                r.len() == it.index(),
                forall|j: int| 0 <= j < r.len() ==> #[trigger] r@[j] == *it.seq()[j],
        {
            r.push(*a);
        }
        proof {
            let vals = vstd::std_specs::hash::spec_values_iter(&self.subscribers).remaining();
            assert(r@ =~= vals.unref());
            assert forall|a: Address| r@.contains(a) <==> #[trigger] subscribed(self.subscribers(), a) by {
                assert(vals.unref().to_set().contains(a) <==> r@.contains(a));
                assert(self.subscribers@.values().contains(a) <==> subscribed(self.subscribers(), a));
            }
        }
        r
    }

    #[verifier::loop_isolation(false)]
    fn is_local(&self, range: AddressRange) -> (r: bool)
        ensures
            r == overlaps_local(self.local(), range),
    {
        let mut i: usize = 0;
        while i < self.local_subnets.len()
            invariant
                0 <= i <= self.local_subnets.len(),
                forall|j: int| 0 <= j < i ==> !(#[trigger] self.local_subnets@[j]).spec_overlaps(range),
            decreases self.local_subnets.len() - i,
        {
            if self.local_subnets[i].overlaps(&range) {
                assert(self.local_subnets@[i as int].spec_overlaps(range));
                return true;
            }
            i = i + 1;
        }
        false
    }

    /// A route update: applied to the routes and, where applied, the change of
    /// the destination's ingress worker, the gateway to watch, and the
    /// subscribers to tell. A refused update changes nothing.
    pub fn set_route(&mut self, update: SetRoute) -> (r: Result<RouteUpdateEffects, SetRouteError>)
        requires
            old(self).wf(),
            old(self).slot_count() < SLOTS_MAX,
        ensures
            final(self).wf(),
            final(self).local() == old(self).local(),
            final(self).watches() == old(self).watches(),
            final(self).subscribers() == old(self).subscribers(),
            final(self).slot_count() <= old(self).slot_count() + 1,
            r is Err <==> set_route_blocked(old(self).routes(), update.message, update.destination, update.via, update.metric),
            r is Err ==> final(self).routes() == old(self).routes(),
            r matches Ok(fx) ==> {
                &&& final(self).routes() == routes_after(
                    old(self).routes(),
                    update.message,
                    update.destination,
                    update.via,
                    update.metric,
                )
                &&& fx.ingress == ingress_change(
                    overlaps_local(old(self).local(), update.destination.spec_range()),
                    has_net(old(self).routes(), update.destination),
                    has_net(final(self).routes(), update.destination),
                )
                &&& fx.watch_gw == match update.via {
                    Some(gw) => if is_watched(old(self).watches(), gw) {
                        None
                    } else {
                        Some(gw)
                    },
                    None => None,
                }
                &&& fx.announce_to.len() == old(self).subscribers().len()
                &&& forall|a: Address| fx.announce_to@.contains(a) <==> #[trigger] subscribed(old(self).subscribers(), a)
            },
    {
        let local = self.is_local(AddressRange::from_net(update.destination));
        let before = self.registry.contains_net(update.destination);
        match self.registry.set_route(update.message, update.destination, update.via, update.metric) {
            Err(e) => {
                return Err(e);
            },
            Ok(_) => {},
        }
        let after = self.registry.contains_net(update.destination);
        let ingress = if local {
            IngressChange::Nothing
        } else if before && !after {
            IngressChange::Stop
        } else if !before && after {
            IngressChange::Start
        } else {
            IngressChange::Nothing
        };
        let watch_gw = match update.via {
            Some(gw) => if gw_watches_contains_gw(&self.route_gws, gw) {
                None
            } else {
                Some(gw)
            },
            None => None,
        };
        let announce_to = self.subscriber_addresses();
        Ok(RouteUpdateEffects { ingress, watch_gw, announce_to })
    }

    /// The gateway `gw` is now watched under `watch`.
    pub fn gw_watched(&mut self, watch: u64, gw: Address)
        requires
            old(self).wf(),
            !old(self).watches().contains_key(watch),
            forall|w: u64| #[trigger] old(self).watches().contains_key(w) ==> old(self).watches()[w] != gw,
        ensures
            final(self).wf(),
            final(self).watches() == old(self).watches().insert(watch, gw),
            final(self).routes() == old(self).routes(),
            final(self).local() == old(self).local(),
            final(self).subscribers() == old(self).subscribers(),
            final(self).slot_count() == old(self).slot_count(),
    {
        gw_watches_insert(&mut self.route_gws, watch, gw);
    }

    /// A watch fired because `peer` is gone. A subscriber's watch drops the
    /// subscriber; a gateway's watch drops the watch and asks to remove every
    /// route through `peer`.
    #[verifier::loop_isolation(false)]
    pub fn watch_lost(&mut self, watch: u64, peer: Address) -> (r: WatchLost)
        requires
            old(self).wf(),
        ensures
            final(self).wf(),
            final(self).routes() == old(self).routes(),
            final(self).local() == old(self).local(),
            final(self).slot_count() == old(self).slot_count(),
            old(self).subscribers().contains_key(watch) ==> r is Subscriber
                && final(self).subscribers() == old(self).subscribers().remove(watch)
                && final(self).watches() == old(self).watches(),
            !old(self).subscribers().contains_key(watch) && old(self).watches().contains_key(watch) ==> match r {
                WatchLost::Gateway(removals) => {
                    &&& final(self).watches() == old(self).watches().remove(watch)
                    &&& final(self).subscribers() == old(self).subscribers()
                    &&& forall|i: int| 0 <= i < removals.len() ==> #[trigger] removals@[i].via == Some(peer)
                        && removals@[i].metric is None
                        && has_route_via(old(self).routes(), removals@[i].message, removals@[i].destination, peer)
                    &&& forall|e: RouteEntry| #[trigger] old(self).routes().contains(e) && e.gw == Some(peer) ==> exists|i: int|
                        0 <= i < removals.len() && removals@[i] == (SetRoute {
                            message: e.message,
                            destination: e.dst_net,
                            via: Some(peer),
                            metric: None,
                        })
                },
                _ => false,
            },
            !old(self).subscribers().contains_key(watch) && !old(self).watches().contains_key(watch) ==> r is Unknown
                && final(self).watches() == old(self).watches() && final(self).subscribers() == old(self).subscribers(),
    {
        broadcast use vstd::std_specs::hash::group_hash_axioms;

        if self.subscribers.remove(&watch).is_some() {
            return WatchLost::Subscriber;
        }
        if !gw_watches_contains_watch(&self.route_gws, watch) {
            return WatchLost::Unknown;
        }
        gw_watches_remove(&mut self.route_gws, watch);
        let routes = self.registry.all_routes_by_gw(peer);
        let mut removals: Vec<SetRoute> = Vec::new();
        let mut j: usize = 0;
        while j < routes.len()
            invariant
                0 <= j <= routes.len(),
                removals.len() == j,
                forall|k: int| 0 <= k < j ==> #[trigger] removals@[k] == (SetRoute {
                    message: routes@[k].0,
                    destination: routes@[k].1,
                    via: Some(peer),
                    metric: None,
                }),
            decreases routes.len() - j,
        {
            let (message, destination, _metric) = routes[j];
            removals.push(SetRoute { message, destination, via: Some(peer), metric: None });
            j = j + 1;
        }
        proof {
            assert forall|k: int| 0 <= k < removals.len() implies #[trigger] removals@[k].via == Some(peer)
                && removals@[k].metric is None
                && has_route_via(old(self).routes(), removals@[k].message, removals@[k].destination, peer) by {
                let e = RouteEntry { message: routes@[k].0, dst_net: routes@[k].1, gw: Some(peer), metric: routes@[k].2 };
                assert(self.registry@.contains(e));
            }
            assert forall|e: RouteEntry| #[trigger] old(self).routes().contains(e) && e.gw == Some(peer) implies exists|k: int|
                0 <= k < removals.len() && removals@[k] == (SetRoute {
                    message: e.message,
                    destination: e.dst_net,
                    via: Some(peer),
                    metric: None,
                }) by {
                let k = choose|k: int| 0 <= k < routes.len() && routes@[k] == (e.message, e.dst_net, e.metric);
                assert(removals@[k] == (SetRoute { message: e.message, destination: e.dst_net, via: Some(peer), metric: None }));
            }
        }
        WatchLost::Gateway(removals)
    }
}

/// A local subnet never gets an ingress worker, whatever the routes to it.
pub proof fn law_local_subnets_have_no_ingress(before: bool, after: bool)
    ensures
        ingress_change(true, before, after) == IngressChange::Nothing,
{
}

/// The worker that the first route to a remote subnet starts is stopped by the
/// removal of its last route.
pub proof fn law_ingress_follows_routes()
    ensures
        ingress_change(false, false, true) == IngressChange::Start,
        ingress_change(false, true, false) == IngressChange::Stop,
        ingress_change(false, true, true) == IngressChange::Nothing,
        ingress_change(false, false, false) == IngressChange::Nothing,
{
}

} // verus!
