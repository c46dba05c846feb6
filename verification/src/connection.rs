//! The decisions of a connection to a peer node: which route changes it
//! reports to the peer, how it maps the peer's type keys to its own, and what
//! becomes of a message that arrives.

use std::collections::HashMap;

use vstd::prelude::*;

use crate::address::{Address, AddressRange, NetAddress};
use crate::assoc::{assoc_view, keys_unique, lemma_assoc_absent, lemma_assoc_index, lemma_assoc_push};
use crate::proto::SetRoute;
use crate::route_registry::{
    conflict_reported, is_best_route, routes_after, set_route_blocked, FindRouteError, RouteEntry, RouteRegistry, SetRouteError,
};
use crate::slots::SLOTS_MAX;
use crate::type_keys::{ForeignTypeKey, LocalTypeKey};

verus! {

/// The metric of the best route for messages of type `message` to the address
/// `a`, if any route serves it.
pub open spec fn best_metric(v: Set<RouteEntry>, message: LocalTypeKey, a: u64) -> Option<u8> {
    if exists|e: RouteEntry| #[trigger] is_best_route(v, message, a, e) {
        Some((choose|e: RouteEntry| #[trigger] is_best_route(v, message, a, e)).metric)
    } else {
        None
    }
}

/// The metric at which a registry routes messages of type `message` to `a`.
pub fn route_metric(reg: &RouteRegistry, message: LocalTypeKey, a: Address) -> (r: Option<u8>)
    requires
        reg.wf(),
    ensures
        r == best_metric(reg@, message, a.0),
{
    match reg.find_route(message, a) {
        Ok((_, m)) => {
            proof {
                let e = choose|e: RouteEntry| #[trigger] is_best_route(reg@, message, a.0, e) && e.metric == m;
                let e2 = choose|e: RouteEntry| #[trigger] is_best_route(reg@, message, a.0, e);
                assert(is_best_route(reg@, message, a.0, e2));
                assert(e2.metric <= e.metric && e.metric <= e2.metric);
            }
            Some(m)
        },
        Err(FindRouteError::NoRoute) => {
            proof {
                assert forall|e: RouteEntry| !#[trigger] is_best_route(reg@, message, a.0, e) by {
                    if is_best_route(reg@, message, a.0, e) {
                        assert(reg@.contains(e));
                    }
                }
            }
            None
        },
    }
}

/// One route update applied to the routes `v` of a connection: `None` when it
/// is refused; else the new routes and whether the peer is told, which it is
/// when the best metric at the start of the destination changed, unless the
/// update came through this very connection (`own_gw`).
pub open spec fn route_update(v: Set<RouteEntry>, own_gw: Address, u: SetRoute) -> Option<(Set<RouteEntry>, bool)> {
    if set_route_blocked(v, u.message, u.destination, u.via, u.metric) {
        None
    } else {
        let v2 = routes_after(v, u.message, u.destination, u.via, u.metric);
        let probe = u.destination.spec_lo();
        let changed = best_metric(v, u.message, probe) != best_metric(v2, u.message, probe);
        Some((v2, changed && (u.via is None || u.via->0 != own_gw)))
    }
}

/// The updates `s` applied in turn: the routes after them, the updates that
/// are reported to the peer, and whether one was refused (the ones after it
/// are not applied).
pub open spec fn route_updates(v: Set<RouteEntry>, own_gw: Address, s: Seq<SetRoute>) -> (Set<RouteEntry>, Seq<SetRoute>, bool)
    decreases s.len(),
{
    if s.len() == 0 {
        (v, Seq::empty(), false)
    } else {
        let (v1, reports, refused) = route_updates(v, own_gw, s.drop_last());
        if refused {
            (v1, reports, true)
        } else {
            match route_update(v1, own_gw, s.last()) {
                None => (v1, reports, true),
                Some((v2, report)) => (v2, if report { reports.push(s.last()) } else { reports }, false),
            }
        }
    }
}

/// The update `u` is refused on the routes `v`, naming the subnet `c`.
pub open spec fn refused_with(v: Set<RouteEntry>, u: SetRoute, c: NetAddress) -> bool {
    set_route_blocked(v, u.message, u.destination, u.via, u.metric)
        && conflict_reported(v, u.message, u.destination, u.via, u.metric, c)
}

/// Among the updates `s` applied in turn to `v`, the first refused one names
/// the subnet `c`.
pub open spec fn first_refusal_names(v: Set<RouteEntry>, own_gw: Address, s: Seq<SetRoute>, c: NetAddress) -> bool {
    exists|k: int|
        0 <= k < s.len() && !route_updates(v, own_gw, s.take(k)).2
            && #[trigger] refused_with(route_updates(v, own_gw, s.take(k)).0, s[k], c)
}

/// Applies route updates to the routes of a connection, in order, and returns
/// the ones to report to the peer; the first refused update ends it with its
/// error.
pub fn handle_set_routes(reg: &mut RouteRegistry, own_gw: Address, routes: &Vec<SetRoute>) -> (r: (
    Vec<SetRoute>,
    Result<(), SetRouteError>,
))
    requires
        old(reg).wf(),
        old(reg).slot_count() + routes.len() < SLOTS_MAX,
    ensures
        final(reg).wf(),
        final(reg)@ == route_updates(old(reg)@, own_gw, routes@).0,
        r.0@ == route_updates(old(reg)@, own_gw, routes@).1,
        r.1 is Err <==> route_updates(old(reg)@, own_gw, routes@).2,
        r.1 matches Err(SetRouteError::Conflict(c)) ==> first_refusal_names(old(reg)@, own_gw, routes@, c),
{
    let ghost v0 = reg@;
    let mut reports: Vec<SetRoute> = Vec::new();
    let mut i: usize = 0;
    while i < routes.len()
        invariant
            0 <= i <= routes.len(),
            reg.wf(),
            reg.slot_count() <= old(reg).slot_count() + i,
            old(reg).slot_count() + routes.len() < SLOTS_MAX,
            v0 == old(reg)@,
            route_updates(v0, own_gw, routes@.take(i as int)) == (reg@, reports@, false),
        decreases routes.len() - i,
    {
        let u = routes[i];
        let ghost v1 = reg@;
        let probe = Address(u.destination.lo());
        let before = route_metric(reg, u.message, probe);
        proof {
            assert(routes@.take(i + 1).drop_last() =~= routes@.take(i as int));
            assert(routes@.take(i + 1).last() == u);
        }
        match reg.set_route(u.message, u.destination, u.via, u.metric) {
            Ok(_) => {},
            Err(e) => {
                proof {
                    assert(routes@.take(routes.len() as int) =~= routes@);
                    lemma_route_updates_refused(v0, own_gw, routes@, i as int + 1);
                    match e {
                        SetRouteError::Conflict(c) => {
                            assert(refused_with(route_updates(v0, own_gw, routes@.take(i as int)).0, routes@[i as int], c));
                            assert(!route_updates(old(reg)@, own_gw, routes@.take(i as int)).2);
                            assert(refused_with(route_updates(old(reg)@, own_gw, routes@.take(i as int)).0, routes@[i as int], c));
                            assert(first_refusal_names(old(reg)@, own_gw, routes@, c));
                        },
                    }
                }
                return (reports, Err(e));
            },
        }
        let after = route_metric(reg, u.message, probe);
        let report = match (before, after) {
            (Some(b), Some(a)) => b != a,
            (None, None) => false,
            _ => true,
        } && match u.via {
            None => true,
            Some(gw) => gw != own_gw,
        };
        if report {
            reports.push(u);
        }
        i = i + 1;
    }
    proof {
        assert(routes@.take(routes.len() as int) =~= routes@);
    }
    (reports, Ok(()))
}

/// Once an update is refused, the later ones change nothing.
proof fn lemma_route_updates_refused(v: Set<RouteEntry>, own_gw: Address, s: Seq<SetRoute>, n: int)
    requires
        0 <= n <= s.len(),
        route_updates(v, own_gw, s.take(n)).2,
    ensures
        route_updates(v, own_gw, s) == route_updates(v, own_gw, s.take(n)),
    decreases s.len() - n,
{
    if n < s.len() {
        assert(s.take(n + 1).drop_last() =~= s.take(n));
        lemma_route_updates_refused(v, own_gw, s, n + 1);
    } else {
        assert(s.take(n) =~= s);
    }
}

/// The peer declared a foreign key twice.
#[derive(Debug, Clone, Copy, PartialEq, Eq, Structural)]
pub struct DuplicateTypeDeclaration(pub ForeignTypeKey);

/// A foreign key that the peer never declared.
#[derive(Debug, Clone, Copy, PartialEq, Eq, Structural)]
pub struct UnregisteredForeignKey(pub ForeignTypeKey);

/// What becomes of a type that the peer declares.
#[derive(Debug, Clone, Copy, PartialEq, Eq, Structural)]
pub enum TypeDeclared {
    /// A type of this node's protocols: its foreign key now stands for this
    /// local key.
    Known(LocalTypeKey),
    /// A type that this node does not know: register it as an opaque message
    /// and bind the foreign key to the key it gets.
    Opaque,
}

pub open spec fn name_entries(s: Seq<(String, LocalTypeKey)>) -> Seq<(Seq<char>, u64)> {
    Seq::new(s.len(), |i: int| (s[i].0@, s[i].1.0))
}

/// The peer's type keys and the local keys they stand for, by the value of
/// the foreign key.
pub struct TypeKeyMap {
    map: HashMap<u64, u64>,
}

impl View for TypeKeyMap {
    type V = Map<u64, u64>;

    closed spec fn view(&self) -> Map<u64, u64> {
        self.map@
    }
}

/// What a delivered message becomes.
#[derive(Debug, Clone, Copy, PartialEq, Eq, Structural)]
pub enum Arrival {
    /// Its address is in a local subnet: decode it with the codec of this key
    /// and deliver it.
    Deliver(LocalTypeKey),
    /// Forward it, as bytes of this type, towards its address.
    Forward(LocalTypeKey),
}

/// The address is in one of the local subnets.
pub open spec fn is_local(local_subnets: Seq<AddressRange>, a: u64) -> bool {
    exists|i: int| 0 <= i < local_subnets.len() && (#[trigger] local_subnets[i]).spec_contains(a)
}

impl TypeKeyMap {
    pub closed spec fn wf(&self) -> bool {
        self.map@.dom().finite()
    }

    pub fn new() -> (r: Self)
        ensures
            r.wf(),
            r@ =~= Map::empty(),
    {
        broadcast use vstd::std_specs::hash::group_hash_axioms;

        TypeKeyMap { map: HashMap::new() }
    }

    /// The local key that a foreign key stands for.
    pub fn local_key(&self, fkey: ForeignTypeKey) -> (r: Option<LocalTypeKey>)
        requires
            self.wf(),
        ensures
            r is Some <==> self@.contains_key(fkey.0),
            r matches Some(l) ==> self@[fkey.0] == l.0,
    {
        broadcast use vstd::std_specs::hash::group_hash_axioms;

        match self.map.get(&fkey.0) {
            Some(l) => Some(LocalTypeKey(*l)),
            None => None,
        }
    }

    /// Binds a foreign key that has no local key yet.
    pub fn bind(&mut self, fkey: ForeignTypeKey, lkey: LocalTypeKey)
        requires
            old(self).wf(),
            !old(self)@.contains_key(fkey.0),
        ensures
            final(self).wf(),
            final(self)@ == old(self)@.insert(fkey.0, lkey.0),
    {
        broadcast use vstd::std_specs::hash::group_hash_axioms;

        self.map.insert(fkey.0, lkey.0);
    }

    /// The peer declares the type `name` under `fkey`. A foreign key declared
    /// before is refused; a name among this connection's inbound types is
    /// bound to its local key; another name is to be registered as opaque.
    #[verifier::loop_isolation(false)]
    pub fn declare_type(&mut self, fkey: ForeignTypeKey, name: &String, inbound_by_name: &Vec<(String, LocalTypeKey)>) -> (r: Result<
        TypeDeclared,
        DuplicateTypeDeclaration,
    >)
        requires
            old(self).wf(),
            keys_unique(name_entries(inbound_by_name@)),
        ensures
            final(self).wf(),
            old(self)@.contains_key(fkey.0) ==> r == Err::<TypeDeclared, _>(DuplicateTypeDeclaration(fkey))
                && final(self)@ == old(self)@,
            !old(self)@.contains_key(fkey.0) ==> {
                let by_name = assoc_view(name_entries(inbound_by_name@));
                if by_name.contains_key(name@) {
                    r matches Ok(TypeDeclared::Known(l)) && l.0 == by_name[name@]
                        && final(self)@ == old(self)@.insert(fkey.0, l.0)
                } else {
                    r == Ok::<_, DuplicateTypeDeclaration>(TypeDeclared::Opaque) && final(self)@ == old(self)@
                }
            },
    {
        if self.local_key(fkey).is_some() {
            return Err(DuplicateTypeDeclaration(fkey));
        }
        let mut i: usize = 0;
        let mut found: Option<LocalTypeKey> = None;
        while i < inbound_by_name.len()
            invariant
                0 <= i <= inbound_by_name.len(),
                found is None,
                forall|j: int| 0 <= j < i ==> inbound_by_name@[j].0@ != name@,
            decreases inbound_by_name.len() - i,
        {
            if inbound_by_name[i].0 == *name {
                proof {
                    lemma_assoc_index(name_entries(inbound_by_name@), i as int);
                }
                found = Some(inbound_by_name[i].1);
                break;
            }
            i = i + 1;
        }
        if let Some(l) = found {
            self.bind(fkey, l);
            return Ok(TypeDeclared::Known(l));
        }
        proof {
            lemma_assoc_absent(name_entries(inbound_by_name@), name@);
        }
        Ok(TypeDeclared::Opaque)
    }

    /// The peer reaches `net_address` for messages of its type `fkey` at
    /// `metric`: through this connection (`gw`) it is one step further. The
    /// metric stops at its largest value, which the peer may already send.
    pub fn subnet_distance(&self, gw: Address, net_address: NetAddress, fkey: ForeignTypeKey, metric: Option<u8>) -> (r: Result<
        SetRoute,
        UnregisteredForeignKey,
    >)
        requires
            self.wf(),
        ensures
            r is Err <==> !self@.contains_key(fkey.0),
            r matches Err(e) ==> e == UnregisteredForeignKey(fkey),
            r matches Ok(u) ==> u.message.0 == self@[fkey.0] && u.destination == net_address && u.via == Some(gw)
                && u.metric == (match metric {
                    Some(m) => Some(if m < u8::MAX { (m + 1) as u8 } else { u8::MAX }),
                    None => None,
                }),
    {
        match self.local_key(fkey) {
            None => Err(UnregisteredForeignKey(fkey)),
            Some(l) => {
                let metric = match metric {
                    Some(m) => Some(if m < u8::MAX { m + 1 } else { u8::MAX }),
                    None => None,
                };
                Ok(SetRoute { message: l, destination: net_address, via: Some(gw), metric })
            },
        }
    }

    /// A message of the peer's type `fkey` for `dst` arrived: it is delivered
    /// where `dst` is in a local subnet, else forwarded.
    #[verifier::loop_isolation(false)]
    pub fn received_message(&self, local_subnets: &Vec<AddressRange>, dst: Address, fkey: ForeignTypeKey) -> (r: Result<
        Arrival,
        UnregisteredForeignKey,
    >)
        requires
            self.wf(),
        ensures
            r is Err <==> !self@.contains_key(fkey.0),
            r matches Err(e) ==> e == UnregisteredForeignKey(fkey),
            r matches Ok(Arrival::Deliver(l)) ==> l.0 == self@[fkey.0] && is_local(local_subnets@, dst.0),
            r matches Ok(Arrival::Forward(l)) ==> l.0 == self@[fkey.0] && !is_local(local_subnets@, dst.0),
    {
        let l = match self.local_key(fkey) {
            None => {
                return Err(UnregisteredForeignKey(fkey));
            },
            Some(l) => l,
        };
        let mut i: usize = 0;
        while i < local_subnets.len()
            invariant
                0 <= i <= local_subnets.len(),
                forall|j: int| 0 <= j < i ==> !(#[trigger] local_subnets@[j]).spec_contains(dst.0),
            decreases local_subnets.len() - i,
        {
            if local_subnets[i].contains(dst) {
                assert((local_subnets@[i as int]).spec_contains(dst.0));
                return Ok(Arrival::Deliver(l));
            }
            i = i + 1;
        }
        Ok(Arrival::Forward(l))
    }
}

/// A local key declared to the peer under two names.
#[derive(Debug, Clone, Copy, PartialEq, Eq, Structural)]
pub struct DeclarationConflict(pub LocalTypeKey);

pub open spec fn declared_entries(s: Seq<(LocalTypeKey, String)>) -> Seq<(u64, Seq<char>)> {
    Seq::new(s.len(), |i: int| (s[i].0.0, s[i].1@))
}

/// The local keys declared to the peer, with their names.
pub struct DeclaredTypes {
    declared: Vec<(LocalTypeKey, String)>,
}

impl View for DeclaredTypes {
    type V = Map<u64, Seq<char>>;

    closed spec fn view(&self) -> Map<u64, Seq<char>> {
        assoc_view(declared_entries(self.declared@))
    }
}

impl DeclaredTypes {
    pub closed spec fn wf(&self) -> bool {
        keys_unique(declared_entries(self.declared@))
    }

    pub fn new() -> (r: Self)
        ensures
            r.wf(),
            r@ =~= Map::empty(),
    {
        let r = DeclaredTypes { declared: Vec::new() };
        assert(declared_entries(r.declared@) =~= Seq::empty());
        r
    }

    fn find(&self, key: LocalTypeKey) -> (r: Option<usize>)
        requires
            self.wf(),
        ensures
            r matches Some(i) ==> i < self.declared.len() && self.declared@[i as int].0 == key
                && self@.contains_key(key.0) && self@[key.0] == self.declared@[i as int].1@,
            r is None ==> !self@.contains_key(key.0),
    {
        let mut i: usize = 0;
        while i < self.declared.len()
            invariant
                0 <= i <= self.declared.len(),
                self.wf(),
                forall|j: int| 0 <= j < i ==> self.declared@[j].0 != key,
            decreases self.declared.len() - i,
        {
            if self.declared[i].0 == key {
                proof {
                    lemma_assoc_index(declared_entries(self.declared@), i as int);
                }
                return Some(i);
            }
            i = i + 1;
        }
        proof {
            lemma_assoc_absent(declared_entries(self.declared@), key.0);
        }
        None
    }

    /// Whether the key was declared to the peer.
    pub fn is_declared(&self, key: LocalTypeKey) -> (r: bool)
        requires
            self.wf(),
        ensures
            r == self@.contains_key(key.0),
    {
        self.find(key).is_some()
    }

    /// Records the declaration of a key not declared yet.
    pub fn record(&mut self, key: LocalTypeKey, name: String)
        requires
            old(self).wf(),
            !old(self)@.contains_key(key.0),
        ensures
            final(self).wf(),
            final(self)@ == old(self)@.insert(key.0, name@),
    {
        let ghost e = declared_entries(self.declared@);
        proof {
            lemma_assoc_push(e, key.0, name@);
        }
        let ghost nv = name@;
        self.declared.push((key, name));
        assert(declared_entries(self.declared@) =~= e.push((key.0, nv)));
    }

    /// A declaration of `key` as `name`: `Ok(true)` when it is to be written to
    /// the peer (it is recorded), `Ok(false)` when the same declaration was
    /// made, and an error when the key was declared under another name.
    pub fn declare(&mut self, key: LocalTypeKey, name: String) -> (r: Result<bool, DeclarationConflict>)
        requires
            old(self).wf(),
        ensures
            final(self).wf(),
            !old(self)@.contains_key(key.0) ==> r == Ok::<bool, DeclarationConflict>(true)
                && final(self)@ == old(self)@.insert(key.0, name@),
            old(self)@.contains_key(key.0) && old(self)@[key.0] == name@ ==> r == Ok::<bool, DeclarationConflict>(false)
                && final(self)@ == old(self)@,
            old(self)@.contains_key(key.0) && old(self)@[key.0] != name@ ==> r == Err::<bool, _>(DeclarationConflict(key))
                && final(self)@ == old(self)@,
    {
        match self.find(key) {
            Some(i) => {
                if self.declared[i].1 == name {
                    Ok(false)
                } else {
                    Err(DeclarationConflict(key))
                }
            },
            None => {
                self.record(key, name);
                Ok(true)
            },
        }
    }
}


/// An update that came through this very connection is never reported back
/// to the peer.
pub proof fn law_own_updates_not_reported(v: Set<RouteEntry>, own_gw: Address, u: SetRoute)
    requires
        u.via == Some(own_gw),
    ensures
        route_update(v, own_gw, u) matches Some((_, report)) ==> !report,
{
}

/// An update that changes nothing of the best route is not reported.
pub proof fn law_unchanged_best_metric_not_reported(v: Set<RouteEntry>, own_gw: Address, u: SetRoute)
    requires
        !set_route_blocked(v, u.message, u.destination, u.via, u.metric),
        best_metric(v, u.message, u.destination.spec_lo()) == best_metric(
            routes_after(v, u.message, u.destination, u.via, u.metric),
            u.message,
            u.destination.spec_lo(),
        ),
    ensures
        route_update(v, own_gw, u) matches Some((_, report)) && !report,
{
}

} // verus!
