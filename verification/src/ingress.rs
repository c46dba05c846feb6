//! The ingress of a remote subnet: it receives the messages sent to the
//! subnet's addresses on this node and forwards each to the gateway of the
//! best route for its type.

use vstd::prelude::*;

use crate::address::{Address, NetAddress};
use crate::codec::TypeTag;
use crate::proto::SetRoute;
use crate::route_registry::{is_best_route, routes_after, set_route_blocked, RouteEntry, RouteRegistry, SetRouteError};
use crate::slots::SLOTS_MAX;
use crate::type_keys::LocalTypeKey;

verus! {

/// The route updates for `net` in `s`, applied in turn to `v`: the routes
/// after them, or `None` where one is refused. Updates for other subnets are
/// skipped.
pub open spec fn net_routes_applied(v: Set<RouteEntry>, net: NetAddress, s: Seq<SetRoute>) -> Option<Set<RouteEntry>>
    decreases s.len(),
{
    if s.len() == 0 {
        Some(v)
    } else {
        match net_routes_applied(v, net, s.drop_last()) {
            None => None,
            Some(v1) => {
                let u = s.last();
                if u.destination != net {
                    Some(v1)
                } else if set_route_blocked(v1, u.message, u.destination, u.via, u.metric) {
                    None
                } else {
                    Some(routes_after(v1, u.message, u.destination, u.via, u.metric))
                }
            },
        }
    }
}

/// Where a message that reached the ingress goes.
#[derive(Debug, Clone, Copy, PartialEq, Eq, Structural)]
pub enum IngressRoute {
    /// No route serves it: it is dropped.
    NoRoute,
    /// The best route is local: it is dropped, as a local subnet does not
    /// route through an ingress.
    LocalSubnet,
    /// Forward it to this gateway.
    Forward(Address),
}

/// The state of a subnet's ingress: the routes to the subnet and the keys of
/// the Rust types it has resolved.
pub struct SubnetIngress {
    net_address: NetAddress,
    routes: RouteRegistry,
    tid_cache: Vec<(TypeTag, LocalTypeKey)>,
}

impl SubnetIngress {
    pub closed spec fn net(&self) -> NetAddress {
        self.net_address
    }

    pub closed spec fn routes(&self) -> Set<RouteEntry> {
        self.routes@
    }

    pub closed spec fn slot_count(&self) -> nat {
        self.routes.slot_count()
    }

    /// The resolved type keys, most recent last.
    pub closed spec fn cache(&self) -> Seq<(TypeTag, LocalTypeKey)> {
        self.tid_cache@
    }

    pub closed spec fn wf(&self) -> bool {
        self.routes.wf()
    }

    /// The ingress of `net`, with the routes to it among `initial`; refused
    /// where one of them is.
    #[verifier::loop_isolation(false)]
    pub fn new(net: NetAddress, initial: &Vec<SetRoute>) -> (r: Result<Self, SetRouteError>)
        requires
            initial.len() < SLOTS_MAX,
        ensures
            r is Ok <==> net_routes_applied(Set::empty(), net, initial@) is Some,
            r matches Ok(ing) ==> ing.wf() && ing.net() == net && Some(ing.routes()) == net_routes_applied(
                Set::empty(),
                net,
                initial@,
            ) && ing.cache().len() == 0 && ing.slot_count() <= initial.len(),
    {
        let mut routes = RouteRegistry::new();
        let mut i: usize = 0;
        while i < initial.len()
            invariant
                0 <= i <= initial.len(),
                routes.wf(),
                routes.slot_count() <= i,
                net_routes_applied(Set::empty(), net, initial@.take(i as int)) == Some(routes@),
            decreases initial.len() - i,
        {
            let u = initial[i];
            proof {
                assert(initial@.take(i + 1).drop_last() =~= initial@.take(i as int));
                assert(initial@.take(i + 1).last() == u);
            }
            if u.destination == net {
                match routes.set_route(u.message, u.destination, u.via, u.metric) {
                    Ok(_) => {},
                    Err(e) => {
                        proof {
                            lemma_applied_fails(net, initial@, i as int + 1);
                        }
                        return Err(e);
                    },
                }
            }
            i = i + 1;
        }
        proof {
            assert(initial@.take(initial.len() as int) =~= initial@);
        }
        Ok(SubnetIngress { net_address: net, routes, tid_cache: Vec::new() })
    }

    /// A route update from the manager: applied if it is for this subnet.
    pub fn on_set_route(&mut self, u: SetRoute) -> (r: Result<(), SetRouteError>)
        requires
            old(self).wf(),
            old(self).slot_count() < SLOTS_MAX,
        ensures
            final(self).wf(),
            final(self).net() == old(self).net(),
            final(self).cache() == old(self).cache(),
            final(self).slot_count() <= old(self).slot_count() + 1,
            r is Err <==> net_routes_applied(old(self).routes(), old(self).net(), seq![u]) is None,
            r is Ok ==> Some(final(self).routes()) == net_routes_applied(old(self).routes(), old(self).net(), seq![u]),
            r is Err ==> final(self).routes() == old(self).routes(),
    {
        proof {
            assert(seq![u].drop_last() =~= Seq::<SetRoute>::empty());
            reveal_with_fuel(net_routes_applied, 2);
        }
        if u.destination == self.net_address {
            match self.routes.set_route(u.message, u.destination, u.via, u.metric) {
                Ok(_) => Ok(()),
                Err(e) => Err(e),
            }
        } else {
            Ok(())
        }
    }

    /// The key cached for a Rust type, the latest if several.
    pub fn cached_type_key(&self, tid: TypeTag) -> (r: Option<LocalTypeKey>)
        ensures
            r == last_key_of(self.cache(), tid),
    {
        let mut i = self.tid_cache.len();
        assert(self.tid_cache@.take(i as int) =~= self.tid_cache@);
        while i > 0
            invariant
                0 <= i <= self.tid_cache.len(),
                last_key_of(self.tid_cache@, tid) == last_key_of(self.tid_cache@.take(i as int), tid),
            decreases i,
        {
            proof {
                assert(self.tid_cache@.take(i as int).drop_last() =~= self.tid_cache@.take(i - 1));
            }
            if self.tid_cache[i - 1].0 == tid {
                return Some(self.tid_cache[i - 1].1);
            }
            i = i - 1;
        }
        None
    }

    /// The manager resolved a Rust type to a key: it is cached.
    pub fn cache_type_key(&mut self, tid: TypeTag, key: LocalTypeKey)
        requires
            old(self).wf(),
        ensures
            final(self).wf(),
            final(self).cache() == old(self).cache().push((tid, key)),
            final(self).routes() == old(self).routes(),
            final(self).net() == old(self).net(),
            final(self).slot_count() == old(self).slot_count(),
    {
        self.tid_cache.push((tid, key));
    }

    /// Where a message of type `key` for `dst` goes: to the gateway of a best
    /// route for it.
    pub fn route(&self, key: LocalTypeKey, dst: Address) -> (r: IngressRoute)
        requires
            self.wf(),
        ensures
            r == IngressRoute::NoRoute <==> forall|e: RouteEntry| #[trigger] self.routes().contains(e) ==> !e.serves(key, dst.0),
            r == IngressRoute::LocalSubnet ==> has_best_via(self.routes(), key, dst.0, None),
            r matches IngressRoute::Forward(gw) ==> has_best_via(self.routes(), key, dst.0, Some(gw)),
    {
        match self.routes.find_route(key, dst) {
            Err(_) => IngressRoute::NoRoute,
            Ok((None, _)) => {
                proof {
                    let e = choose|e: RouteEntry| #[trigger] is_best_route(self.routes@, key, dst.0, e) && e.gw == None::<Address>;
                    assert(self.routes().contains(e) && e.serves(key, dst.0));
                }
                IngressRoute::LocalSubnet
            },
            Ok((Some(gw), _)) => {
                proof {
                    let e = choose|e: RouteEntry| #[trigger] is_best_route(self.routes@, key, dst.0, e) && e.gw == Some(gw);
                    assert(self.routes().contains(e) && e.serves(key, dst.0));
                }
                IngressRoute::Forward(gw)
            },
        }
    }
}

/// Some best route for messages of type `key` to `a` goes via `gw`.
pub open spec fn has_best_via(v: Set<RouteEntry>, key: LocalTypeKey, a: u64, gw: Option<Address>) -> bool {
    exists|e: RouteEntry| #[trigger] is_best_route(v, key, a, e) && e.gw == gw
}

/// The latest key cached for `tid`.
pub open spec fn last_key_of(s: Seq<(TypeTag, LocalTypeKey)>, tid: TypeTag) -> Option<LocalTypeKey>
    decreases s.len(),
{
    if s.len() == 0 {
        None
    } else if s.last().0 == tid {
        Some(s.last().1)
    } else {
        last_key_of(s.drop_last(), tid)
    }
}

/// Once an update is refused, applying more of them is refused too.
proof fn lemma_applied_fails(net: NetAddress, s: Seq<SetRoute>, n: int)
    requires
        0 <= n <= s.len(),
        net_routes_applied(Set::empty(), net, s.take(n)) is None,
    ensures
        net_routes_applied(Set::empty(), net, s) is None,
    decreases s.len() - n,
{
    if n < s.len() {
        assert(s.take(n + 1).drop_last() =~= s.take(n));
        lemma_applied_fails(net, s, n + 1);
    } else {
        assert(s.take(n) =~= s);
    }
}

} // verus!
