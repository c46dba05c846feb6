//! Routes to subnets: for each message type, the gateways through which a
//! destination subnet is reached, and at what metric.

use slotmap::{DefaultKey, Key, KeyData, SlotMap};
use vstd::prelude::*;

use crate::address::{lemma_lo_le_hi, Address, NetAddress};
use crate::slots::{key_is_issued, SLOTS_MAX};
use crate::type_keys::LocalTypeKey;

verus! {

/// How many equally good routes the choice of a gateway picks among.
pub const MAX_CANDIDATES: usize = 4;

/// One route: messages of type `message` for the subnet `dst_net` go via `gw`
/// (or are local when `gw` is `None`) at the cost `metric`.
#[derive(Clone, Copy, Debug, PartialEq, Eq, Structural)]
pub struct RouteEntry {
    pub message: LocalTypeKey,
    pub dst_net: NetAddress,
    pub gw: Option<Address>,
    pub metric: u8,
}

#[derive(Debug)]
pub enum SetRouteError {
    /// The route's subnet overlaps with this other subnet.
    Conflict(NetAddress),
}

#[derive(Debug)]
pub enum FindRouteError {
    NoRoute,
}

impl RouteEntry {
    /// The entry is the route of this message type, destination and gateway.
    pub open spec fn same_route(self, message: LocalTypeKey, dst: NetAddress, gw: Option<Address>) -> bool {
        self.message == message && self.dst_net == dst && self.gw == gw
    }

    /// The entry overlaps `dst` at the same message type and metric but is another subnet.
    pub open spec fn dst_conflict(self, message: LocalTypeKey, dst: NetAddress, metric: u8) -> bool {
        &&& self.message == message
        &&& self.metric == metric
        &&& self.dst_net.spec_range().spec_overlaps(dst.spec_range())
        &&& self.dst_net != dst
    }

    /// The entry overlaps `dst` at the same message type and gateway but is another subnet.
    pub open spec fn gw_conflict(self, message: LocalTypeKey, dst: NetAddress, gw: Option<Address>) -> bool {
        &&& self.message == message
        &&& self.gw == gw
        &&& self.dst_net.spec_range().spec_overlaps(dst.spec_range())
        &&& self.dst_net != dst
    }

    /// The entry routes messages of this type to this address.
    pub open spec fn serves(self, message: LocalTypeKey, a: u64) -> bool {
        self.message == message && self.dst_net.spec_range().spec_contains(a)
    }

    /// The route that a listed tuple stands for.
    pub open spec fn from_tuple(t: (LocalTypeKey, NetAddress, Option<Address>, u8)) -> RouteEntry {
        RouteEntry { message: t.0, dst_net: t.1, gw: t.2, metric: t.3 }
    }

    /// The tuple form in which routes are listed.
    pub open spec fn as_tuple(self) -> (LocalTypeKey, NetAddress, Option<Address>, u8) {
        (self.message, self.dst_net, self.gw, self.metric)
    }
}

/// What a set of routes keeps: subnets are normal; one message type through
/// one gateway never reaches two overlapping subnets; and two overlapping
/// subnets at one message type and metric are the same subnet.
pub open spec fn routes_wf(v: Set<RouteEntry>) -> bool {
    &&& v.finite()
    &&& forall|e: RouteEntry| #[trigger] v.contains(e) ==> e.dst_net.is_normal()
    &&& forall|e1: RouteEntry, e2: RouteEntry|
        #![trigger v.contains(e1), v.contains(e2)]
        v.contains(e1) && v.contains(e2) && e1 != e2 && e1.message == e2.message && e1.gw == e2.gw
            ==> !e1.dst_net.spec_range().spec_overlaps(e2.dst_net.spec_range())
    &&& forall|e1: RouteEntry, e2: RouteEntry|
        #![trigger v.contains(e1), v.contains(e2)]
        v.contains(e1) && v.contains(e2) && e1.message == e2.message && e1.metric == e2.metric
            && e1.dst_net.spec_range().spec_overlaps(e2.dst_net.spec_range())
            ==> e1.dst_net == e2.dst_net
}

/// The route of a message type, destination and gateway, where there is one.
pub open spec fn route_of(v: Set<RouteEntry>, message: LocalTypeKey, dst: NetAddress, gw: Option<Address>) -> Option<RouteEntry> {
    if exists|e: RouteEntry| v.contains(e) && e.same_route(message, dst, gw) {
        Some(choose|e: RouteEntry| v.contains(e) && e.same_route(message, dst, gw))
    } else {
        None
    }
}

/// The metric of the route of a message type, destination and gateway.
pub open spec fn metric_of(v: Set<RouteEntry>, message: LocalTypeKey, dst: NetAddress, gw: Option<Address>) -> Option<u8> {
    match route_of(v, message, dst, gw) {
        Some(e) => Some(e.metric),
        None => None,
    }
}

/// The routes after setting (`Some`) or removing (`None`) the metric of a route.
pub open spec fn routes_after(v: Set<RouteEntry>, message: LocalTypeKey, dst: NetAddress, gw: Option<Address>, set_metric: Option<u8>) -> Set<RouteEntry> {
    let kept = v.filter(|e: RouteEntry| !e.same_route(message, dst, gw));
    match set_metric {
        Some(m) => kept.insert(RouteEntry { message, dst_net: dst, gw, metric: m }),
        None => kept,
    }
}

/// Setting this route would break what the routes keep.
pub open spec fn set_route_blocked(v: Set<RouteEntry>, message: LocalTypeKey, dst: NetAddress, gw: Option<Address>, set_metric: Option<u8>) -> bool {
    ||| !dst.is_normal()
    ||| (exists|e: RouteEntry| #[trigger] v.contains(e) && match set_metric {
        Some(m) => e.dst_conflict(message, dst, m),
        None => false,
    })
    ||| (exists|e: RouteEntry| #[trigger] v.contains(e) && e.gw_conflict(message, dst, gw))
}

/// `c` is a subnet that a refused `set_route` names, in the order in which the
/// checks run: first the subnets at the same metric, then those through the
/// same gateway; a subnet with host bits set conflicts with its normal form.
pub open spec fn conflict_reported(v: Set<RouteEntry>, message: LocalTypeKey, dst: NetAddress, gw: Option<Address>, set_metric: Option<u8>, c: NetAddress) -> bool {
    match set_metric {
        Some(m) if exists|e: RouteEntry| #[trigger] v.contains(e) && e.dst_conflict(message, dst, m) =>
            exists|e: RouteEntry| #[trigger] v.contains(e) && e.dst_conflict(message, dst, m) && e.dst_net == c,
        Some(m) if !dst.is_normal() => c == dst.spec_normalized(),
        _ => if exists|e: RouteEntry| #[trigger] v.contains(e) && e.gw_conflict(message, dst, gw) {
            exists|e: RouteEntry| #[trigger] v.contains(e) && e.gw_conflict(message, dst, gw) && e.dst_net == c
        } else {
            c == dst.spec_normalized()
        },
    }
}

/// The best (lowest) metric at which a message type reaches an address.
pub open spec fn is_best_route(v: Set<RouteEntry>, message: LocalTypeKey, a: u64, e: RouteEntry) -> bool {
    &&& v.contains(e)
    &&& e.serves(message, a)
    &&& forall|e2: RouteEntry| #[trigger] v.contains(e2) && e2.serves(message, a) ==> e.metric <= e2.metric
}

/// `r` answers a search for a route of `message` to the address `a` among
/// the routes `v`: the gateway and metric of a best route, or `NoRoute` where
/// no route serves the address.
pub open spec fn route_found(v: Set<RouteEntry>, message: LocalTypeKey, a: u64, r: Result<(Option<Address>, u8), FindRouteError>) -> bool {
    match r {
        Ok((gw, metric)) => exists|e: RouteEntry| #[trigger] is_best_route(v, message, a, e) && e.gw == gw && e.metric == metric,
        Err(FindRouteError::NoRoute) => forall|e: RouteEntry| #[trigger] v.contains(e) ==> !e.serves(message, a),
    }
}

/// A slot map of routes.
#[verifier::external_body]
pub struct RouteSlots {
    inner: SlotMap<DefaultKey, RouteEntry>,
}

/// Names what a slot map of routes holds, by key.
pub uninterp spec fn route_slots(m: RouteSlots) -> Map<u64, RouteEntry>;

/// `SlotMap::new`: an empty slot map.
#[verifier::external_body]
fn route_slots_new() -> (r: RouteSlots)
    ensures
        route_slots(r) =~= Map::empty(),
{
    RouteSlots { inner: SlotMap::new() }
}

/// `SlotMap::insert`: stores the value under a key that the map did not hold,
/// and returns that key. It panics when the map holds `SLOTS_MAX` values.
#[verifier::external_body]
fn route_slots_insert(m: &mut RouteSlots, v: RouteEntry) -> (k: u64)
    requires
        route_slots(*old(m)).dom().finite(),
        route_slots(*old(m)).dom().len() < SLOTS_MAX,
    ensures
        !route_slots(*old(m)).dom().contains(k),
        key_is_issued(k),
        route_slots(*final(m)) == route_slots(*old(m)).insert(k, v),
{
    m.inner.insert(v).data().as_ffi()
}

/// `SlotMap`'s `IndexMut`: replaces the value under a key that the map holds.
#[verifier::external_body]
fn route_slots_replace(m: &mut RouteSlots, k: u64, v: RouteEntry)
    requires
        key_is_issued(k),
        route_slots(*old(m)).dom().contains(k),
    ensures
        route_slots(*final(m)) == route_slots(*old(m)).insert(k, v),
{
    m.inner[DefaultKey::from(KeyData::from_ffi(k))] = v;
}

/// `SlotMap::remove`: takes the value under a key out of the map.
#[verifier::external_body]
fn route_slots_remove(m: &mut RouteSlots, k: u64) -> (r: Option<RouteEntry>)
    requires
        key_is_issued(k),
    ensures
        route_slots(*final(m)) == route_slots(*old(m)).remove(k),
        r == (if route_slots(*old(m)).dom().contains(k) { Some(route_slots(*old(m))[k]) } else { None }),
{
    m.inner.remove(DefaultKey::from(KeyData::from_ffi(k)))
}

/// `SlotMap::iter`: every key of the map with its value, each once.
#[verifier::external_body]
fn route_slots_list(m: &RouteSlots) -> (r: Vec<(u64, RouteEntry)>)
    ensures
        forall|i: int| 0 <= i < r.len() ==> #[trigger] route_slots(*m).dom().contains(r@[i].0)
            && route_slots(*m)[r@[i].0] == r@[i].1,
        forall|k: u64| #[trigger] route_slots(*m).dom().contains(k)
            ==> exists|i: int| 0 <= i < r.len() && r@[i].0 == k,
        forall|i: int, j: int| 0 <= i < r.len() && 0 <= j < r.len() && i != j ==> r@[i].0 != r@[j].0,
{
    m.inner.iter().map(|(k, v)| (k.data().as_ffi(), *v)).collect()
}

/// `s` lists the keys and values of `c`.
pub open spec fn is_listing(s: Seq<(u64, RouteEntry)>, c: Map<u64, RouteEntry>) -> bool {
    &&& forall|i: int| 0 <= i < s.len() ==> #[trigger] c.dom().contains(s[i].0) && c[s[i].0] == s[i].1
    &&& forall|k: u64| #[trigger] c.dom().contains(k) ==> exists|i: int| 0 <= i < s.len() && s[i].0 == k
    &&& forall|i: int, j: int| 0 <= i < s.len() && 0 <= j < s.len() && i != j ==> s[i].0 != s[j].0
}

/// The set of values of a map of routes.
pub open spec fn values_of(c: Map<u64, RouteEntry>) -> Set<RouteEntry> {
    Set::new(|e: RouteEntry| exists|k: u64| c.dom().contains(k) && c[k] == e)
}

/// The routes known to a node.
pub struct RouteRegistry {
    route_entries: RouteSlots,
}

impl View for RouteRegistry {
    type V = Set<RouteEntry>;

    closed spec fn view(&self) -> Set<RouteEntry> {
        values_of(route_slots(self.route_entries))
    }
}


/// A map with distinct values.
pub open spec fn injective(c: Map<u64, RouteEntry>) -> bool {
    forall|k1: u64, k2: u64|
        #![trigger c[k1], c[k2]]
        c.dom().contains(k1) && c.dom().contains(k2) && c[k1] == c[k2] ==> k1 == k2
}

/// A listing names exactly the values of the map.
proof fn lemma_listing(s: Seq<(u64, RouteEntry)>, c: Map<u64, RouteEntry>)
    requires
        is_listing(s, c),
    ensures
        forall|e: RouteEntry|
            #[trigger] values_of(c).contains(e) <==> exists|i: int| 0 <= i < s.len() && s[i].1 == e,
        forall|i: int| 0 <= i < s.len() ==> #[trigger] values_of(c).contains(s[i].1),
{
    assert forall|e: RouteEntry| #[trigger] values_of(c).contains(e) implies exists|i: int|
        0 <= i < s.len() && s[i].1 == e by {
        let k = choose|k: u64| c.dom().contains(k) && c[k] == e;
        assert(c.dom().contains(k));
        let i = choose|i: int| 0 <= i < s.len() && s[i].0 == k;
        assert(s[i].1 == e);
    }
    assert forall|i: int| 0 <= i < s.len() implies #[trigger] values_of(c).contains(s[i].1) by {
        assert(c.dom().contains(s[i].0));
    }
}

/// Storing a new value under a fresh key adds it to the values.
proof fn lemma_values_insert_fresh(c: Map<u64, RouteEntry>, k: u64, v: RouteEntry)
    requires
        !c.dom().contains(k),
    ensures
        values_of(c.insert(k, v)) =~= values_of(c).insert(v),
{
    assert forall|e: RouteEntry| values_of(c).insert(v).contains(e) implies #[trigger] values_of(
        c.insert(k, v),
    ).contains(e) by {
        if e == v {
            assert(c.insert(k, v).dom().contains(k) && c.insert(k, v)[k] == e);
        } else {
            let k2 = choose|k2: u64| c.dom().contains(k2) && c[k2] == e;
            assert(c.insert(k, v).dom().contains(k2) && c.insert(k, v)[k2] == e);
        }
    }
    assert forall|e: RouteEntry| #[trigger] values_of(c.insert(k, v)).contains(e) implies values_of(
        c,
    ).insert(v).contains(e) by {
        let k2 = choose|k2: u64| c.insert(k, v).dom().contains(k2) && c.insert(k, v)[k2] == e;
        if k2 != k {
            assert(c.dom().contains(k2) && c[k2] == e);
        }
    }
}

/// Replacing the value under a key of an injective map swaps it in the values.
proof fn lemma_values_replace(c: Map<u64, RouteEntry>, k: u64, v: RouteEntry)
    requires
        c.dom().contains(k),
        injective(c),
    ensures
        values_of(c.insert(k, v)) =~= values_of(c).remove(c[k]).insert(v),
{
    let old_v = c[k];
    assert forall|e: RouteEntry| values_of(c).remove(old_v).insert(v).contains(e) implies #[trigger] values_of(
        c.insert(k, v),
    ).contains(e) by {
        if e == v {
            assert(c.insert(k, v).dom().contains(k) && c.insert(k, v)[k] == e);
        } else {
            let k2 = choose|k2: u64| c.dom().contains(k2) && c[k2] == e;
            assert(k2 != k);
            assert(c.insert(k, v).dom().contains(k2) && c.insert(k, v)[k2] == e);
        }
    }
    assert forall|e: RouteEntry| #[trigger] values_of(c.insert(k, v)).contains(e) implies values_of(
        c,
    ).remove(old_v).insert(v).contains(e) by {
        let k2 = choose|k2: u64| c.insert(k, v).dom().contains(k2) && c.insert(k, v)[k2] == e;
        if k2 != k {
            assert(c.dom().contains(k2) && c[k2] == e);
            assert(c[k2] != c[k]);
        }
    }
}

/// Removing a key of an injective map removes its value.
proof fn lemma_values_remove(c: Map<u64, RouteEntry>, k: u64)
    requires
        c.dom().contains(k),
        injective(c),
    ensures
        values_of(c.remove(k)) =~= values_of(c).remove(c[k]),
{
    let old_v = c[k];
    assert forall|e: RouteEntry| values_of(c).remove(old_v).contains(e) implies #[trigger] values_of(
        c.remove(k),
    ).contains(e) by {
        let k2 = choose|k2: u64| c.dom().contains(k2) && c[k2] == e;
        assert(k2 != k);
        assert(c.remove(k).dom().contains(k2) && c.remove(k)[k2] == e);
    }
    assert forall|e: RouteEntry| #[trigger] values_of(c.remove(k)).contains(e) implies values_of(
        c,
    ).remove(old_v).contains(e) by {
        let k2 = choose|k2: u64| c.remove(k).dom().contains(k2) && c.remove(k)[k2] == e;
        assert(c.dom().contains(k2) && c[k2] == e);
        assert(c[k2] != c[k]);
    }
}

/// In a well-formed set of routes, a message type, destination and gateway
/// name at most one route.
pub proof fn lemma_route_unique(v: Set<RouteEntry>, e1: RouteEntry, e2: RouteEntry)
    requires
        routes_wf(v),
        v.contains(e1),
        v.contains(e2),
        e1.same_route(e2.message, e2.dst_net, e2.gw),
    ensures
        e1 == e2,
{
    lemma_lo_le_hi(e1.dst_net);
}

fn find_dst_conflict(s: &Vec<(u64, RouteEntry)>, message: LocalTypeKey, dst: NetAddress, metric: u8) -> (r: Option<NetAddress>)
    ensures
        r matches Some(c) ==> exists|i: int|
            0 <= i < s.len() && (#[trigger] s@[i]).1.dst_conflict(message, dst, metric) && s@[i].1.dst_net == c,
        r is None ==> forall|i: int| 0 <= i < s.len() ==> !(#[trigger] s@[i]).1.dst_conflict(message, dst, metric),
{
    let mut i: usize = 0;
    while i < s.len()
        invariant
            0 <= i <= s.len(),
            forall|j: int| 0 <= j < i ==> !(#[trigger] s@[j]).1.dst_conflict(message, dst, metric),
        decreases s.len() - i,
    {
        let e = s[i].1;
        if e.message == message && e.metric == metric && e.dst_net.overlaps(&dst) && e.dst_net != dst {
            assert(s@[i as int].1.dst_conflict(message, dst, metric));
            return Some(e.dst_net);
        }
        i = i + 1;
    }
    None
}

fn find_gw_conflict(s: &Vec<(u64, RouteEntry)>, message: LocalTypeKey, dst: NetAddress, gw: Option<Address>) -> (r: Option<NetAddress>)
    ensures
        r matches Some(c) ==> exists|i: int|
            0 <= i < s.len() && (#[trigger] s@[i]).1.gw_conflict(message, dst, gw) && s@[i].1.dst_net == c,
        r is None ==> forall|i: int| 0 <= i < s.len() ==> !(#[trigger] s@[i]).1.gw_conflict(message, dst, gw),
{
    let mut i: usize = 0;
    while i < s.len()
        invariant
            0 <= i <= s.len(),
            forall|j: int| 0 <= j < i ==> !(#[trigger] s@[j]).1.gw_conflict(message, dst, gw),
        decreases s.len() - i,
    {
        let e = s[i].1;
        if e.message == message && e.gw == gw && e.dst_net.overlaps(&dst) && e.dst_net != dst {
            assert(s@[i as int].1.gw_conflict(message, dst, gw));
            return Some(e.dst_net);
        }
        i = i + 1;
    }
    None
}

fn find_same_route(s: &Vec<(u64, RouteEntry)>, message: LocalTypeKey, dst: NetAddress, gw: Option<Address>) -> (r: Option<(u64, RouteEntry)>)
    ensures
        r matches Some(p) ==> exists|i: int| 0 <= i < s.len() && #[trigger] s@[i] == p && p.1.same_route(message, dst, gw),
        r is None ==> forall|i: int| 0 <= i < s.len() ==> !(#[trigger] s@[i]).1.same_route(message, dst, gw),
{
    let mut i: usize = 0;
    while i < s.len()
        invariant
            0 <= i <= s.len(),
            forall|j: int| 0 <= j < i ==> !(#[trigger] s@[j]).1.same_route(message, dst, gw),
        decreases s.len() - i,
    {
        let p = s[i];
        if p.1.message == message && p.1.dst_net == dst && p.1.gw == gw {
            assert(s@[i as int] == p);
            return Some(p);
        }
        i = i + 1;
    }
    None
}

/// Adding a route that clashes with none of a well-formed subset keeps it well formed.
proof fn lemma_routes_wf_add(v: Set<RouteEntry>, base: Set<RouteEntry>, new: RouteEntry)
    requires
        routes_wf(v),
        base.subset_of(v),
        new.dst_net.is_normal(),
        forall|x: RouteEntry|
            #[trigger] base.contains(x) && x != new && x.message == new.message && x.gw == new.gw
                ==> !x.dst_net.spec_range().spec_overlaps(new.dst_net.spec_range()),
        forall|x: RouteEntry|
            #[trigger] base.contains(x) && x.message == new.message && x.metric == new.metric
                && x.dst_net.spec_range().spec_overlaps(new.dst_net.spec_range()) ==> x.dst_net == new.dst_net,
    ensures
        routes_wf(base.insert(new)),
{
    vstd::set_lib::lemma_set_subset_finite(v, base);
    let w = base.insert(new);
    assert forall|e1: RouteEntry, e2: RouteEntry|
        w.contains(e1) && w.contains(e2) && e1 != e2 && e1.message == e2.message && e1.gw == e2.gw
        implies !e1.dst_net.spec_range().spec_overlaps(e2.dst_net.spec_range()) by {
        if e1 == new {
            assert(base.contains(e2));
        } else if e2 == new {
            assert(base.contains(e1));
        } else {
            assert(v.contains(e1) && v.contains(e2));
        }
    }
    assert forall|e1: RouteEntry, e2: RouteEntry|
        w.contains(e1) && w.contains(e2) && e1.message == e2.message && e1.metric == e2.metric
            && e1.dst_net.spec_range().spec_overlaps(e2.dst_net.spec_range())
        implies e1.dst_net == e2.dst_net by {
        if e1 == new && e2 == new {
        } else if e1 == new {
            assert(base.contains(e2));
        } else if e2 == new {
            assert(base.contains(e1));
        } else {
            assert(v.contains(e1) && v.contains(e2));
        }
    }
    assert forall|e: RouteEntry| #[trigger] w.contains(e) implies e.dst_net.is_normal() by {
        if e != new {
            assert(v.contains(e));
        }
    }
}

impl RouteRegistry {
    /// What the registry keeps: every key was issued by the slot map, no
    /// route is stored twice, and the routes are well formed.
    pub closed spec fn wf(&self) -> bool {
        let c = route_slots(self.route_entries);
        &&& c.dom().finite()
        &&& forall|k: u64| #[trigger] c.dom().contains(k) ==> key_is_issued(k)
        &&& injective(c)
        &&& routes_wf(self@)
    }

    /// How many routes the slot map holds.
    pub closed spec fn slot_count(&self) -> nat {
        route_slots(self.route_entries).dom().len()
    }

    /// An empty registry.
    pub fn new() -> (r: Self)
        ensures
            r.wf(),
            r@ == Set::<RouteEntry>::empty(),
            r.slot_count() == 0,
    {
        let r = RouteRegistry { route_entries: route_slots_new() };
        assert(r@ =~= Set::<RouteEntry>::empty());
        r
    }

    /// Sets (`Some`) or removes (`None`) the metric of the route of `message`
    /// to `dst_net` via `gw`, and returns the metric that the route had.
    ///
    /// The change is refused with the subnet it conflicts with where it would
    /// make one message type reach two overlapping subnets through one
    /// gateway, or at one metric; a subnet with host bits set is refused too.
    pub fn set_route(
        &mut self,
        message: LocalTypeKey,
        dst_net: NetAddress,
        gw: Option<Address>,
        set_metric: Option<u8>,
    ) -> (r: Result<Option<u8>, SetRouteError>)
        requires
            old(self).wf(),
            old(self).slot_count() < SLOTS_MAX,
        ensures
            final(self).wf(),
            final(self).slot_count() <= old(self).slot_count() + 1,
            match r {
                Ok(prev) => {
                    &&& !set_route_blocked(old(self)@, message, dst_net, gw, set_metric)
                    &&& prev == metric_of(old(self)@, message, dst_net, gw)
                    &&& final(self)@ == routes_after(old(self)@, message, dst_net, gw, set_metric)
                },
                Err(SetRouteError::Conflict(c)) => {
                    &&& set_route_blocked(old(self)@, message, dst_net, gw, set_metric)
                    &&& conflict_reported(old(self)@, message, dst_net, gw, set_metric, c)
                    &&& final(self)@ == old(self)@
                },
            },
    {
        let ghost v = self@;
        let ghost c = route_slots(self.route_entries);
        let s = route_slots_list(&self.route_entries);
        proof {
            lemma_listing(s@, c);
        }
        if let Some(m) = set_metric {
            let dst_found = find_dst_conflict(&s, message, dst_net, m);
            if let Some(cn) = dst_found {
                proof {
                    let i = choose|i: int|
                        0 <= i < s.len() && (#[trigger] s@[i]).1.dst_conflict(message, dst_net, m)
                            && s@[i].1.dst_net == cn;
                    assert(v.contains(s@[i].1));
                }
                return Err(SetRouteError::Conflict(cn));
            }
            proof {
                assert forall|e: RouteEntry| #[trigger] v.contains(e) implies !e.dst_conflict(message, dst_net, m) by {
                    let i = choose|i: int| 0 <= i < s.len() && s@[i].1 == e;
                    assert(!s@[i].1.dst_conflict(message, dst_net, m));
                }
            }
            if !dst_net.is_normalized() {
                return Err(SetRouteError::Conflict(dst_net.normalized()));
            }
        }
        let gw_found = find_gw_conflict(&s, message, dst_net, gw);
        if let Some(cn) = gw_found {
            proof {
                let i = choose|i: int|
                    0 <= i < s.len() && (#[trigger] s@[i]).1.gw_conflict(message, dst_net, gw)
                        && s@[i].1.dst_net == cn;
                assert(v.contains(s@[i].1));
            }
            return Err(SetRouteError::Conflict(cn));
        }
        proof {
            assert forall|e: RouteEntry| #[trigger] v.contains(e) implies !e.gw_conflict(message, dst_net, gw) by {
                let i = choose|i: int| 0 <= i < s.len() && s@[i].1 == e;
                assert(!s@[i].1.gw_conflict(message, dst_net, gw));
            }
        }
        if !dst_net.is_normalized() {
            return Err(SetRouteError::Conflict(dst_net.normalized()));
        }
        let existing = find_same_route(&s, message, dst_net, gw);
        let ghost kept = v.filter(|e: RouteEntry| !e.same_route(message, dst_net, gw));
        proof {
            match existing {
                Some(p) => {
                    let i = choose|i: int| 0 <= i < s.len() && #[trigger] s@[i] == p && p.1.same_route(message, dst_net, gw);
                    assert(v.contains(s@[i].1));
                    assert(v.contains(p.1));
                    assert(c.dom().contains(p.0) && c[p.0] == p.1);
                    assert(key_is_issued(p.0));
                    assert forall|e: RouteEntry| #[trigger] v.contains(e) && e.same_route(message, dst_net, gw) implies e == p.1 by {
                        lemma_route_unique(v, e, p.1);
                    }
                    assert(kept =~= v.remove(p.1));
                    let e2 = choose|e: RouteEntry| v.contains(e) && e.same_route(message, dst_net, gw);
                    assert(route_of(v, message, dst_net, gw) == Some(p.1));
                },
                None => {
                    assert forall|e: RouteEntry| #[trigger] v.contains(e) implies !e.same_route(message, dst_net, gw) by {
                        let i = choose|i: int| 0 <= i < s.len() && s@[i].1 == e;
                        assert(!s@[i].1.same_route(message, dst_net, gw));
                    }
                    assert(kept =~= v);
                },
            }
        }
        match (set_metric, existing) {
            (None, None) => Ok(None),
            (Some(m), Some((k, e))) => {
                if e.metric == m {
                    proof {
                        assert(v.remove(e).insert(RouteEntry { message, dst_net, gw, metric: m }) =~= v);
                    }
                    Ok(Some(m))
                } else {
                    let new = RouteEntry { message, dst_net, gw, metric: m };
                    proof {
                        assert(!v.contains(new)) by {
                            if v.contains(new) {
                                lemma_route_unique(v, new, e);
                            }
                        }
                        assert forall|x: RouteEntry|
                            #[trigger] v.remove(e).contains(x) && x != new && x.message == new.message && x.gw == new.gw
                            implies !x.dst_net.spec_range().spec_overlaps(new.dst_net.spec_range()) by {
                            if x.dst_net == dst_net {
                                lemma_route_unique(v, x, e);
                            }
                        }
                        lemma_routes_wf_add(v, v.remove(e), new);
                        lemma_values_replace(c, k, new);
                        let c2 = c.insert(k, new);
                        assert(c2.dom() =~= c.dom());
                        assert forall|k1: u64, k2: u64|
                            #![trigger c2[k1], c2[k2]]
                            c2.dom().contains(k1) && c2.dom().contains(k2) && c2[k1] == c2[k2] implies k1 == k2 by {
                            if k1 == k && k2 != k {
                                assert(values_of(c).contains(c[k2]));
                            } else if k2 == k && k1 != k {
                                assert(values_of(c).contains(c[k1]));
                            }
                        }
                    }
                    route_slots_replace(&mut self.route_entries, k, new);
                    Ok(Some(e.metric))
                }
            },
            (Some(m), None) => {
                let new = RouteEntry { message, dst_net, gw, metric: m };
                proof {
                    assert(!v.contains(new));
                    lemma_routes_wf_add(v, v, new);
                }
                let k = route_slots_insert(&mut self.route_entries, new);
                proof {
                    lemma_values_insert_fresh(c, k, new);
                    let c2 = c.insert(k, new);
                    assert(c2.dom() =~= c.dom().insert(k));
                    assert forall|k1: u64, k2: u64|
                        #![trigger c2[k1], c2[k2]]
                        c2.dom().contains(k1) && c2.dom().contains(k2) && c2[k1] == c2[k2] implies k1 == k2 by {
                        if k1 == k && k2 != k {
                            assert(values_of(c).contains(c[k2]));
                        } else if k2 == k && k1 != k {
                            assert(values_of(c).contains(c[k1]));
                        }
                    }
                }
                Ok(None)
            },
            (None, Some((k, e))) => {
                let _ = route_slots_remove(&mut self.route_entries, k);
                proof {
                    lemma_values_remove(c, k);
                    vstd::set_lib::lemma_set_subset_finite(v, v.remove(e));
                    let c2 = c.remove(k);
                    assert(c2.dom() =~= c.dom().remove(k));
                }
                Ok(Some(e.metric))
            },
        }
    }

    /// The gateway and metric of a best route of `message` to `dst_addr`: a
    /// route of the lowest metric among those whose subnet holds the address.
    /// Where several are equally good, the address picks one of the first
    /// `MAX_CANDIDATES` of them.
    pub fn find_route(&self, message: LocalTypeKey, dst_addr: Address) -> (r: Result<(Option<Address>, u8), FindRouteError>)
        requires
            self.wf(),
        ensures
            route_found(self@, message, dst_addr.0, r),
    {
        let ghost v = self@;
        let ghost c = route_slots(self.route_entries);
        let s = route_slots_list(&self.route_entries);
        proof {
            lemma_listing(s@, c);
        }
        let mut best: Option<u8> = None;
        let mut i: usize = 0;
        while i < s.len()
            invariant
                0 <= i <= s.len(),
                best matches Some(b) ==> exists|j: int|
                    0 <= j < i && (#[trigger] s@[j]).1.serves(message, dst_addr.0) && s@[j].1.metric == b,
                best matches Some(b) ==> forall|j: int|
                    0 <= j < i && (#[trigger] s@[j]).1.serves(message, dst_addr.0) ==> b <= s@[j].1.metric,
                best is None ==> forall|j: int| 0 <= j < i ==> !(#[trigger] s@[j]).1.serves(message, dst_addr.0),
            decreases s.len() - i,
        {
            let e = s[i].1;
            if e.message == message && e.dst_net.contains(dst_addr) {
                match best {
                    Some(b) if b <= e.metric => {},
                    _ => {
                        best = Some(e.metric);
                    },
                }
                assert(s@[i as int].1.serves(message, dst_addr.0));
            }
            i = i + 1;
        }
        let b = match best {
            None => {
                proof {
                    assert forall|e: RouteEntry| #[trigger] v.contains(e) implies !e.serves(message, dst_addr.0) by {
                        let j = choose|j: int| 0 <= j < s.len() && s@[j].1 == e;
                        assert(!s@[j].1.serves(message, dst_addr.0));
                    }
                }
                return Err(FindRouteError::NoRoute);
            },
            Some(b) => b,
        };
        let mut candidates: Vec<Option<Address>> = Vec::new();
        let mut i: usize = 0;
        while i < s.len() && candidates.len() < MAX_CANDIDATES
            invariant
                0 <= i <= s.len(),
                candidates.len() <= MAX_CANDIDATES,
                forall|j: int| 0 <= j < s.len() && (#[trigger] s@[j]).1.serves(message, dst_addr.0) ==> b <= s@[j].1.metric,
                exists|j: int| 0 <= j < s.len() && (#[trigger] s@[j]).1.serves(message, dst_addr.0) && s@[j].1.metric == b,
                forall|n: int| 0 <= n < candidates.len() ==> exists|j: int|
                    0 <= j < s.len() && (#[trigger] s@[j]).1.serves(message, dst_addr.0) && s@[j].1.metric == b
                        && s@[j].1.gw == #[trigger] candidates@[n],
                candidates.len() == 0 ==> forall|j: int|
                    0 <= j < i ==> !((#[trigger] s@[j]).1.serves(message, dst_addr.0) && s@[j].1.metric == b),
            decreases s.len() - i,
        {
            let e = s[i].1;
            if e.message == message && e.dst_net.contains(dst_addr) && e.metric == b {
                candidates.push(e.gw);
                assert(s@[i as int].1.serves(message, dst_addr.0));
                assert(candidates@[candidates.len() - 1] == e.gw);
            }
            i = i + 1;
        }
        let n = candidates.len();
        let pick: usize = (dst_addr.0 % (n as u64)) as usize;
        let gw = candidates[pick];
        proof {
            let j = choose|j: int|
                0 <= j < s.len() && (#[trigger] s@[j]).1.serves(message, dst_addr.0) && s@[j].1.metric == b
                    && s@[j].1.gw == candidates@[pick as int];
            let e = s@[j].1;
            assert(v.contains(e));
            assert forall|e2: RouteEntry| #[trigger] v.contains(e2) && e2.serves(message, dst_addr.0) implies e.metric <= e2.metric by {
                let j2 = choose|j2: int| 0 <= j2 < s.len() && s@[j2].1 == e2;
                assert(s@[j2].1.serves(message, dst_addr.0));
            }
            assert(is_best_route(v, message, dst_addr.0, e));
        }
        Ok((gw, b))
    }

    /// Whether some route leads to exactly this subnet.
    #[verifier::loop_isolation(false)]
    pub fn contains_net(&self, net_address: NetAddress) -> (r: bool)
        requires
            self.wf(),
        ensures
            r == exists|e: RouteEntry| #[trigger] self@.contains(e) && e.dst_net == net_address,
    {
        let ghost v = self@;
        let s = route_slots_list(&self.route_entries);
        proof {
            lemma_listing(s@, route_slots(self.route_entries));
        }
        let mut i: usize = 0;
        while i < s.len()
            invariant
                0 <= i <= s.len(),
                forall|j: int| 0 <= j < i ==> (#[trigger] s@[j]).1.dst_net != net_address,
            decreases s.len() - i,
        {
            if s[i].1.dst_net == net_address {
                assert(v.contains(s@[i as int].1));
                return true;
            }
            i = i + 1;
        }
        proof {
            assert forall|e: RouteEntry| #[trigger] v.contains(e) implies e.dst_net != net_address by {
                let j = choose|j: int| 0 <= j < s.len() && s@[j].1 == e;
                assert(s@[j].1.dst_net != net_address);
            }
        }
        false
    }

    /// Every route, once each, as (message type, subnet, gateway, metric).
    #[verifier::loop_isolation(false)]
    pub fn all_routes(&self) -> (r: Vec<(LocalTypeKey, NetAddress, Option<Address>, u8)>)
        requires
            self.wf(),
        ensures
            forall|i: int| 0 <= i < r.len() ==> self@.contains(RouteEntry::from_tuple(#[trigger] r@[i])),
            forall|e: RouteEntry| #[trigger] self@.contains(e) ==> exists|i: int|
                0 <= i < r.len() && r@[i] == e.as_tuple(),
            forall|i: int, j: int| 0 <= i < r.len() && 0 <= j < r.len() && i != j ==> r@[i] != r@[j],
    {
        let ghost v = self@;
        let ghost c = route_slots(self.route_entries);
        let s = route_slots_list(&self.route_entries);
        proof {
            lemma_listing(s@, c);
        }
        let mut r: Vec<(LocalTypeKey, NetAddress, Option<Address>, u8)> = Vec::new();
        let mut i: usize = 0;
        while i < s.len()
            invariant
                0 <= i <= s.len(),
                r.len() == i,
                forall|j: int| 0 <= j < i ==> #[trigger] r@[j] == s@[j].1.as_tuple(),
            decreases s.len() - i,
        {
            let e = s[i].1;
            r.push((e.message, e.dst_net, e.gw, e.metric));
            i = i + 1;
        }
        proof {
            assert forall|j: int| 0 <= j < r.len() implies v.contains(RouteEntry::from_tuple(#[trigger] r@[j])) by {
                assert(v.contains(s@[j].1));
                assert(r@[j] == s@[j].1.as_tuple());
            }
            assert forall|e: RouteEntry| #[trigger] v.contains(e) implies exists|j: int|
                0 <= j < r.len() && r@[j] == e.as_tuple() by {
                let j = choose|j: int| 0 <= j < s.len() && s@[j].1 == e;
                assert(r@[j] == e.as_tuple());
            }
            assert forall|a: int, b: int| 0 <= a < r.len() && 0 <= b < r.len() && a != b implies r@[a] != r@[b] by {
                assert(r@[a] == s@[a].1.as_tuple());
                assert(r@[b] == s@[b].1.as_tuple());
                assert(s@[a].0 != s@[b].0);
                assert(c.dom().contains(s@[a].0) && c[s@[a].0] == s@[a].1);
                assert(c.dom().contains(s@[b].0) && c[s@[b].0] == s@[b].1);
            }
        }
        r
    }

    /// The routes through `sought_gw`, as (message type, subnet, metric).
    #[verifier::rlimit(40)]
    pub fn all_routes_by_gw(&self, sought_gw: Address) -> (r: Vec<(LocalTypeKey, NetAddress, u8)>)
        requires
            self.wf(),
        ensures
            forall|i: int| 0 <= i < r.len() ==> self@.contains(
                RouteEntry { message: (#[trigger] r@[i]).0, dst_net: r@[i].1, gw: Some(sought_gw), metric: r@[i].2 },
            ),
            forall|e: RouteEntry| #[trigger] self@.contains(e) && e.gw == Some(sought_gw) ==> exists|i: int|
                0 <= i < r.len() && r@[i] == (e.message, e.dst_net, e.metric),
    {
        let ghost v = self@;
        let s = route_slots_list(&self.route_entries);
        proof {
            lemma_listing(s@, route_slots(self.route_entries));
        }
        let mut r: Vec<(LocalTypeKey, NetAddress, u8)> = Vec::new();
        let ghost mut picked: Seq<int> = Seq::empty();
        let mut i: usize = 0;
        while i < s.len()
            invariant
                0 <= i <= s.len(),
                picked.len() == r.len(),
                forall|n: int| #![trigger r@[n]] #![trigger picked[n]] 0 <= n < r.len() ==> 0 <= picked[n] < i
                    && s@[picked[n]].1.gw == Some(sought_gw)
                    && r@[n] == (s@[picked[n]].1.message, s@[picked[n]].1.dst_net, s@[picked[n]].1.metric),
                forall|j: int| 0 <= j < i && (#[trigger] s@[j]).1.gw == Some(sought_gw) ==> exists|n: int|
                    0 <= n < r.len() && picked[n] == j,
            decreases s.len() - i,
        {
            let e = s[i].1;
            if e.gw == Some(sought_gw) {
                let ghost old_r = r@;
                r.push((e.message, e.dst_net, e.metric));
                proof {
                    let old_picked = picked;
                    picked = picked.push(i as int);
                    assert(r@[r.len() - 1] == (s@[i as int].1.message, s@[i as int].1.dst_net, s@[i as int].1.metric));
                    assert forall|n: int| #![trigger r@[n]] #![trigger picked[n]] 0 <= n < r.len() implies 0 <= picked[n] < i + 1
                        && s@[picked[n]].1.gw == Some(sought_gw)
                        && r@[n] == (s@[picked[n]].1.message, s@[picked[n]].1.dst_net, s@[picked[n]].1.metric) by {
                        if n < old_r.len() {
                            assert(r@[n] == old_r[n]);
                            assert(picked[n] == old_picked[n]);
                        }
                    }
                    assert forall|j: int| 0 <= j < i + 1 && (#[trigger] s@[j]).1.gw == Some(sought_gw) implies exists|n: int|
                        0 <= n < r.len() && picked[n] == j by {
                        if j == i {
                            assert(picked[r.len() - 1] == j);
                        } else {
                            let n = choose|n: int| 0 <= n < old_r.len() && old_picked[n] == j;
                            assert(picked[n] == old_picked[n]);
                        }
                    }
                }
            } else {
                proof {
                    assert forall|n: int| #![trigger r@[n]] #![trigger picked[n]] 0 <= n < r.len() implies 0 <= picked[n] < i + 1
                        && s@[picked[n]].1.gw == Some(sought_gw)
                        && r@[n] == (s@[picked[n]].1.message, s@[picked[n]].1.dst_net, s@[picked[n]].1.metric) by {
                    }
                }
            }
            i = i + 1;
        }
        proof {
            assert forall|n: int| 0 <= n < r.len() implies v.contains(
                RouteEntry { message: (#[trigger] r@[n]).0, dst_net: r@[n].1, gw: Some(sought_gw), metric: r@[n].2 },
            ) by {
                let j = picked[n];
                assert(0 <= j < s.len());
                assert(v.contains(s@[j].1));
                assert(s@[j].1 == RouteEntry { message: r@[n].0, dst_net: r@[n].1, gw: Some(sought_gw), metric: r@[n].2 });
            }
            assert forall|e: RouteEntry| #[trigger] v.contains(e) && e.gw == Some(sought_gw) implies exists|n: int|
                0 <= n < r.len() && r@[n] == (e.message, e.dst_net, e.metric) by {
                let j = choose|j: int| 0 <= j < s.len() && s@[j].1 == e;
                assert(s@[j].1.gw == Some(sought_gw));
                let n = choose|n: int| 0 <= n < r.len() && picked[n] == j;
                assert(r@[n] == (e.message, e.dst_net, e.metric));
            }
        }
        r
    }
}

impl Default for RouteRegistry {
    fn default() -> (r: Self)
        ensures
            r.wf(),
            r@ == Set::<RouteEntry>::empty(),
            r.slot_count() == 0,
    {
        RouteRegistry::new()
    }
}

/// A route that was set is found: after `set_route` gives a message type a
/// subnet at a metric, every address of the subnet is reached at that metric
/// or a better one.
pub proof fn law_set_route_is_found(
    v: Set<RouteEntry>,
    message: LocalTypeKey,
    dst: NetAddress,
    gw: Option<Address>,
    m: u8,
    a: u64,
)
    requires
        dst.spec_range().spec_contains(a),
    ensures
        ({
            let w = routes_after(v, message, dst, gw, Some(m));
            &&& w.contains(RouteEntry { message, dst_net: dst, gw, metric: m })
            &&& RouteEntry { message, dst_net: dst, gw, metric: m }.serves(message, a)
            &&& forall|e: RouteEntry| #[trigger] is_best_route(w, message, a, e) ==> e.metric <= m
        }),
{
}

/// Removing a route undoes adding it: a route that was not there, set and
/// then removed, leaves the routes as they were, and its removal reports the
/// metric it was set to.
pub proof fn law_remove_undoes_set(
    v: Set<RouteEntry>,
    message: LocalTypeKey,
    dst: NetAddress,
    gw: Option<Address>,
    m: u8,
)
    requires
        route_of(v, message, dst, gw) is None,
    ensures
        routes_after(routes_after(v, message, dst, gw, Some(m)), message, dst, gw, None) == v,
        metric_of(routes_after(v, message, dst, gw, Some(m)), message, dst, gw) == Some(m),
{
    let new = RouteEntry { message, dst_net: dst, gw, metric: m };
    let w = routes_after(v, message, dst, gw, Some(m));
    assert(w.contains(new));
    assert(w.filter(|e: RouteEntry| !e.same_route(message, dst, gw)) =~= v);
    let chosen = choose|e: RouteEntry| w.contains(e) && e.same_route(message, dst, gw);
    assert(chosen == new);
}

/// Two searches for a route of the same message type to the same address,
/// among the same routes (the same registry, or one that a set and a removal
/// brought back to the same routes), agree on whether a route is found and
/// on its metric; only the gateway may differ, among equally good routes.
pub proof fn law_route_searches_agree(
    v: Set<RouteEntry>,
    message: LocalTypeKey,
    a: u64,
    r1: Result<(Option<Address>, u8), FindRouteError>,
    r2: Result<(Option<Address>, u8), FindRouteError>,
)
    requires
        route_found(v, message, a, r1),
        route_found(v, message, a, r2),
    ensures
        r1 is Ok <==> r2 is Ok,
        r1 matches Ok((_, m1)) ==> (r2 matches Ok((_, m2)) && m1 == m2),
{
    if let Ok((g1, m1)) = r1 {
        let e1 = choose|e: RouteEntry| #[trigger] is_best_route(v, message, a, e) && e.gw == g1 && e.metric == m1;
        assert(v.contains(e1));
        if let Ok((g2, m2)) = r2 {
            let e2 = choose|e: RouteEntry| #[trigger] is_best_route(v, message, a, e) && e.gw == g2 && e.metric == m2;
            assert(v.contains(e2));
        }
    }
}

/// Setting the same metric twice changes nothing the second time, which
/// reports that metric as the one the route had.
pub proof fn law_set_route_idempotent(
    v: Set<RouteEntry>,
    message: LocalTypeKey,
    dst: NetAddress,
    gw: Option<Address>,
    m: u8,
)
    ensures
        routes_after(routes_after(v, message, dst, gw, Some(m)), message, dst, gw, Some(m))
            == routes_after(v, message, dst, gw, Some(m)),
        metric_of(routes_after(v, message, dst, gw, Some(m)), message, dst, gw) == Some(m),
{
    let new = RouteEntry { message, dst_net: dst, gw, metric: m };
    let w = routes_after(v, message, dst, gw, Some(m));
    assert(w.contains(new));
    assert(routes_after(w, message, dst, gw, Some(m)) =~= w);
    let chosen = choose|e: RouteEntry| w.contains(e) && e.same_route(message, dst, gw);
    assert(chosen == new);
}

/// A removed route is gone: after removing the route of a message type,
/// destination and gateway, no route of that triple remains.
pub proof fn law_removed_route_is_gone(
    v: Set<RouteEntry>,
    message: LocalTypeKey,
    dst: NetAddress,
    gw: Option<Address>,
)
    ensures
        route_of(routes_after(v, message, dst, gw, None), message, dst, gw) is None,
{
}

} // verus!
