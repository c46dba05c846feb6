//! The interfaces that the multinode manager binds and connects: each
//! interface address once, with the actor that serves it.

use slotmap::{DefaultKey, Key, SlotMap};
use vstd::prelude::*;

use crate::address::Address;
use crate::assoc::{assoc_view, keys_unique, lemma_assoc_absent, lemma_assoc_index, lemma_assoc_push};
use crate::slots::{key_is_issued, SLOTS_MAX};

verus! {

/// An interface: its address, and the actor that serves it.
#[derive(Debug, Clone, PartialEq, Eq)]
pub struct IfaceEntry {
    pub iface_address: String,
    pub actor_address: Address,
}

/// A slot map of interfaces.
#[verifier::external_body]
pub struct IfaceSlots {
    inner: SlotMap<DefaultKey, IfaceEntry>,
}

/// Names what a slot map of interfaces holds, by key.
pub uninterp spec fn iface_slots(m: IfaceSlots) -> Map<u64, (Seq<char>, Address)>;

/// `SlotMap::new`: an empty slot map.
#[verifier::external_body]
fn iface_slots_new() -> (r: IfaceSlots)
    ensures
        iface_slots(r) =~= Map::empty(),
{
    IfaceSlots { inner: SlotMap::new() }
}

/// `SlotMap::insert`: stores the interface under a key that the map did not
/// hold, and returns that key. It panics when the map holds `SLOTS_MAX`
/// values.
#[verifier::external_body]
fn iface_slots_insert(m: &mut IfaceSlots, v: IfaceEntry) -> (k: u64)
    requires
        iface_slots(*old(m)).dom().finite(),
        iface_slots(*old(m)).dom().len() < SLOTS_MAX,
    ensures
        !iface_slots(*old(m)).dom().contains(k),
        key_is_issued(k),
        iface_slots(*final(m)) == iface_slots(*old(m)).insert(k, (v.iface_address@, v.actor_address)),
{
    m.inner.insert(v).data().as_ffi()
}

/// Why an interface request was refused.
#[derive(Debug, Clone, Copy, PartialEq, Eq, Structural)]
pub enum IfaceErrorKind {
    /// A connect to an address that is already being connected to.
    DuplicateDstAddr,
    /// A bind to an address that is already bound.
    DuplicateBindAddr,
}

/// Whether a request binds or connects.
#[derive(Debug, Clone, Copy, PartialEq, Eq, Structural)]
pub enum IfaceRequest {
    Connect,
    Bind,
}

pub open spec fn iface_keys(s: Seq<(String, u64)>) -> Seq<(Seq<char>, u64)> {
    Seq::new(s.len(), |i: int| (s[i].0@, s[i].1))
}

/// The interfaces of one kind.
pub struct Ifaces {
    entries: IfaceSlots,
    by_iface_addr: Vec<(String, u64)>,
}

impl Ifaces {
    /// The actor serving each interface address.
    pub closed spec fn served(&self) -> Map<Seq<char>, Address> {
        Map::new(
            |a: Seq<char>| assoc_view(iface_keys(self.by_iface_addr@)).contains_key(a),
            |a: Seq<char>| iface_slots(self.entries)[assoc_view(iface_keys(self.by_iface_addr@))[a]].1,
        )
    }

    pub closed spec fn wf(&self) -> bool {
        let ix = assoc_view(iface_keys(self.by_iface_addr@));
        let e = iface_slots(self.entries);
        &&& keys_unique(iface_keys(self.by_iface_addr@))
        &&& e.dom().finite()
        &&& e.dom().len() == self.by_iface_addr@.len()
        &&& forall|a: Seq<char>| #[trigger] ix.contains_key(a) ==> e.dom().contains(ix[a]) && e[ix[a]].0 == a
        &&& forall|i: int, j: int| 0 <= i < self.by_iface_addr@.len() && 0 <= j < self.by_iface_addr@.len() && i != j
            ==> self.by_iface_addr@[i].1 != self.by_iface_addr@[j].1
    }

    pub closed spec fn count(&self) -> nat {
        self.by_iface_addr@.len()
    }

    pub fn new() -> (r: Self)
        ensures
            r.wf(),
            r.served() =~= Map::empty(),
            r.count() == 0,
    {
        let r = Ifaces { entries: iface_slots_new(), by_iface_addr: Vec::new() };
        assert(iface_keys(r.by_iface_addr@) =~= Seq::empty());
        assert(r.served() =~= Map::empty());
        r
    }

    /// Whether a request for the interface at `iface` may go on: an address
    /// that is served already is refused.
    #[verifier::loop_isolation(false)]
    pub fn check_request(&self, request: IfaceRequest, iface: &String) -> (r: Result<(), IfaceErrorKind>)
        requires
            self.wf(),
        ensures
            r is Ok <==> !self.served().contains_key(iface@),
            r matches Err(e) ==> e == match request {
                IfaceRequest::Connect => IfaceErrorKind::DuplicateDstAddr,
                IfaceRequest::Bind => IfaceErrorKind::DuplicateBindAddr,
            },
    {
        let mut i: usize = 0;
        while i < self.by_iface_addr.len()
            invariant
                0 <= i <= self.by_iface_addr.len(),
                forall|j: int| 0 <= j < i ==> self.by_iface_addr@[j].0@ != iface@,
            decreases self.by_iface_addr.len() - i,
        {
            if self.by_iface_addr[i].0 == *iface {
                proof {
                    lemma_assoc_index(iface_keys(self.by_iface_addr@), i as int);
                }
                return Err(match request {
                    IfaceRequest::Connect => IfaceErrorKind::DuplicateDstAddr,
                    IfaceRequest::Bind => IfaceErrorKind::DuplicateBindAddr,
                });
            }
            i = i + 1;
        }
        proof {
            lemma_assoc_absent(iface_keys(self.by_iface_addr@), iface@);
        }
        Ok(())
    }

    /// The actor at `actor_address` now serves the interface at `iface`.
    pub fn add(&mut self, iface: String, actor_address: Address)
        requires
            old(self).wf(),
            !old(self).served().contains_key(iface@),
            old(self).count() < SLOTS_MAX,
        ensures
            final(self).wf(),
            final(self).served() == old(self).served().insert(iface@, actor_address),
            final(self).count() == old(self).count() + 1,
    {
        let ghost ks = iface_keys(self.by_iface_addr@);
        let ghost e0 = iface_slots(self.entries);
        let ghost a = iface@;
        let key = iface_slots_insert(&mut self.entries, IfaceEntry { iface_address: iface.clone(), actor_address });
        proof {
            lemma_assoc_push(ks, a, key);
        }
        let ghost old_ix = self.by_iface_addr@;
        self.by_iface_addr.push((iface, key));
        proof {
            assert(iface_keys(self.by_iface_addr@) =~= ks.push((a, key)));
            let ix = assoc_view(iface_keys(self.by_iface_addr@));
            let e = iface_slots(self.entries);
            assert forall|x: Seq<char>| #[trigger] ix.contains_key(x) implies e.dom().contains(ix[x]) && e[ix[x]].0 == x by {
                if x != a {
                    assert(assoc_view(ks).contains_key(x));
                    assert(e0.dom().contains(assoc_view(ks)[x]));
                }
            }
            assert forall|i: int, j: int| 0 <= i < self.by_iface_addr@.len() && 0 <= j < self.by_iface_addr@.len() && i != j
                implies self.by_iface_addr@[i].1 != self.by_iface_addr@[j].1 by {
                if i == old_ix.len() {
                    lemma_assoc_index(ks, j);
                    assert(e0.dom().contains(ks[j].1));
                } else if j == old_ix.len() {
                    lemma_assoc_index(ks, i);
                    assert(e0.dom().contains(ks[i].1));
                }
            }
            assert(self.served() =~= old(self).served().insert(a, actor_address)) by {
                assert forall|x: Seq<char>| #[trigger] self.served().contains_key(x) && x != a implies self.served()[x] == old(self).served()[x] by {
                    assert(assoc_view(ks).contains_key(x));
                    assert(e0.dom().contains(assoc_view(ks)[x]));
                }
            }
        }
    }
}

} // verus!
