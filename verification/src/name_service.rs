//! The name service: actors register under names, exclusively or shared, for
//! a limited time, and are resolved by name.
//!
//! Instants and durations are counted in ticks of a monotonic clock that the
//! caller reads.

use vstd::prelude::*;

use crate::address::Address;
use crate::assoc::{
    assoc_view, keys_unique, lemma_assoc_absent, lemma_assoc_all, lemma_assoc_index, lemma_assoc_push,
    lemma_assoc_remove, lemma_assoc_update,
};

verus! {

/// Why a registration was refused.
#[derive(Clone, Copy, Debug, PartialEq, Eq, Structural)]
pub enum RegisterErrorKind {
    /// The name is held exclusively by another address, or held shared where
    /// an exclusive hold was asked (or the other way round).
    Conflict,
    Internal,
}

/// Why an unregistration was refused.
#[derive(Clone, Copy, Debug, PartialEq, Eq, Structural)]
pub enum UnregisterErrorKind {
    NotFound,
}

/// One registration: valid until the instant `valid_thru`.
#[derive(Clone, Copy, Debug, PartialEq, Eq, Structural)]
pub struct Registration {
    pub valid_thru: u64,
}

/// The holders of a name: one address exclusively, or several shared.
pub enum Name {
    Exclusive { address: Address, registration: Registration },
    Shared(Vec<(Address, Registration)>),
}

/// A name as the contracts see it: whether it is held exclusively, and each
/// holding address with the instant its registration lasts to.
pub type NameView = (bool, Map<Address, u64>);

pub open spec fn regs_seq(s: Seq<(Address, Registration)>) -> Seq<(Address, u64)> {
    Seq::new(s.len(), |i: int| (s[i].0, s[i].1.valid_thru))
}

impl Name {
    pub open spec fn view_of(&self) -> NameView {
        match self {
            Name::Exclusive { address, registration } => (true, map![*address => registration.valid_thru]),
            Name::Shared(regs) => (false, assoc_view(regs_seq(regs@))),
        }
    }

    pub open spec fn wf(&self) -> bool {
        match self {
            Name::Exclusive { .. } => true,
            Name::Shared(regs) => keys_unique(regs_seq(regs@)) && regs@.len() > 0,
        }
    }
}

pub open spec fn names_seq(s: Seq<(String, Name)>) -> Seq<(Seq<char>, NameView)> {
    Seq::new(s.len(), |i: int| (s[i].0@, s[i].1.view_of()))
}

/// The names after registering `address` under `key`, or `None` where the
/// registration conflicts with the name's holders.
pub open spec fn registered(
    names: Map<Seq<char>, NameView>,
    key: Seq<char>,
    address: Address,
    exclusive: bool,
    valid_thru: u64,
) -> Option<Map<Seq<char>, NameView>> {
    if !names.contains_key(key) {
        if exclusive {
            Some(names.insert(key, (true, map![address => valid_thru])))
        } else {
            Some(names.insert(key, (false, map![address => valid_thru])))
        }
    } else if exclusive {
        if names[key].0 && names[key].1.contains_key(address) {
            Some(names.insert(key, (true, map![address => valid_thru])))
        } else {
            None
        }
    } else if names[key].0 {
        None
    } else {
        Some(names.insert(key, (false, names[key].1.insert(address, valid_thru))))
    }
}

/// The names after unregistering `address` from `key`, or `None` where the
/// name is not registered, or held exclusively by another address. A shared
/// name goes when its last holder does.
pub open spec fn unregistered(names: Map<Seq<char>, NameView>, key: Seq<char>, address: Address) -> Option<Map<Seq<char>, NameView>> {
    if !names.contains_key(key) {
        None
    } else if names[key].0 {
        if names[key].1.contains_key(address) {
            Some(names.remove(key))
        } else {
            None
        }
    } else if names[key].1.remove(address).dom() =~= Set::empty() {
        Some(names.remove(key))
    } else {
        Some(names.insert(key, (false, names[key].1.remove(address))))
    }
}

/// The names after dropping the registrations of `key` that lasted no later
/// than `now`; the name goes when none is left.
pub open spec fn evicted(names: Map<Seq<char>, NameView>, key: Seq<char>, now: u64) -> Map<Seq<char>, NameView> {
    if !names.contains_key(key) {
        names
    } else {
        let live = names[key].1.restrict(names[key].1.dom().filter(|a: Address| names[key].1[a] > now));
        if live.dom() =~= Set::empty() {
            names.remove(key)
        } else {
            names.insert(key, (names[key].0, live))
        }
    }
}

/// The table of names.
pub struct NameTable {
    names: Vec<(String, Name)>,
}

impl View for NameTable {
    type V = Map<Seq<char>, NameView>;

    closed spec fn view(&self) -> Map<Seq<char>, NameView> {
        assoc_view(names_seq(self.names@))
    }
}

fn find_reg(regs: &Vec<(Address, Registration)>, address: Address) -> (r: Option<usize>)
    ensures
        r matches Some(i) ==> i < regs.len() && regs@[i as int].0 == address,
        r is None ==> forall|i: int| 0 <= i < regs.len() ==> regs@[i].0 != address,
{
    let mut i: usize = 0;
    while i < regs.len()
        invariant
            0 <= i <= regs.len(),
            forall|j: int| 0 <= j < i ==> regs@[j].0 != address,
        decreases regs.len() - i,
    {
        if regs[i].0 == address {
            return Some(i);
        }
        i = i + 1;
    }
    None
}

/// Registers `address` in a shared name, or renews its registration.
fn shared_insert(regs: &mut Vec<(Address, Registration)>, address: Address, valid_thru: u64)
    requires
        keys_unique(regs_seq(old(regs)@)),
    ensures
        keys_unique(regs_seq(final(regs)@)),
        final(regs)@.len() > 0,
        assoc_view(regs_seq(final(regs)@)) == assoc_view(regs_seq(old(regs)@)).insert(address, valid_thru),
{
    let ghost s0 = regs_seq(regs@);
    match find_reg(regs, address) {
        Some(i) => {
            regs.set(i, (address, Registration { valid_thru }));
            proof {
                lemma_assoc_update(s0, i as int, valid_thru);
                assert(regs_seq(regs@) =~= s0.update(i as int, (s0[i as int].0, valid_thru)));
            }
        },
        None => {
            regs.push((address, Registration { valid_thru }));
            proof {
                assert forall|j: int| 0 <= j < s0.len() implies s0[j].0 != address by {
                    assert(s0[j].0 == old(regs)@[j].0);
                }
                lemma_assoc_absent(s0, address);
                lemma_assoc_push(s0, address, valid_thru);
                assert(regs_seq(regs@) =~= s0.push((address, valid_thru)));
            }
        },
    }
}

/// Removes `address` from a shared name, where it holds it.
fn shared_remove(regs: &mut Vec<(Address, Registration)>, address: Address)
    requires
        keys_unique(regs_seq(old(regs)@)),
    ensures
        keys_unique(regs_seq(final(regs)@)),
        assoc_view(regs_seq(final(regs)@)) == assoc_view(regs_seq(old(regs)@)).remove(address),
{
    let ghost s0 = regs_seq(regs@);
    match find_reg(regs, address) {
        Some(i) => {
            regs.remove(i);
            proof {
                lemma_assoc_remove(s0, i as int);
                assert(regs_seq(regs@) =~= s0.remove(i as int));
            }
        },
        None => {
            proof {
                assert forall|j: int| 0 <= j < s0.len() implies s0[j].0 != address by {
                    assert(s0[j].0 == old(regs)@[j].0);
                }
                lemma_assoc_absent(s0, address);
                assert(assoc_view(s0).remove(address) =~= assoc_view(s0));
            }
        },
    }
}

/// Splits the registrations of a shared name into those that last beyond
/// `now` and, for each of them, the time it has left.
fn split_live(regs: &Vec<(Address, Registration)>, now: u64) -> (r: (Vec<(Address, Registration)>, Vec<(Address, u64)>))
    requires
        keys_unique(regs_seq(regs@)),
    ensures
        keys_unique(regs_seq(r.0@)),
        assoc_view(regs_seq(r.0@)) == assoc_view(regs_seq(regs@)).restrict(
            assoc_view(regs_seq(regs@)).dom().filter(|a: Address| assoc_view(regs_seq(regs@))[a] > now),
        ),
        r.1.len() == r.0.len(),
        forall|m: int| 0 <= m < r.1.len() ==> #[trigger] r.1@[m] == (r.0@[m].0, (r.0@[m].1.valid_thru - now) as u64),
        forall|m: int| 0 <= m < r.0.len() ==> (#[trigger] r.0@[m]).1.valid_thru > now,
{
    let ghost s = regs_seq(regs@);
    let mut kept: Vec<(Address, Registration)> = Vec::new();
    let mut out: Vec<(Address, u64)> = Vec::new();
    let ghost mut picked: Seq<int> = Seq::empty();
    let mut i: usize = 0;
    while i < regs.len()
        invariant
            0 <= i <= regs.len(),
            s == regs_seq(regs@),
            keys_unique(s),
            picked.len() == kept.len(),
            out.len() == kept.len(),
            forall|m: int| #![trigger kept@[m]] #![trigger picked[m]] 0 <= m < kept.len() ==> 0 <= picked[m] < i
                && kept@[m] == regs@[picked[m]] && regs@[picked[m]].1.valid_thru > now,
            forall|m1: int, m2: int| 0 <= m1 < kept.len() && 0 <= m2 < kept.len() && m1 != m2 ==> picked[m1] != picked[m2],
            forall|j: int| 0 <= j < i && (#[trigger] regs@[j]).1.valid_thru > now ==> exists|m: int| 0 <= m < kept.len() && picked[m] == j,
            forall|m: int| 0 <= m < out.len() ==> #[trigger] out@[m] == (kept@[m].0, (kept@[m].1.valid_thru - now) as u64),
        decreases regs.len() - i,
    {
        let p = regs[i];
        if p.1.valid_thru > now {
            let ghost old_kept = kept@;
            let ghost old_picked = picked;
            let ghost old_out = out@;
            kept.push(p);
            out.push((p.0, p.1.valid_thru - now));
            proof {
                picked = picked.push(i as int);
                assert forall|m: int| #![trigger kept@[m]] #![trigger picked[m]] 0 <= m < kept.len() implies 0 <= picked[m] < i + 1
                    && kept@[m] == regs@[picked[m]] && regs@[picked[m]].1.valid_thru > now by {
                    if m < old_kept.len() {
                        assert(kept@[m] == old_kept[m]);
                        assert(picked[m] == old_picked[m]);
                    }
                }
                assert forall|m1: int, m2: int| 0 <= m1 < kept.len() && 0 <= m2 < kept.len() && m1 != m2 implies picked[m1] != picked[m2] by {
                    if m1 < old_kept.len() && m2 < old_kept.len() {
                        assert(picked[m1] == old_picked[m1] && picked[m2] == old_picked[m2]);
                    } else if m1 < old_kept.len() {
                        assert(picked[m1] == old_picked[m1]);
                    } else if m2 < old_kept.len() {
                        assert(picked[m2] == old_picked[m2]);
                    }
                }
                assert forall|j: int| 0 <= j < i + 1 && (#[trigger] regs@[j]).1.valid_thru > now implies exists|m: int|
                    0 <= m < kept.len() && picked[m] == j by {
                    if j == i {
                        assert(picked[kept.len() - 1] == j);
                    } else {
                        let m = choose|m: int| 0 <= m < old_kept.len() && old_picked[m] == j;
                        assert(picked[m] == old_picked[m]);
                    }
                }
                assert forall|m: int| 0 <= m < out.len() implies #[trigger] out@[m] == (kept@[m].0, (kept@[m].1.valid_thru - now) as u64) by {
                    if m < old_out.len() {
                        assert(out@[m] == old_out[m]);
                        assert(kept@[m] == old_kept[m]);
                    }
                }
            }
        }
        i = i + 1;
    }
    let ghost k = regs_seq(kept@);
    proof {
        assert forall|a: int, b: int| 0 <= a < k.len() && 0 <= b < k.len() && a != b implies k[a].0 != k[b].0 by {
            assert(kept@[a] == regs@[picked[a]] && kept@[b] == regs@[picked[b]]);
            assert(s[picked[a]].0 == regs@[picked[a]].0);
            assert(s[picked[b]].0 == regs@[picked[b]].0);
        }
        lemma_assoc_all(s);
        lemma_assoc_all(k);
        let full = assoc_view(s);
        let live = full.restrict(full.dom().filter(|a: Address| full[a] > now));
        assert forall|a: Address| #[trigger] assoc_view(k).contains_key(a) <==> live.contains_key(a) by {
            if assoc_view(k).contains_key(a) {
                let m = choose|m: int| 0 <= m < k.len() && k[m].0 == a;
                let j = picked[m];
                assert(kept@[m] == regs@[j]);
                assert(s[j] == (a, regs@[j].1.valid_thru));
                assert(full[a] == s[j].1);
            }
            if live.contains_key(a) {
                let j = choose|j: int| 0 <= j < s.len() && s[j].0 == a;
                assert(full[a] == s[j].1);
                assert(regs@[j].1.valid_thru > now);
                let m = choose|m: int| 0 <= m < kept.len() && picked[m] == j;
                assert(k[m].0 == a);
            }
        }
        assert forall|a: Address| #[trigger] assoc_view(k).contains_key(a) implies assoc_view(k)[a] == live[a] by {
            let m = choose|m: int| 0 <= m < k.len() && k[m].0 == a;
            let j = picked[m];
            assert(kept@[m] == regs@[j]);
            assert(s[j] == (a, regs@[j].1.valid_thru));
            assert(full[a] == s[j].1);
        }
        assert(assoc_view(k) =~= live);
    }
    (kept, out)
}

impl NameTable {
    /// What the table keeps: each name once, and every shared name with at
    /// least one holder, each once.
    pub closed spec fn wf(&self) -> bool {
        &&& keys_unique(names_seq(self.names@))
        &&& forall|i: int| 0 <= i < self.names@.len() ==> (#[trigger] self.names@[i]).1.wf()
    }

    /// An empty table.
    pub fn new() -> (r: Self)
        ensures
            r.wf(),
            r@ == Map::<Seq<char>, NameView>::empty(),
    {
        let r = NameTable { names: Vec::new() };
        assert(r@ =~= Map::<Seq<char>, NameView>::empty());
        r
    }

    fn position(&self, key: &String) -> (r: Option<usize>)
        ensures
            r matches Some(i) ==> i < self.names.len() && self.names@[i as int].0@ == key@,
            r is None ==> forall|i: int| 0 <= i < self.names.len() ==> self.names@[i].0@ != key@,
    {
        let mut i: usize = 0;
        while i < self.names.len()
            invariant
                0 <= i <= self.names.len(),
                forall|j: int| 0 <= j < i ==> self.names@[j].0@ != key@,
            decreases self.names.len() - i,
        {
            if self.names[i].0 == *key {
                return Some(i);
            }
            i = i + 1;
        }
        None
    }

    /// Puts `(k, name)` where the entry `i` was taken out.
    fn put_back(&mut self, i: usize, k: String, name: Name)
        requires
            i <= old(self).names.len(),
        ensures
            final(self).names@ == old(self).names@.insert(i as int, (k, name)),
    {
        self.names.insert(i, (k, name));
    }

    /// Registers `address` under `key` until `valid_thru`: exclusively, where
    /// `exclusive`, or shared with other addresses. An exclusive registration
    /// renews the one that the same address holds, and conflicts with any
    /// other; a shared one conflicts with an exclusive holder.
    pub fn register(&mut self, key: String, address: Address, exclusive: bool, valid_thru: u64) -> (r: Result<(), RegisterErrorKind>)
        requires
            old(self).wf(),
        ensures
            final(self).wf(),
            match registered(old(self)@, key@, address, exclusive, valid_thru) {
                Some(n) => r is Ok && final(self)@ == n,
                None => r == Err::<(), RegisterErrorKind>(RegisterErrorKind::Conflict) && final(self)@ == old(self)@,
            },
    {
        let ghost s0 = names_seq(self.names@);
        let ghost old_names = self.names@;
        let registration = Registration { valid_thru };
        match self.position(&key) {
            None => {
                let name = if exclusive {
                    Name::Exclusive { address, registration }
                } else {
                    let mut regs: Vec<(Address, Registration)> = Vec::new();
                    regs.push((address, registration));
                    proof {
                        assert(regs_seq(regs@) =~= seq![(address, valid_thru)]);
                        assert(assoc_view(regs_seq(regs@)) =~= map![address => valid_thru]) by {
                            lemma_assoc_index(regs_seq(regs@), 0);
                        }
                    }
                    Name::Shared(regs)
                };
                let ghost nv = name.view_of();
                self.names.push((key, name));
                proof {
                    assert forall|j: int| 0 <= j < s0.len() implies s0[j].0 != key@ by {
                        assert(s0[j].0 == old_names[j].0@);
                    }
                    lemma_assoc_absent(s0, key@);
                    lemma_assoc_push(s0, key@, nv);
                    assert(names_seq(self.names@) =~= s0.push((key@, nv)));
                    assert forall|j: int| 0 <= j < self.names@.len() implies (#[trigger] self.names@[j]).1.wf() by {
                        if j < old_names.len() {
                            assert(self.names@[j] == old_names[j]);
                        }
                    }
                }
                Ok(())
            },
            Some(i) => {
                proof {
                    lemma_assoc_index(s0, i as int);
                    assert(old_names[i as int].1.wf());
                }
                let (k, name) = self.names.remove(i);
                proof {
                    assert(self.names@ == old_names.remove(i as int));
                }
                let (r, new_name) = match name {
                    Name::Exclusive { address: existing, registration: old_registration } => {
                        if exclusive && existing == address {
                            (Ok(()), Name::Exclusive { address, registration })
                        } else {
                            proof {
                                if exclusive {
                                    assert(!map![existing => old_registration.valid_thru].contains_key(address));
                                }
                            }
                            (Err(RegisterErrorKind::Conflict), Name::Exclusive { address: existing, registration: old_registration })
                        }
                    },
                    Name::Shared(regs) => {
                        if exclusive {
                            (Err(RegisterErrorKind::Conflict), Name::Shared(regs))
                        } else {
                            let mut regs = regs;
                            shared_insert(&mut regs, address, valid_thru);
                            (Ok(()), Name::Shared(regs))
                        }
                    },
                };
                let ghost nv = new_name.view_of();
                proof {
                    assert(new_name.wf());
                }
                self.put_back(i, k, new_name);
                proof {
                    assert(self.names@ =~= old_names.update(i as int, (k, new_name)));
                    lemma_assoc_update(s0, i as int, nv);
                    assert(names_seq(self.names@) =~= s0.update(i as int, (s0[i as int].0, nv)));
                    assert forall|j: int| 0 <= j < self.names@.len() implies (#[trigger] self.names@[j]).1.wf() by {
                        if j != i {
                            assert(self.names@[j] == old_names[j]);
                        }
                    }
                    if r is Err {
                        assert(self@ =~= old(self)@);
                    }
                }
                r
            },
        }
    }

    /// Unregisters `address` from `key`. A shared name goes with its last
    /// holder; an exclusive one goes with its holder.
    pub fn unregister(&mut self, key: String, address: Address) -> (r: Result<(), UnregisterErrorKind>)
        requires
            old(self).wf(),
        ensures
            final(self).wf(),
            match unregistered(old(self)@, key@, address) {
                Some(n) => r is Ok && final(self)@ == n,
                None => r == Err::<(), UnregisterErrorKind>(UnregisterErrorKind::NotFound) && final(self)@ == old(self)@,
            },
    {
        let ghost s0 = names_seq(self.names@);
        let ghost old_names = self.names@;
        match self.position(&key) {
            None => {
                proof {
                    assert forall|j: int| 0 <= j < s0.len() implies s0[j].0 != key@ by {
                        assert(s0[j].0 == old_names[j].0@);
                    }
                    lemma_assoc_absent(s0, key@);
                }
                Err(UnregisterErrorKind::NotFound)
            },
            Some(i) => {
                proof {
                    lemma_assoc_index(s0, i as int);
                    assert(old_names[i as int].1.wf());
                }
                let (k, name) = self.names.remove(i);
                proof {
                    assert(self.names@ == old_names.remove(i as int));
                    lemma_assoc_remove(s0, i as int);
                    assert(names_seq(self.names@) =~= s0.remove(i as int));
                    assert forall|j: int| 0 <= j < self.names@.len() implies (#[trigger] self.names@[j]).1.wf() by {
                        let j2 = if j < i { j } else { j + 1 };
                        assert(self.names@[j] == old_names[j2]);
                    }
                }
                match name {
                    Name::Exclusive { address: existing, registration } => {
                        if existing == address {
                            Ok(())
                        } else {
                            let ghost nv = (Name::Exclusive { address: existing, registration }).view_of();
                            self.put_back(i, k, Name::Exclusive { address: existing, registration });
                            proof {
                                assert(!map![existing => registration.valid_thru].contains_key(address));
                                assert(self.names@ =~= old_names);
                            }
                            Err(UnregisterErrorKind::NotFound)
                        }
                    },
                    Name::Shared(regs) => {
                        let mut regs = regs;
                        shared_remove(&mut regs, address);
                        if regs.len() == 0 {
                            proof {
                                assert(assoc_view(regs_seq(regs@)).dom() =~= Set::empty());
                            }
                            Ok(())
                        } else {
                            let ghost nv = (false, assoc_view(regs_seq(regs@)));
                            proof {
                                lemma_assoc_index(regs_seq(regs@), 0);
                                assert(assoc_view(regs_seq(regs@)).dom().contains(regs_seq(regs@)[0].0));
                            }
                            self.put_back(i, k, Name::Shared(regs));
                            proof {
                                assert(self.names@ =~= old_names.update(i as int, (k, Name::Shared(regs))));
                                lemma_assoc_update(s0, i as int, nv);
                                assert(names_seq(self.names@) =~= s0.update(i as int, (s0[i as int].0, nv)));
                                assert forall|j: int| 0 <= j < self.names@.len() implies (#[trigger] self.names@[j]).1.wf() by {
                                    if j != i {
                                        assert(self.names@[j] == old_names[j]);
                                    }
                                }
                            }
                            Ok(())
                        }
                    },
                }
            },
        }
    }

    /// Resolves `key` into the addresses that have registered it, each with
    /// the instant its registration lasts to, and drops (without returning
    /// them) the registrations that ran out no later than `now`; a name that is
    /// left with none goes. Each address comes with the time it has left.
    pub fn resolve_at(&mut self, key: String, now: u64) -> (r: Vec<(Address, u64)>)
        requires
            old(self).wf(),
        ensures
            final(self).wf(),
            final(self)@ == evicted(old(self)@, key@, now),
            old(self)@.contains_key(key@) ==> {
                &&& forall|i: int| 0 <= i < r.len() ==> #[trigger] old(self)@[key@].1.contains_key(r@[i].0)
                    && old(self)@[key@].1[r@[i].0] > now && r@[i].1 == old(self)@[key@].1[r@[i].0] - now
                &&& forall|a: Address| #[trigger] old(self)@[key@].1.contains_key(a) && old(self)@[key@].1[a] > now
                    ==> exists|i: int| 0 <= i < r.len() && r@[i].0 == a
                &&& forall|i: int, j: int| 0 <= i < r.len() && 0 <= j < r.len() && i != j ==> r@[i].0 != r@[j].0
            },
            !old(self)@.contains_key(key@) ==> r.len() == 0,
    {
        let ghost s0 = names_seq(self.names@);
        let ghost old_names = self.names@;
        match self.position(&key) {
            None => {
                proof {
                    assert forall|j: int| 0 <= j < s0.len() implies s0[j].0 != key@ by {
                        assert(s0[j].0 == old_names[j].0@);
                    }
                    lemma_assoc_absent(s0, key@);
                }
                Vec::new()
            },
            Some(i) => {
                proof {
                    lemma_assoc_index(s0, i as int);
                    assert(old_names[i as int].1.wf());
                }
                let (k, name) = self.names.remove(i);
                proof {
                    assert(self.names@ == old_names.remove(i as int));
                    lemma_assoc_remove(s0, i as int);
                    assert(names_seq(self.names@) =~= s0.remove(i as int));
                    assert forall|j: int| 0 <= j < self.names@.len() implies (#[trigger] self.names@[j]).1.wf() by {
                        let j2 = if j < i { j } else { j + 1 };
                        assert(self.names@[j] == old_names[j2]);
                    }
                }
                let ghost regs_map = old(self)@[key@].1;
                match name {
                    Name::Exclusive { address, registration } => {
                        if registration.valid_thru > now {
                            self.put_back(i, k, Name::Exclusive { address, registration });
                            let mut out: Vec<(Address, u64)> = Vec::new();
                            out.push((address, registration.valid_thru - now));
                            proof {
                                assert(self.names@ =~= old_names);
                                assert(old_names[i as int].1 == Name::Exclusive { address, registration });
                                assert(regs_map =~= map![address => registration.valid_thru]);
                                let live = regs_map.restrict(regs_map.dom().filter(|a: Address| regs_map[a] > now));
                                assert(live =~= regs_map);
                                assert(live.dom().contains(address));
                                assert(!(live.dom() =~= Set::empty()));
                                assert(old(self)@[key@].0);
                                assert(old(self)@.insert(key@, (true, live)) =~= old(self)@);
                                assert(self@ == old(self)@);
                                assert(evicted(old(self)@, key@, now) == old(self)@);
                                assert(regs_map.contains_key(out@[0].0));
                            }
                            out
                        } else {
                            proof {
                                assert(old_names[i as int].1 == Name::Exclusive { address, registration });
                                assert(regs_map =~= map![address => registration.valid_thru]);
                                let live = regs_map.restrict(regs_map.dom().filter(|a: Address| regs_map[a] > now));
                                assert(live.dom() =~= Set::empty());
                                assert(self@ =~= old(self)@.remove(key@));
                            }
                            Vec::new()
                        }
                    },
                    Name::Shared(regs) => {
                        let (live, out) = split_live(&regs, now);
                        if live.len() == 0 {
                            proof {
                                assert(old_names[i as int].1 == Name::Shared(regs));
                                assert(regs_map == assoc_view(regs_seq(regs@)));
                                assert(assoc_view(regs_seq(live@)).dom() =~= Set::empty());
                                assert(self@ =~= old(self)@.remove(key@));
                                assert forall|a: Address| #[trigger] regs_map.contains_key(a) && regs_map[a] > now implies false by {
                                    assert(assoc_view(regs_seq(live@)).contains_key(a));
                                }
                            }
                            Vec::new()
                        } else {
                            let ghost nv = (false, assoc_view(regs_seq(live@)));
                            proof {
                                lemma_assoc_index(regs_seq(live@), 0);
                                assert(assoc_view(regs_seq(live@)).dom().contains(regs_seq(live@)[0].0));
                                lemma_assoc_all(regs_seq(live@));
                                lemma_assoc_all(regs_seq(regs@));
                            }
                            self.put_back(i, k, Name::Shared(live));
                            proof {
                                assert(self.names@ =~= old_names.update(i as int, (k, Name::Shared(live))));
                                lemma_assoc_update(s0, i as int, nv);
                                assert(names_seq(self.names@) =~= s0.update(i as int, (s0[i as int].0, nv)));
                                assert forall|j: int| 0 <= j < self.names@.len() implies (#[trigger] self.names@[j]).1.wf() by {
                                    if j != i {
                                        assert(self.names@[j] == old_names[j]);
                                    }
                                }
                                assert(old_names[i as int].1 == Name::Shared(regs));
                                assert(regs_map == assoc_view(regs_seq(regs@)));
                                assert(self@ == old(self)@.insert(key@, nv));
                                let lv = assoc_view(regs_seq(live@));
                                assert forall|n: int| 0 <= n < out.len() implies #[trigger] regs_map.contains_key(out@[n].0)
                                    && regs_map[out@[n].0] > now && out@[n].1 == regs_map[out@[n].0] - now by {
                                    assert(regs_seq(live@)[n].0 == live@[n].0);
                                    assert(lv.contains_key(live@[n].0));
                                }
                                assert forall|a: Address| #[trigger] regs_map.contains_key(a) && regs_map[a] > now implies exists|n: int|
                                    0 <= n < out.len() && out@[n].0 == a by {
                                    assert(lv.contains_key(a));
                                    let n = choose|n: int| 0 <= n < regs_seq(live@).len() && regs_seq(live@)[n].0 == a;
                                    assert(out@[n].0 == a);
                                }
                                assert forall|a: int, b: int| 0 <= a < out.len() && 0 <= b < out.len() && a != b implies out@[a].0 != out@[b].0 by {
                                    assert(regs_seq(live@)[a].0 == out@[a].0);
                                    assert(regs_seq(live@)[b].0 == out@[b].0);
                                }
                            }
                            out
                        }
                    },
                }
            },
        }
    }

    /// Registers `address` under `key` for `ttl` ticks from `now`; where the
    /// sum overflows, the registration lasts to `now`.
    pub fn register_for(&mut self, key: String, address: Address, exclusive: bool, ttl: u64, now: u64) -> (r: Result<(), RegisterErrorKind>)
        requires
            old(self).wf(),
        ensures
            final(self).wf(),
            match registered(old(self)@, key@, address, exclusive, valid_thru_of(now, ttl)) {
                Some(n) => r is Ok && final(self)@ == n,
                None => r == Err::<(), RegisterErrorKind>(RegisterErrorKind::Conflict) && final(self)@ == old(self)@,
            },
    {
        let valid_thru = match now.checked_add(ttl) {
            Some(t) => t,
            None => now,
        };
        self.register(key, address, exclusive, valid_thru)
    }
}

/// The instant a registration of `ttl` ticks made at `now` lasts to.
pub open spec fn valid_thru_of(now: u64, ttl: u64) -> u64 {
    if now + ttl <= u64::MAX {
        (now + ttl) as u64
    } else {
        now
    }
}

/// The outcome of resolving a name: the addresses with the time each
/// registration had left when the request was made.
pub struct Resolution {
    key: String,
    requested_at: u64,
    entries: Vec<(Address, u64)>,
}

/// A registration with `left` ticks to go at `requested_at` is still valid at `now`.
pub open spec fn still_valid_at(requested_at: u64, now: u64, left: u64) -> bool {
    requested_at + left <= u64::MAX && now < requested_at + left
}

impl Resolution {
    pub fn new(key: String, requested_at: u64, entries: Vec<(Address, u64)>) -> (r: Self)
        ensures
            r.key() == key@,
            r.requested_at() == requested_at,
            r.entries() == entries@,
    {
        Resolution { key, requested_at, entries }
    }

    pub closed spec fn key(&self) -> Seq<char> {
        self.key@
    }

    pub closed spec fn requested_at(&self) -> u64 {
        self.requested_at
    }

    pub closed spec fn entries(&self) -> Seq<(Address, u64)> {
        self.entries@
    }

    /// The name that was resolved.
    pub fn name(&self) -> (r: &String)
        ensures
            r@ == self.key(),
    {
        &self.key
    }

    fn still_valid(&self, now: u64, left: u64) -> (r: bool)
        ensures
            r == still_valid_at(self.requested_at(), now, left),
    {
        match self.requested_at.checked_add(left) {
            Some(deadline) => now < deadline,
            None => false,
        }
    }

    /// The first address of the resolution, where its registration is still
    /// valid at `now`.
    pub fn first(&self, now: u64) -> (r: Option<Address>)
        ensures
            r == (if self.entries().len() > 0 && still_valid_at(self.requested_at(), now, self.entries()[0].1) {
                Some(self.entries()[0].0)
            } else {
                None
            }),
    {
        if self.entries.len() > 0 && self.still_valid(now, self.entries[0].1) {
            Some(self.entries[0].0)
        } else {
            None
        }
    }

    /// The first address of the resolution whose registration is still valid
    /// at `now`.
    pub fn any(&self, now: u64) -> (r: Option<Address>)
        ensures
            r matches Some(a) ==> exists|i: int|
                0 <= i < self.entries().len() && #[trigger] self.entries()[i].0 == a
                    && still_valid_at(self.requested_at(), now, self.entries()[i].1)
                    && forall|j: int| 0 <= j < i ==> !still_valid_at(self.requested_at(), now, #[trigger] self.entries()[j].1),
            r is None ==> forall|i: int| 0 <= i < self.entries().len()
                ==> !still_valid_at(self.requested_at(), now, #[trigger] self.entries()[i].1),
    {
        let mut i: usize = 0;
        while i < self.entries.len()
            invariant
                0 <= i <= self.entries.len(),
                forall|j: int| 0 <= j < i ==> !still_valid_at(self.requested_at(), now, #[trigger] self.entries()[j].1),
            decreases self.entries.len() - i,
        {
            if self.still_valid(now, self.entries[i].1) {
                assert(self.entries()[i as int].0 == self.entries[i as int].0);
                return Some(self.entries[i].0);
            }
            i = i + 1;
        }
        None
    }
}

/// An exclusive hold keeps others out: while `key` is held exclusively, no
/// other address can register it, exclusively or shared.
pub proof fn law_exclusive_excludes_others(
    names: Map<Seq<char>, NameView>,
    key: Seq<char>,
    other: Address,
    exclusive: bool,
    valid_thru: u64,
)
    requires
        names.contains_key(key),
        names[key].0,
        !names[key].1.contains_key(other),
    ensures
        registered(names, key, other, exclusive, valid_thru) is None,
{
}

/// Unregistering undoes registering: a name registered afresh and then
/// unregistered by the same address is gone again.
pub proof fn law_unregister_undoes_register(
    names: Map<Seq<char>, NameView>,
    key: Seq<char>,
    address: Address,
    exclusive: bool,
    valid_thru: u64,
)
    requires
        !names.contains_key(key),
    ensures
        registered(names, key, address, exclusive, valid_thru) matches Some(n)
            && unregistered(n, key, address) == Some(names),
{
    let n = registered(names, key, address, exclusive, valid_thru).unwrap();
    assert(n[key].1.remove(address).dom() =~= Set::empty());
    assert(n.remove(key) =~= names);
}

/// A registration is resolved until it runs out: one that lasts beyond `now`
/// survives the eviction that resolving at `now` makes.
pub proof fn law_live_registration_survives(
    names: Map<Seq<char>, NameView>,
    key: Seq<char>,
    address: Address,
    exclusive: bool,
    valid_thru: u64,
    now: u64,
)
    requires
        valid_thru > now,
        registered(names, key, address, exclusive, valid_thru) is Some,
    ensures
        ({
            let n = registered(names, key, address, exclusive, valid_thru).unwrap();
            let after = evicted(n, key, now);
            &&& after.contains_key(key)
            &&& after[key].1.contains_key(address)
            &&& after[key].1[address] == valid_thru
        }),
{
    let n = registered(names, key, address, exclusive, valid_thru).unwrap();
    let regs = n[key].1;
    assert(regs.contains_key(address) && regs[address] == valid_thru);
    let live = regs.restrict(regs.dom().filter(|a: Address| regs[a] > now));
    assert(live.dom().contains(address));
    assert(!(live.dom() =~= Set::empty()));
}

/// What runs out is dropped: after resolving at `now`, no registration of the
/// name lasts to `now` or earlier.
pub proof fn law_expired_registrations_dropped(names: Map<Seq<char>, NameView>, key: Seq<char>, now: u64)
    ensures
        evicted(names, key, now).contains_key(key) ==> forall|a: Address|
            #[trigger] evicted(names, key, now)[key].1.contains_key(a) ==> evicted(names, key, now)[key].1[a] > now,
{
}

} // verus!
