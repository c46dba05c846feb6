//! The uniform supervisor: many children from one child spec, started and
//! stopped on request.
//!
//! Its bookkeeping is a state machine over its children. Each child has a
//! status: `Starting` while its start runs, `Started(address)` once it is up,
//! `Stopping(address)` once a stop was requested. The supervisor finds a
//! child by key (the start reports back by key) and by address (requests and
//! exit signals name the address). The actor around it performs what each
//! step returns: link, stop, restart, reap.

use slotmap::{DefaultKey, Key, KeyData, SlotMap};
use vstd::prelude::*;

use crate::address::Address;
use crate::assoc::{
    assoc_view, keys_unique, lemma_assoc_absent, lemma_assoc_index, lemma_assoc_push,
    lemma_assoc_remove,
};
use crate::child_spec::{ActorFactory, ChildSpec};
use crate::slots::{key_is_issued, SLOTS_MAX};

verus! {

/// A uniform supervisor: every child is started from `child_spec`.
#[derive(Clone)]
pub struct UniformSup<F, C> {
    pub child_spec: ChildSpec<F, C>,
}

impl<F, C> UniformSup<F, C> {
    pub fn new(child_spec: ChildSpec<F, C>) -> (r: Self)
        ensures
            r.child_spec == child_spec,
    {
        UniformSup { child_spec }
    }
}

/// Why a child could not be made runnable again.
#[derive(Debug, Clone, Copy, PartialEq, Eq, Structural)]
pub enum MakeRunnableError {
    /// A temporary child's arguments were used by its first start.
    ArgsGone,
}

/// A restart was refused: the child failed more often than its restart
/// intensity allows.
#[derive(Debug, Clone, Copy, PartialEq, Eq, Structural)]
pub struct RestartIntensityReached;

/// The restart policy of the children of a uniform supervisor, with the data
/// it keeps for each child.
pub trait UniformChildType<A> {
    type Data;

    fn new_data(&self, args: A) -> Self::Data;

    fn make_runnable<F: ActorFactory<Args = A>>(&self, factory: &F, data: &mut Self::Data) -> Result<
        F::Runnable,
        MakeRunnableError,
    >;

    /// Whether a child that exited is restarted; `within_intensity` is the
    /// verdict of the restart-intensity check on this exit.
    fn should_restart(&self, data: &mut Self::Data, normal_exit: bool, within_intensity: bool) -> Result<
        bool,
        RestartIntensityReached,
    >;
}

/// Children that are never restarted: their arguments are used once.
#[derive(Debug, Clone, Copy)]
pub struct Temporary;

impl<A> UniformChildType<A> for Temporary {
    type Data = Option<A>;

    fn new_data(&self, args: A) -> (r: Option<A>)
        ensures
            r == Some(args),
    {
        Some(args)
    }

    fn make_runnable<F: ActorFactory<Args = A>>(&self, factory: &F, data: &mut Option<A>) -> (r: Result<
        F::Runnable,
        MakeRunnableError,
    >)
        ensures
            *final(data) is None,
            r is Ok <==> (*old(data)) is Some,
            r matches Err(e) ==> e == MakeRunnableError::ArgsGone,
    {
        match data.take() {
            Some(args) => Ok(factory.produce(args)),
            None => Err(MakeRunnableError::ArgsGone),
        }
    }

    fn should_restart(&self, data: &mut Option<A>, normal_exit: bool, within_intensity: bool) -> (r: Result<
        bool,
        RestartIntensityReached,
    >)
        ensures
            r == Ok::<bool, RestartIntensityReached>(false),
            *final(data) == *old(data),
    {
        Ok(false)
    }
}

/// How many restarts a child may have within a span of time.
#[derive(Debug, Clone, Copy)]
pub struct RestartIntensity {
    pub max_restarts: usize,
    pub within: std::time::Duration,
}

/// Children that are restarted, within their restart intensity; with
/// `RESTART_ON_NORMAL_EXIT` also after a normal exit.
pub struct Restarting<const RESTART_ON_NORMAL_EXIT: bool> {
    restart_intensity: RestartIntensity,
}

impl<const RESTART_ON_NORMAL_EXIT: bool> Restarting<RESTART_ON_NORMAL_EXIT> {
    pub fn new(restart_intensity: RestartIntensity) -> (r: Self)
        ensures
            r.restart_intensity() == restart_intensity,
    {
        Restarting { restart_intensity }
    }

    pub closed spec fn restart_intensity(&self) -> RestartIntensity {
        self.restart_intensity
    }
}

/// `run` is what the factory produces from a clone of `args`.
pub open spec fn produced_from_clone<A: Clone, F: ActorFactory<Args = A>>(factory: &F, args: A, run: F::Runnable) -> bool {
    exists|a: A| cloned::<A>(args, a) && #[trigger] call_ensures(F::produce, (factory, a), run)
}

/// What a restarting child keeps: the arguments of each of its starts.
pub struct ChildData<A> {
    args: A,
}

impl<A> ChildData<A> {
    pub closed spec fn args(&self) -> A {
        self.args
    }
}

impl<const RESTART_ON_NORMAL_EXIT: bool, A: Clone> UniformChildType<A> for Restarting<
    RESTART_ON_NORMAL_EXIT,
> {
    type Data = ChildData<A>;

    fn new_data(&self, args: A) -> (r: ChildData<A>)
        ensures
            r.args() == args,
    {
        ChildData { args }
    }

    fn make_runnable<F: ActorFactory<Args = A>>(&self, factory: &F, data: &mut ChildData<A>) -> (r:
        Result<F::Runnable, MakeRunnableError>)
        ensures
            r is Ok,
            r matches Ok(run) ==> produced_from_clone(factory, old(data).args(), run),
            final(data).args() == old(data).args(),
    {
        let args = data.args.clone();
        Ok(factory.produce(args))
    }

    fn should_restart(&self, data: &mut ChildData<A>, normal_exit: bool, within_intensity: bool) -> (r:
        Result<bool, RestartIntensityReached>)
        ensures
            within_intensity ==> r == Ok::<bool, RestartIntensityReached>(
                !normal_exit || RESTART_ON_NORMAL_EXIT,
            ),
            !within_intensity ==> r == Err::<bool, RestartIntensityReached>(RestartIntensityReached),
            final(data).args() == old(data).args(),
    {
        if within_intensity {
            Ok(!normal_exit || RESTART_ON_NORMAL_EXIT)
        } else {
            Err(RestartIntensityReached)
        }
    }
}

/// Where a child of a uniform supervisor is in its life.
#[derive(Debug, Clone, Copy, PartialEq, Eq, Structural)]
pub enum ChildStatus {
    Starting,
    Started(Address),
    Stopping(Address),
}

/// The key of a child, as the supervisor issued it.
#[derive(Debug, Clone, Copy, PartialEq, Eq, Structural)]
pub struct ChildKey(u64);

impl ChildKey {
    pub closed spec fn id(self) -> u64 {
        self.0
    }

    #[verifier::type_invariant]
    closed spec fn issued(self) -> bool {
        key_is_issued(self.0)
    }
}

/// A slot map of child statuses.
#[verifier::external_body]
pub struct ChildSlots {
    inner: SlotMap<DefaultKey, ChildStatus>,
}

/// Names what a slot map of child statuses holds, by key.
pub uninterp spec fn child_slots(m: ChildSlots) -> Map<u64, ChildStatus>;

/// `SlotMap::new`: an empty slot map.
#[verifier::external_body]
fn child_slots_new() -> (r: ChildSlots)
    ensures
        child_slots(r) =~= Map::empty(),
{
    ChildSlots { inner: SlotMap::new() }
}

/// `SlotMap::insert`: stores the status under a key that the map did not
/// hold, and returns that key. It panics when the map holds `SLOTS_MAX` values.
#[verifier::external_body]
fn child_slots_insert(m: &mut ChildSlots, v: ChildStatus) -> (k: u64)
    requires
        child_slots(*old(m)).dom().finite(),
        child_slots(*old(m)).dom().len() < SLOTS_MAX,
    ensures
        !child_slots(*old(m)).dom().contains(k),
        key_is_issued(k),
        child_slots(*final(m)) == child_slots(*old(m)).insert(k, v),
{
    m.inner.insert(v).data().as_ffi()
}

/// `SlotMap::get`: the status under a key, if the map holds it.
#[verifier::external_body]
fn child_slots_get(m: &ChildSlots, k: u64) -> (r: Option<ChildStatus>)
    requires
        key_is_issued(k),
    ensures
        r == (if child_slots(*m).dom().contains(k) { Some(child_slots(*m)[k]) } else { None }),
{
    m.inner.get(DefaultKey::from(KeyData::from_ffi(k))).copied()
}

/// `SlotMap`'s `IndexMut`: replaces the status under a key that the map holds.
#[verifier::external_body]
fn child_slots_replace(m: &mut ChildSlots, k: u64, v: ChildStatus)
    requires
        key_is_issued(k),
        child_slots(*old(m)).dom().contains(k),
    ensures
        child_slots(*final(m)) == child_slots(*old(m)).insert(k, v),
{
    m.inner[DefaultKey::from(KeyData::from_ffi(k))] = v;
}

/// `SlotMap::remove`: takes the status under a key out of the map.
#[verifier::external_body]
fn child_slots_remove(m: &mut ChildSlots, k: u64) -> (r: Option<ChildStatus>)
    requires
        key_is_issued(k),
    ensures
        child_slots(*final(m)) == child_slots(*old(m)).remove(k),
        r == (if child_slots(*old(m)).dom().contains(k) { Some(child_slots(*old(m))[k]) } else { None }),
{
    m.inner.remove(DefaultKey::from(KeyData::from_ffi(k)))
}

/// `SlotMap::drain`: every key with its status, each once, leaving the map
/// empty.
#[verifier::external_body]
fn child_slots_drain(m: &mut ChildSlots) -> (r: Vec<(u64, ChildStatus)>)
    ensures
        child_slots(*final(m)) =~= Map::empty(),
        forall|i: int| 0 <= i < r.len() ==> #[trigger] child_slots(*old(m)).dom().contains(r@[i].0)
            && child_slots(*old(m))[r@[i].0] == r@[i].1,
        forall|k: u64| #[trigger] child_slots(*old(m)).dom().contains(k)
            ==> exists|i: int| 0 <= i < r.len() && r@[i].0 == k,
        forall|i: int, j: int| 0 <= i < r.len() && 0 <= j < r.len() && i != j ==> r@[i].0 != r@[j].0,
{
    m.inner.drain().map(|(k, v)| (k.data().as_ffi(), v)).collect()
}

/// The address of a child that has one.
pub open spec fn status_address(s: ChildStatus) -> Option<Address> {
    match s {
        ChildStatus::Starting => None,
        ChildStatus::Started(a) => Some(a),
        ChildStatus::Stopping(a) => Some(a),
    }
}

/// Some child is started at `a`.
pub open spec fn has_started_child(statuses: Map<u64, ChildStatus>, a: Address) -> bool {
    exists|k: u64| #[trigger] statuses.dom().contains(k) && statuses[k] == ChildStatus::Started(a)
}

/// One of the first `upto` drained children was started at `a`.
pub open spec fn started_among(drained: Seq<(u64, ChildStatus)>, upto: int, a: Address) -> bool {
    exists|j: int| 0 <= j < upto && #[trigger] drained[j].1 == ChildStatus::Started(a)
}

/// `r` lists the addresses of the started children among `statuses`, each
/// once.
pub open spec fn started_addresses(statuses: Map<u64, ChildStatus>, r: Seq<Address>) -> bool {
    &&& forall|i: int| 0 <= i < r.len() ==> #[trigger] has_started_child(statuses, r[i])
    &&& forall|k: u64| #[trigger] statuses.dom().contains(k) && statuses[k] is Started
        ==> r.contains(status_address(statuses[k])->0)
    &&& forall|i: int, j: int| 0 <= i < r.len() && 0 <= j < r.len() && i != j ==> r[i] != r[j]
}

/// The children of a uniform supervisor.
pub struct Children {
    primary: ChildSlots,
    by_address: Vec<(Address, u64)>,
}

/// The children as the contracts see them: the status of each child by key,
/// and the key of each child by address.
pub type ChildrenView = (Map<u64, ChildStatus>, Map<Address, u64>);

impl View for Children {
    type V = ChildrenView;

    closed spec fn view(&self) -> ChildrenView {
        (child_slots(self.primary), assoc_view(self.by_address@))
    }
}

/// The statuses and the address index agree: a child is found by address
/// exactly when it has an address, and then under its own key.
pub open spec fn children_wf(v: ChildrenView) -> bool {
    &&& v.0.dom().finite()
    &&& forall|k: u64| #[trigger] v.0.dom().contains(k) ==> key_is_issued(k)
    &&& forall|a: Address| #[trigger] v.1.contains_key(a) ==> v.0.dom().contains(v.1[a])
        && status_address(v.0[v.1[a]]) == Some(a)
    &&& forall|k: u64| #[trigger] v.0.dom().contains(k) && status_address(v.0[k]) is Some
        ==> v.1.contains_key(status_address(v.0[k])->0) && v.1[status_address(v.0[k])->0] == k
}

/// What a request to stop a child is answered.
#[derive(Debug, Clone, Copy, PartialEq, Eq, Structural)]
pub enum StopDecision {
    /// The child is now stopping: stop it and reply with the outcome.
    Stop,
    /// Reply `NotFound`: the child is stopping already.
    AlreadyStopping,
    /// Reply `NotFound`: no child has this address.
    UnknownAddress,
}

/// What an exit signal leads to.
#[derive(Debug, Clone, Copy, PartialEq, Eq, Structural)]
pub enum ExitDecision {
    /// No child has this address: stop the started children and quit with an
    /// error.
    UnknownPeer,
    /// A stopping child is gone.
    Stopped,
    /// The child is restarted under its key: make it runnable and start it.
    Restart(ChildKey),
    /// The child is not restarted and is gone.
    Removed,
    /// The restart decision failed: the child is gone; stop the started
    /// children and fail.
    RestartFailed,
}

fn find_address(v: &Vec<(Address, u64)>, a: Address) -> (r: Option<usize>)
    ensures
        r matches Some(i) ==> i < v.len() && v@[i as int].0 == a,
        r is None ==> forall|i: int| 0 <= i < v.len() ==> v@[i].0 != a,
{
    let mut i: usize = 0;
    while i < v.len()
        invariant
            0 <= i <= v.len(),
            forall|j: int| 0 <= j < i ==> v@[j].0 != a,
        decreases v.len() - i,
    {
        if v[i].0 == a {
            return Some(i);
        }
        i = i + 1;
    }
    None
}

/// What `reap_started_children` gathered from the drained children is the
/// list of started addresses.
proof fn lemma_reaped(statuses: Map<u64, ChildStatus>, drained: Seq<(u64, ChildStatus)>, r: Seq<Address>)
    requires
        forall|n: int| 0 <= n < drained.len() ==> #[trigger] statuses.dom().contains(drained[n].0)
            && statuses[drained[n].0] == drained[n].1,
        forall|k: u64| #[trigger] statuses.dom().contains(k) ==> exists|i: int| 0 <= i < drained.len() && drained[i].0 == k,
        forall|n: int| 0 <= n < r.len() ==> #[trigger] started_among(drained, drained.len() as int, r[n]),
        forall|j: int| 0 <= j < drained.len() && (#[trigger] drained[j].1) is Started
            ==> r.contains(status_address(drained[j].1)->0),
        forall|n: int, m: int| 0 <= n < r.len() && 0 <= m < r.len() && n != m ==> r[n] != r[m],
    ensures
        started_addresses(statuses, r),
{
    assert forall|n: int| 0 <= n < r.len() implies #[trigger] has_started_child(statuses, r[n]) by {
        assert(started_among(drained, drained.len() as int, r[n]));
        let j = choose|j: int| 0 <= j < drained.len() && #[trigger] drained[j].1 == ChildStatus::Started(r[n]);
        assert(statuses.dom().contains(drained[j].0));
    }
    assert forall|k: u64| #[trigger] statuses.dom().contains(k) && statuses[k] is Started
        implies r.contains(status_address(statuses[k])->0) by {
        let j = choose|j: int| 0 <= j < drained.len() && drained[j].0 == k;
        assert(drained[j].1 == statuses[k]);
    }
}

impl Children {
    /// The status of a child, by key.
    pub closed spec fn wf(&self) -> bool {
        &&& keys_unique(self.by_address@)
        &&& children_wf(self@)
    }

    /// No children.
    pub fn new() -> (r: Self)
        ensures
            r.wf(),
            r@.0 =~= Map::empty(),
            r@.1 =~= Map::empty(),
    {
        let r = Children { primary: child_slots_new(), by_address: Vec::new() };
        assert(r@.1 =~= Map::empty());
        r
    }

    /// A new child, `Starting`: its start is under way.
    pub fn start_child(&mut self) -> (k: ChildKey)
        requires
            old(self).wf(),
            old(self)@.0.len() < SLOTS_MAX,
        ensures
            final(self).wf(),
            !old(self)@.0.dom().contains(k.id()),
            final(self)@.0 == old(self)@.0.insert(k.id(), ChildStatus::Starting),
            final(self)@.1 == old(self)@.1,
    {
        let id = child_slots_insert(&mut self.primary, ChildStatus::Starting);
        ChildKey(id)
    }

    /// The start of a child succeeded: it is `Started` at `address` and found
    /// there. Refused, with nothing changed, unless the child is `Starting`.
    pub fn child_started(&mut self, key: ChildKey, address: Address) -> (r: Result<(), ChildStatus>)
        requires
            old(self).wf(),
            old(self)@.0.dom().contains(key.id()),
            old(self)@.0[key.id()] is Starting ==> !old(self)@.1.contains_key(address),
        ensures
            final(self).wf(),
            r is Ok <==> old(self)@.0[key.id()] is Starting,
            r matches Err(s) ==> s == old(self)@.0[key.id()] && final(self)@ == old(self)@,
            r is Ok ==> final(self)@.0 == old(self)@.0.insert(key.id(), ChildStatus::Started(address))
                && final(self)@.1 == old(self)@.1.insert(address, key.id()),
    {
        proof {
            use_type_invariant(&key);
        }
        let status = child_slots_get(&self.primary, key.0);
        let status = match status {
            Some(s) => s,
            None => {
                assert(false);
                return Err(ChildStatus::Starting);
            },
        };
        match status {
            ChildStatus::Starting => {},
            other => {
                return Err(other);
            },
        }
        let ghost old_v = self@;
        proof {
            lemma_assoc_push(self.by_address@, address, key.0);
        }
        self.by_address.push((address, key.0));
        child_slots_replace(&mut self.primary, key.0, ChildStatus::Started(address));
        proof {
            let v = self@;
            assert forall|a: Address| #[trigger] v.1.contains_key(a) implies v.0.dom().contains(v.1[a])
                && status_address(v.0[v.1[a]]) == Some(a) by {
                if a != address {
                    assert(old_v.1.contains_key(a));
                    assert(old_v.1[a] != key.0);
                }
            }
            assert forall|k: u64| #[trigger] v.0.dom().contains(k) && status_address(v.0[k]) is Some
                implies v.1.contains_key(status_address(v.0[k])->0) && v.1[status_address(v.0[k])->0] == k by {
                if k != key.0 {
                    assert(old_v.0.dom().contains(k));
                    assert(status_address(old_v.0[k])->0 != address);
                }
            }
        }
        Ok(())
    }

    /// The start of a child failed: a `Starting` child is dropped; any other
    /// report changes nothing. Returns whether the child was dropped.
    pub fn child_start_failed(&mut self, key: ChildKey) -> (r: bool)
        requires
            old(self).wf(),
        ensures
            final(self).wf(),
            r == (old(self)@.0.dom().contains(key.id()) && old(self)@.0[key.id()] is Starting),
            r ==> final(self)@.0 == old(self)@.0.remove(key.id()),
            !r ==> final(self)@.0 == old(self)@.0,
            final(self)@.1 == old(self)@.1,
    {
        proof {
            use_type_invariant(&key);
        }
        match child_slots_get(&self.primary, key.0) {
            Some(ChildStatus::Starting) => {
                let ghost old_v = self@;
                let _ = child_slots_remove(&mut self.primary, key.0);
                proof {
                    let v = self@;
                    assert forall|a: Address| #[trigger] v.1.contains_key(a) implies v.0.dom().contains(v.1[a])
                        && status_address(v.0[v.1[a]]) == Some(a) by {
                        assert(old_v.1[a] != key.0);
                    }
                }
                true
            },
            _ => false,
        }
    }

    /// A request to stop the child at `address`: a started child becomes
    /// `Stopping`.
    pub fn stop_request(&mut self, address: Address) -> (r: StopDecision)
        requires
            old(self).wf(),
        ensures
            final(self).wf(),
            final(self)@.1 == old(self)@.1,
            !old(self)@.1.contains_key(address) ==> r == StopDecision::UnknownAddress && final(self)@ == old(self)@,
            old(self)@.1.contains_key(address) && old(self)@.0[old(self)@.1[address]] is Stopping
                ==> r == StopDecision::AlreadyStopping && final(self)@ == old(self)@,
            old(self)@.1.contains_key(address) && old(self)@.0[old(self)@.1[address]] is Started
                ==> r == StopDecision::Stop && final(self)@.0 == old(self)@.0.insert(
                    old(self)@.1[address],
                    ChildStatus::Stopping(address),
                ),
    {
        let ghost old_v = self@;
        match find_address(&self.by_address, address) {
            None => {
                proof {
                    lemma_assoc_absent(self.by_address@, address);
                }
                StopDecision::UnknownAddress
            },
            Some(i) => {
                let k = self.by_address[i].1;
                proof {
                    lemma_assoc_index(self.by_address@, i as int);
                }
                match child_slots_get(&self.primary, k) {
                    Some(ChildStatus::Started(_)) => {
                        child_slots_replace(&mut self.primary, k, ChildStatus::Stopping(address));
                        proof {
                            let v = self@;
                            assert forall|a: Address| #[trigger] v.1.contains_key(a) implies v.0.dom().contains(v.1[a])
                                && status_address(v.0[v.1[a]]) == Some(a) by {
                                if v.1[a] == k {
                                    assert(a == address);
                                }
                            }
                            assert forall|k2: u64| #[trigger] v.0.dom().contains(k2) && status_address(v.0[k2]) is Some
                                implies v.1.contains_key(status_address(v.0[k2])->0)
                                    && v.1[status_address(v.0[k2])->0] == k2 by {
                                if k2 != k {
                                    assert(old_v.0.dom().contains(k2));
                                }
                            }
                        }
                        StopDecision::Stop
                    },
                    _ => StopDecision::AlreadyStopping,
                }
            },
        }
    }

    /// The child that an exit signal from `peer` concerns, if any: its key
    /// and status. The caller asks the restart policy of a started one.
    pub fn exited_child(&self, peer: Address) -> (r: Option<(ChildKey, ChildStatus)>)
        requires
            self.wf(),
        ensures
            r is None <==> !self@.1.contains_key(peer),
            r matches Some((k, s)) ==> k.id() == self@.1[peer] && s == self@.0[k.id()],
    {
        match find_address(&self.by_address, peer) {
            None => {
                proof {
                    lemma_assoc_absent(self.by_address@, peer);
                }
                None
            },
            Some(i) => {
                let k = self.by_address[i].1;
                proof {
                    lemma_assoc_index(self.by_address@, i as int);
                }
                match child_slots_get(&self.primary, k) {
                    Some(s) => Some((ChildKey(k), s)),
                    None => {
                        assert(false);
                        None
                    },
                }
            },
        }
    }

    /// An exit signal from `peer`. A stopping child is gone; a started one is
    /// restarted (it becomes `Starting`, no longer found by address) or
    /// dropped, as `restart` says: the verdict of its restart policy.
    pub fn sys_exited(&mut self, peer: Address, restart: Result<bool, RestartIntensityReached>) -> (r:
        ExitDecision)
        requires
            old(self).wf(),
        ensures
            final(self).wf(),
            !old(self)@.1.contains_key(peer) ==> r == ExitDecision::UnknownPeer && final(self)@ == old(self)@,
            old(self)@.1.contains_key(peer) ==> {
                let k = old(self)@.1[peer];
                &&& final(self)@.1 == old(self)@.1.remove(peer)
                &&& old(self)@.0[k] is Stopping ==> r == ExitDecision::Stopped
                    && final(self)@.0 == old(self)@.0.remove(k)
                &&& old(self)@.0[k] is Started ==> match restart {
                    Ok(true) => r matches ExitDecision::Restart(ck) && ck.id() == k
                        && final(self)@.0 == old(self)@.0.insert(k, ChildStatus::Starting),
                    Ok(false) => r == ExitDecision::Removed && final(self)@.0 == old(self)@.0.remove(k),
                    Err(_) => r == ExitDecision::RestartFailed && final(self)@.0 == old(self)@.0.remove(k),
                }
            },
    {
        let ghost old_v = self@;
        let i = match find_address(&self.by_address, peer) {
            None => {
                proof {
                    lemma_assoc_absent(self.by_address@, peer);
                }
                return ExitDecision::UnknownPeer;
            },
            Some(i) => i,
        };
        let k = self.by_address[i].1;
        proof {
            lemma_assoc_index(self.by_address@, i as int);
            lemma_assoc_remove(self.by_address@, i as int);
        }
        self.by_address.remove(i);
        let status = match child_slots_get(&self.primary, k) {
            Some(s) => s,
            None => {
                assert(false);
                return ExitDecision::Stopped;
            },
        };
        let r = match status {
            ChildStatus::Started(_) => match restart {
                Ok(true) => {
                    child_slots_replace(&mut self.primary, k, ChildStatus::Starting);
                    ExitDecision::Restart(ChildKey(k))
                },
                Ok(false) => {
                    let _ = child_slots_remove(&mut self.primary, k);
                    ExitDecision::Removed
                },
                Err(_) => {
                    let _ = child_slots_remove(&mut self.primary, k);
                    ExitDecision::RestartFailed
                },
            },
            _ => {
                let _ = child_slots_remove(&mut self.primary, k);
                ExitDecision::Stopped
            },
        };
        proof {
            let v = self@;
            assert forall|a: Address| #[trigger] v.1.contains_key(a) implies v.0.dom().contains(v.1[a])
                && status_address(v.0[v.1[a]]) == Some(a) by {
                assert(old_v.1.contains_key(a));
                assert(a != peer);
                assert(old_v.1[a] != k);
            }
            assert forall|k2: u64| #[trigger] v.0.dom().contains(k2) && status_address(v.0[k2]) is Some
                implies v.1.contains_key(status_address(v.0[k2])->0) && v.1[status_address(v.0[k2])->0] == k2 by {
                assert(k2 != k);
                assert(old_v.0.dom().contains(k2));
            }
        }
        r
    }

    /// Every child is dropped; the addresses of the started ones are returned,
    /// each once, to be stopped, and leave the address index. The supervisor
    /// ends after this.
    #[verifier::loop_isolation(false)]
    pub fn reap_started_children(&mut self) -> (r: Vec<Address>)
        requires
            old(self).wf(),
        ensures
            final(self)@.0 =~= Map::empty(),
            started_addresses(old(self)@.0, r@),
            final(self)@.1 == old(self)@.1.remove_keys(r@.to_set()),
    {
        let ghost old_v = self@;
        let ghost old_primary = child_slots(self.primary);
        assert(old_v.0 == old_primary);
        let drained = child_slots_drain(&mut self.primary);
        assert forall|n: int| 0 <= n < drained.len() implies #[trigger] old_v.0.dom().contains(drained@[n].0)
            && old_v.0[drained@[n].0] == drained@[n].1 by {
            assert(old_primary.dom().contains(drained@[n].0));
        }
        let mut r: Vec<Address> = Vec::new();
        let mut i: usize = 0;
        while i < drained.len()
            invariant
                0 <= i <= drained.len(),
                forall|n: int| 0 <= n < r.len() ==> #[trigger] started_among(drained@, i as int, r@[n]),
                forall|j: int| 0 <= j < i && (#[trigger] drained@[j].1) is Started
                    ==> r@.contains(status_address(drained@[j].1)->0),
                forall|n: int, m: int| 0 <= n < r.len() && 0 <= m < r.len() && n != m ==> r@[n] != r@[m],
            decreases drained.len() - i,
        {
            if let ChildStatus::Started(a) = drained[i].1 {
                proof {
                    assert forall|n: int| 0 <= n < r.len() implies r@[n] != a by {
                        assert(started_among(drained@, i as int, r@[n]));
                        let j = choose|j: int| 0 <= j < i && #[trigger] drained@[j].1 == ChildStatus::Started(r@[n]);
                        if r@[n] == a {
                            let kj = drained@[j].0;
                            let ki = drained@[i as int].0;
                            assert(old_v.0.dom().contains(drained@[j].0));
                            assert(old_v.0.dom().contains(drained@[i as int].0));
                            assert(status_address(old_v.0[kj]) is Some);
                            assert(status_address(old_v.0[ki]) is Some);
                            assert(old_v.1[a] == kj);
                            assert(old_v.1[a] == ki);
                        }
                    }
                }
                let ghost r_before = r@;
                r.push(a);
                proof {
                    assert(r@ == r_before.push(a));
                    assert(r@[r.len() - 1] == a);
                    assert forall|n: int| 0 <= n < r.len() implies #[trigger] started_among(drained@, i + 1, r@[n]) by {
                        if n == r.len() - 1 {
                            assert(drained@[i as int].1 == ChildStatus::Started(r@[n]));
                        } else {
                            assert(r@[n] == r_before[n]);
                            assert(started_among(drained@, i as int, r_before[n]));
                        }
                    }
                    assert forall|j: int| 0 <= j < i + 1 && (#[trigger] drained@[j].1) is Started
                        implies r@.contains(status_address(drained@[j].1)->0) by {
                        if j == i {
                            assert(r@[r.len() - 1] == a);
                        } else {
                            let x = status_address(drained@[j].1)->0;
                            assert(r_before.contains(x));
                            let n = choose|n: int| 0 <= n < r_before.len() && r_before[n] == x;
                            assert(r@[n] == x);
                        }
                    }
                }
            } else {
                proof {
                    assert forall|n: int| 0 <= n < r.len() implies #[trigger] started_among(drained@, i + 1, r@[n]) by {
                        assert(started_among(drained@, i as int, r@[n]));
                    }
                }
            }
            i = i + 1;
        }
        proof {
            lemma_reaped(old_v.0, drained@, r@);
            assert(r@.take(0).to_set() =~= Set::<Address>::empty());
            assert(assoc_view(self.by_address@) =~= old_v.1.remove_keys(r@.take(0).to_set()));
        }
        let mut i: usize = 0;
        while i < r.len()
            invariant
                0 <= i <= r.len(),
                keys_unique(self.by_address@),
                self@.0 =~= Map::<u64, ChildStatus>::empty(),
                assoc_view(self.by_address@) =~= old_v.1.remove_keys(r@.take(i as int).to_set()),
            decreases r.len() - i,
        {
            let a = r[i];
            let ghost before = self.by_address@;
            match find_address(&self.by_address, a) {
                Some(j) => {
                    proof {
                        lemma_assoc_remove(before, j as int);
                    }
                    self.by_address.remove(j);
                },
                None => {
                    proof {
                        lemma_assoc_absent(before, a);
                    }
                },
            }
            proof {
                assert(r@.take(i + 1) =~= r@.take(i as int).push(a));
                r@.take(i as int).lemma_push_to_set_commute(a);
                assert(assoc_view(self.by_address@) =~= old_v.1.remove_keys(r@.take(i + 1).to_set()));
            }
            i = i + 1;
        }
        proof {
            assert(r@.take(r.len() as int) =~= r@);
        }
        r
    }
}

/// A child that was started, asked to stop, and exited leaves no trace: the
/// children are as before its start.
pub proof fn law_stopped_child_leaves_no_trace(
    v0: ChildrenView,
    v1: ChildrenView,
    v2: ChildrenView,
    v3: ChildrenView,
    v4: ChildrenView,
    k: u64,
    a: Address,
)
    requires
        children_wf(v0),
        !v0.0.dom().contains(k),
        !v0.1.contains_key(a),
        v1 == (v0.0.insert(k, ChildStatus::Starting), v0.1),
        v2 == (v1.0.insert(k, ChildStatus::Started(a)), v1.1.insert(a, k)),
        v2.1.contains_key(a) && v2.0[v2.1[a]] is Started,
        v3 == (v2.0.insert(v2.1[a], ChildStatus::Stopping(a)), v2.1),
        v3.1.contains_key(a) && v3.0[v3.1[a]] is Stopping,
        v4 == (v3.0.remove(v3.1[a]), v3.1.remove(a)),
    ensures
        v4 == v0,
{
    assert(v4.0 =~= v0.0);
    assert(v4.1 =~= v0.1);
}

/// A start that failed leaves no trace.
pub proof fn law_failed_start_leaves_no_trace(v0: ChildrenView, k: u64)
    requires
        !v0.0.dom().contains(k),
    ensures
        v0.0.insert(k, ChildStatus::Starting).remove(k) == v0.0,
{
    assert(v0.0.insert(k, ChildStatus::Starting).remove(k) =~= v0.0);
}

/// A restarted child keeps its key and is no longer found at its old address;
/// its next start finds it again, under the same key, at the new address.
pub proof fn law_restart_keeps_key(v0: ChildrenView, k: u64, a: Address, b: Address)
    requires
        children_wf(v0),
        v0.1.contains_key(a),
        v0.1[a] == k,
        v0.0[k] == ChildStatus::Started(a),
        a != b,
        !v0.1.contains_key(b),
    ensures
        ({
            let v1 = (v0.0.insert(k, ChildStatus::Starting), v0.1.remove(a));
            let v2 = (v1.0.insert(k, ChildStatus::Started(b)), v1.1.insert(b, k));
            &&& children_wf(v1)
            &&& !v1.1.contains_key(a)
            &&& children_wf(v2)
            &&& v2.0[k] == ChildStatus::Started(b)
            &&& v2.1[b] == k
        }),
{
    let v1 = (v0.0.insert(k, ChildStatus::Starting), v0.1.remove(a));
    let v2 = (v1.0.insert(k, ChildStatus::Started(b)), v1.1.insert(b, k));
    assert forall|x: Address| #[trigger] v1.1.contains_key(x) implies v1.0.dom().contains(v1.1[x])
        && status_address(v1.0[v1.1[x]]) == Some(x) by {
        assert(v0.1[x] != k);
    }
    assert forall|x: Address| #[trigger] v2.1.contains_key(x) implies v2.0.dom().contains(v2.1[x])
        && status_address(v2.0[v2.1[x]]) == Some(x) by {
        if x != b {
            assert(v0.1[x] != k);
        }
    }
    assert forall|j: u64| #[trigger] v2.0.dom().contains(j) && status_address(v2.0[j]) is Some
        implies v2.1.contains_key(status_address(v2.0[j])->0) && v2.1[status_address(v2.0[j])->0] == j by {
        if j != k {
            assert(v0.0.dom().contains(j));
            assert(status_address(v0.0[j])->0 != a);
            assert(status_address(v0.0[j])->0 != b);
        }
    }
}

/// A child asked to stop is refused a second stop: the second request finds
/// it stopping.
pub proof fn law_second_stop_is_refused(v0: ChildrenView, a: Address)
    requires
        v0.1.contains_key(a),
        v0.0[v0.1[a]] is Started,
    ensures
        ({
            let v1 = (v0.0.insert(v0.1[a], ChildStatus::Stopping(a)), v0.1);
            v1.1.contains_key(a) && v1.0[v1.1[a]] is Stopping
        }),
{
}

} // verus!
