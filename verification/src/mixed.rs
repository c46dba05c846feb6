//! The mixed supervisor: a fixed set of children, each under its own key and
//! with its own child spec, restarted by a restart strategy.

use vstd::prelude::*;

use std::time::Duration;

use crate::address::Address;
use crate::child_spec::{duration_from_secs, duration_of_secs, ActorFactory, ChildSpec};

verus! {

/// Whether a child of a mixed supervisor is restarted: always, after a
/// failure only, or never.
#[derive(Debug, Clone, Copy, PartialEq, Eq, Structural)]
pub enum ChildType {
    Permanent,
    Transient,
    Temporary,
}

/// A mixed supervisor under construction: its restart strategy and the
/// children added so far, as nested pairs.
#[derive(Clone)]
pub struct MixedSup<RS, C> {
    restart_strategy: RS,
    children: C,
}

impl<RS, C> MixedSup<RS, C> {
    pub closed spec fn restart_strategy(&self) -> RS {
        self.restart_strategy
    }

    pub closed spec fn children(&self) -> C {
        self.children
    }

    /// The restart strategy and the children, for the supervisor to run.
    pub fn into_parts(self) -> (r: (RS, C))
        ensures
            r.0 == self.restart_strategy(),
            r.1 == self.children(),
    {
        let MixedSup { restart_strategy, children } = self;
        (restart_strategy, children)
    }
}

impl<RS> MixedSup<RS, ()> {
    /// A supervisor without children.
    pub fn new(restart_strategy: RS) -> (r: Self)
        ensures
            r.restart_strategy() == restart_strategy,
            r.children() == (),
    {
        MixedSup { restart_strategy, children: () }
    }
}

/// A child under its key.
pub struct KV<K, F> {
    key: K,
    child_spec: ChildSpec<F, ChildType>,
}

impl<K, F> KV<K, F> {
    pub closed spec fn key(&self) -> K {
        self.key
    }

    pub closed spec fn child_spec(&self) -> ChildSpec<F, ChildType> {
        self.child_spec
    }
}

/// Appends a child to a list of children.
pub trait Append<K, F> {
    type Out;

    fn append(self, key: K, child_spec: ChildSpec<F, ChildType>) -> Self::Out;
}

impl<K, F: ActorFactory<Args = ()>, T> Append<K, F> for T {
    type Out = (T, KV<K, F>);

    fn append(self, key: K, child_spec: ChildSpec<F, ChildType>) -> (r: (T, KV<K, F>))
        ensures
            r.0 == self,
            r.1.key() == key,
            r.1.child_spec() == child_spec,
    {
        (self, KV { key, child_spec })
    }
}

/// A list of children, as nested pairs, flattened in the order they were
/// added.
pub trait CollectInto<K, F> {
    /// The children, in order.
    spec fn collected(&self) -> Seq<(K, ChildSpec<F, ChildType>)>;

    fn collect_into(self, into: &mut Vec<(K, ChildSpec<F, ChildType>)>)
        ensures
            final(into)@ == old(into)@ + self.collected(),
    ;
}

impl<K, F> CollectInto<K, F> for () {
    open spec fn collected(&self) -> Seq<(K, ChildSpec<F, ChildType>)> {
        Seq::empty()
    }

    fn collect_into(self, into: &mut Vec<(K, ChildSpec<F, ChildType>)>) {
        assert(into@ =~= into@ + Seq::<(K, ChildSpec<F, ChildType>)>::empty());
    }
}

impl<K, F> CollectInto<K, F> for KV<K, F> {
    open spec fn collected(&self) -> Seq<(K, ChildSpec<F, ChildType>)> {
        seq![(self.key(), self.child_spec())]
    }

    fn collect_into(self, into: &mut Vec<(K, ChildSpec<F, ChildType>)>) {
        let KV { key, child_spec } = self;
        let ghost before = into@;
        into.push((key, child_spec));
        assert(into@ =~= before + seq![(self.key(), self.child_spec())]);
    }
}

impl<K, F, Le: CollectInto<K, F>, Ri: CollectInto<K, F>> CollectInto<K, F> for (Le, Ri) {
    open spec fn collected(&self) -> Seq<(K, ChildSpec<F, ChildType>)> {
        self.0.collected() + self.1.collected()
    }

    fn collect_into(self, into: &mut Vec<(K, ChildSpec<F, ChildType>)>) {
        let ghost before = into@;
        let ghost whole = self;
        let (le, ri) = self;
        le.collect_into(into);
        ri.collect_into(into);
        assert(into@ =~= before + whole.collected());
    }
}

/// A child appended to a list of children comes after all of them: the
/// children, flattened, are those of the list followed by the new one. Over
/// any number of steps, the children come in the order they were added.
pub proof fn law_appended_child_comes_last<K, F, C: CollectInto<K, F>>(children: C, kv: KV<K, F>)
    ensures
        (children, kv).collected() == children.collected().push((kv.key(), kv.child_spec())),
{
    assert((children, kv).collected() =~= children.collected().push((kv.key(), kv.child_spec())));
}

impl<RS, C> MixedSup<RS, C> {
    /// The supervisor with one more child, `child_spec` under `key`, after
    /// the children it has.
    pub fn with_child<K, F: ActorFactory<Args = ()>>(self, key: K, child_spec: ChildSpec<F, ChildType>) -> (r: MixedSup<
        RS,
        (C, KV<K, F>),
    >)
        ensures
            r.restart_strategy() == self.restart_strategy(),
            r.children().0 == self.children(),
            r.children().1.key() == key,
            r.children().1.child_spec() == child_spec,
    {
        let MixedSup { restart_strategy, children } = self;
        let children = children.append(key, child_spec);
        MixedSup { restart_strategy, children }
    }
}

/// The children of a supervisor that `with_child` made from `sup`, flattened,
/// are those of `sup` followed by the new child: over any number of steps the
/// children come in the order they were added, and the restart strategy stays.
pub proof fn law_with_child_appends<RS, K, F, C: CollectInto<K, F>>(sup: MixedSup<RS, C>, r: MixedSup<RS, (C, KV<K, F>)>, key: K, child_spec: ChildSpec<F, ChildType>)
    requires
        r.restart_strategy() == sup.restart_strategy(),
        r.children().0 == sup.children(),
        r.children().1.key() == key,
        r.children().1.child_spec() == child_spec,
    ensures
        r.children().collected() == sup.children().collected().push((key, child_spec)),
        r.restart_strategy() == sup.restart_strategy(),
{
    law_appended_child_comes_last(sup.children(), r.children().1);
}

/// Why a mixed supervisor ended with a failure.
#[derive(Debug, Clone, PartialEq, Eq)]
pub enum MixedSupError {
    /// A child failed beyond what the restart strategy allows.
    Escalated,
    /// The restart strategy's decider failed, for this reason.
    Decider(String),
}

/// What the restart strategy asks the supervisor to do next.
#[derive(Debug, Clone, PartialEq, Eq)]
pub enum Action {
    Noop,
    InitDone,
    /// Start the child under this key.
    Start { child_id: String },
    /// Stop the actor at `address`, the child under `child_id` where it is
    /// one the supervisor knows by key.
    Stop { address: Address, child_id: Option<String> },
    /// Quit, normally or not.
    Quit { normal_exit: bool },
}

/// The restart strategy's view of a mixed supervisor's children: it is told
/// what happens to them and decides what to do next. Instants are in
/// milliseconds of the supervisor's clock.
pub trait Decider {
    fn add(&mut self, key: String) -> Result<(), String>;

    fn rm(&mut self, key: &String) -> Result<(), String>;

    fn started(&mut self, key: &String, addr: Address, at: u64);

    fn exited(&mut self, addr: Address, normal_exit: bool, at: u64);

    fn failed(&mut self, key: &String, at: u64);

    fn quit(&mut self, normal_exit: bool);

    fn next_action(&mut self, at: u64) -> Result<Option<Action>, String>;
}

/// The children of a mixed supervisor by key; where a key was added twice,
/// the later child spec counts.
pub struct MixedChildren<F> {
    children: Vec<(String, ChildSpec<F, ChildType>)>,
}

/// The last child spec under `k` among `s`.
pub open spec fn last_spec<F>(s: Seq<(String, ChildSpec<F, ChildType>)>, k: Seq<char>) -> Option<ChildSpec<F, ChildType>>
    decreases s.len(),
{
    if s.len() == 0 {
        None
    } else if s.last().0@ == k {
        Some(s.last().1)
    } else {
        last_spec(s.drop_last(), k)
    }
}

/// A supervisor that knows no child by any key.
pub open spec fn knows_no_child<F>(c: MixedChildren<F>) -> bool {
    forall|k: Seq<char>| #[trigger] c.spec_of(k) is None
}

impl<F> MixedChildren<F> {
    pub closed spec fn spec_of(&self, k: Seq<char>) -> Option<ChildSpec<F, ChildType>> {
        last_spec(self.children@, k)
    }

    /// The children in the order they were added.
    pub fn new(flat: Vec<(String, ChildSpec<F, ChildType>)>) -> (r: Self)
        ensures
            forall|k: Seq<char>| #[trigger] r.spec_of(k) == last_spec(flat@, k),
    {
        MixedChildren { children: flat }
    }

    /// The child spec under `key`, if any.
    pub fn get(&self, key: &String) -> (r: Option<&ChildSpec<F, ChildType>>)
        ensures
            r is None <==> self.spec_of(key@) is None,
            r matches Some(c) ==> self.spec_of(key@) == Some(*c),
    {
        let mut i = self.children.len();
        assert(self.children@.take(i as int) =~= self.children@);
        while i > 0
            invariant
                0 <= i <= self.children.len(),
                last_spec(self.children@, key@) == last_spec(self.children@.take(i as int), key@),
            decreases i,
        {
            proof {
                assert(self.children@.take(i as int).drop_last() =~= self.children@.take(i - 1));
            }
            if self.children[i - 1].0 == *key {
                return Some(&self.children[i - 1].1);
            }
            i = i - 1;
        }
        None
    }

    /// How long to wait for a child to stop: its child spec's stop timeout,
    /// or none for a child that the supervisor does not know by key.
    pub fn stop_timeout(&self, child_id: Option<&String>) -> (r: Duration)
        requires
            child_id matches Some(k) ==> self.spec_of(k@) is Some,
        ensures
            child_id matches Some(k) ==> r == self.spec_of(k@)->0.stop_timeout,
            child_id is None ==> r == duration_of_secs(0),
    {
        match child_id {
            Some(k) => match self.get(k) {
                Some(c) => c.stop_timeout,
                None => duration_from_secs(0),
            },
            None => duration_from_secs(0),
        }
    }
}

/// What setting up the children comes to, given the decider's first refusal
/// of a key, if any: the refusal's reason as the supervisor's error, else the
/// children by key.
pub fn children_or_refusal<F>(flat: Vec<(String, ChildSpec<F, ChildType>)>, refusal: Option<String>) -> (r: Result<
    MixedChildren<F>,
    MixedSupError,
>)
    ensures
        refusal matches Some(reason) ==> r == Err::<MixedChildren<F>, _>(MixedSupError::Decider(reason)),
        refusal is None ==> (r matches Ok(c) && forall|k: Seq<char>| #[trigger] c.spec_of(k) == last_spec(flat@, k)),
{
    match refusal {
        Some(reason) => Err(MixedSupError::Decider(reason)),
        None => Ok(MixedChildren::new(flat)),
    }
}

/// Adds every child's key to the decider, in order; the first refusal ends it
/// with the decider's reason.
///
/// The decider goes through the states `ds`: each key of `flat` in turn, up
/// to the first refusal, is handed to its `add`, which takes it from one state
/// to the next with the answer in `rs`.
#[verifier::loop_isolation(false)]
pub fn init_children<D: Decider, F>(decider: &mut D, flat: Vec<(String, ChildSpec<F, ChildType>)>) -> (r: Result<
    MixedChildren<F>,
    MixedSupError,
>)
    ensures
        r matches Ok(c) ==> forall|k: Seq<char>| #[trigger] c.spec_of(k) == last_spec(flat@, k),
        r matches Err(e) ==> e is Decider,
        flat@.len() == 0 ==> (r matches Ok(c) && knows_no_child(c)),
        exists|ds: Seq<D>, rs: Seq<Result<(), String>>| #![trigger ds.len(), rs.len()] {
            &&& ds.len() == rs.len() + 1
            &&& rs.len() <= flat@.len()
            &&& ds[0] == *old(decider)
            &&& ds.last() == *final(decider)
            &&& forall|j: int| #![trigger rs[j]] 0 <= j < rs.len() ==> (j < rs.len() - 1 ==> rs[j] is Ok)
                && exists|s: &mut D| #![trigger call_ensures(D::add, (s, flat@[j].0), rs[j])]
                *s == ds[j] && *final(s) == ds[j + 1] && call_ensures(D::add, (s, flat@[j].0), rs[j])
            &&& r is Ok ==> rs.len() == flat@.len() && (rs.len() == 0 || rs.last() is Ok)
            &&& r is Err ==> rs.len() > 0 && rs.last() is Err
                && r == Err::<MixedChildren<F>, MixedSupError>(MixedSupError::Decider(rs.last()->Err_0))
        },
{
    let ghost mut ds: Seq<D> = seq![*decider];
    let ghost mut rs: Seq<Result<(), String>> = Seq::empty();
    let mut i: usize = 0;
    while i < flat.len()
        invariant
            0 <= i <= flat.len(),
            ds.len() == rs.len() + 1,
            rs.len() == i,
            ds[0] == *old(decider),
            ds.last() == *decider,
            forall|j: int| #![trigger rs[j]] 0 <= j < rs.len() ==> rs[j] is Ok
                && exists|s: &mut D| #![trigger call_ensures(D::add, (s, flat@[j].0), rs[j])]
                *s == ds[j] && *final(s) == ds[j + 1] && call_ensures(D::add, (s, flat@[j].0), rs[j]),
        decreases flat.len() - i,
    {
        let ghost before = *decider;
        let res = decider.add(flat[i].0.clone());
        proof {
            let ghost ds0 = ds;
            let ghost rs0 = rs;
            ds = ds.push(*decider);
            rs = rs.push(res);
            assert forall|j: int| #![trigger rs[j]] 0 <= j < rs.len() implies (j < rs.len() - 1 ==> rs[j] is Ok)
                && exists|s: &mut D| #![trigger call_ensures(D::add, (s, flat@[j].0), rs[j])]
                *s == ds[j] && *final(s) == ds[j + 1] && call_ensures(D::add, (s, flat@[j].0), rs[j]) by {
                if j < i {
                    assert(rs[j] == rs0[j] && ds[j] == ds0[j] && ds[j + 1] == ds0[j + 1]);
                    assert(rs0[j] is Ok);
                }
            }
        }
        match res {
            Ok(()) => {},
            Err(reason) => {
                proof {
                    assert(rs.last() == Err::<(), String>(reason));
                    assert(forall|j: int| #![trigger rs[j]] 0 <= j < rs.len() ==> (j < rs.len() - 1 ==> rs[j] is Ok)
                        && exists|s: &mut D| #![trigger call_ensures(D::add, (s, flat@[j].0), rs[j])]
                        *s == ds[j] && *final(s) == ds[j + 1] && call_ensures(D::add, (s, flat@[j].0), rs[j]));
                    assert(ds.last() == *decider);
                }
                return children_or_refusal(flat, Some(reason));
            },
        }
        i = i + 1;
    }
    children_or_refusal(flat, None)
}

/// How the supervisor quits when the decider says so.
pub fn quit_result(normal_exit: bool) -> (r: Result<(), MixedSupError>)
    ensures
        normal_exit ==> r == Ok::<(), MixedSupError>(()),
        !normal_exit ==> r == Err::<(), _>(MixedSupError::Escalated),
{
    if normal_exit {
        Ok(())
    } else {
        Err(MixedSupError::Escalated)
    }
}

/// What the supervisor does for one action of its restart strategy.
pub enum SupStep<'a, F> {
    /// Nothing.
    Nothing,
    /// Acknowledge the supervisor's start to its parent, with the
    /// supervisor's own address, and go on.
    AckInit,
    /// Quit with this result.
    Quit(Result<(), MixedSupError>),
    /// Start this child with its child spec.
    Start { child_id: String, child_spec: &'a ChildSpec<F, ChildType> },
    /// Stop the actor at `address`, waiting for it at most `stop_timeout`.
    Stop { address: Address, stop_timeout: Duration },
}

/// The step for an action of the restart strategy. The strategy names only
/// children that the supervisor knows by key: the runtime panics otherwise.
pub fn plan_action<'a, F>(children: &'a MixedChildren<F>, action: Action) -> (r: SupStep<'a, F>)
    requires
        action matches Action::Start { child_id } ==> children.spec_of(child_id@) is Some,
        action matches Action::Stop { child_id: Some(k), .. } ==> children.spec_of(k@) is Some,
    ensures
        action is Noop ==> r is Nothing,
        action is InitDone ==> r is AckInit,
        action matches Action::Quit { normal_exit } ==> r == SupStep::<'a, F>::Quit(
            if normal_exit { Ok(()) } else { Err(MixedSupError::Escalated) },
        ),
        action matches Action::Start { child_id } ==> (r matches SupStep::Start { child_id: c, child_spec }
            && c@ == child_id@ && children.spec_of(child_id@) == Some(*child_spec)),
        action matches Action::Stop { address, child_id } ==> (r matches SupStep::Stop { address: a, stop_timeout }
            && a == address && stop_timeout == match child_id {
                Some(k) => children.spec_of(k@)->0.stop_timeout,
                None => duration_of_secs(0),
            }),
{
    match action {
        Action::Noop => SupStep::Nothing,
        Action::InitDone => SupStep::AckInit,
        Action::Quit { normal_exit } => SupStep::Quit(quit_result(normal_exit)),
        Action::Start { child_id } => {
            match children.get(&child_id) {
                Some(child_spec) => SupStep::Start { child_id, child_spec },
                None => {
                    assert(false);
                    SupStep::Nothing
                },
            }
        },
        Action::Stop { address, child_id } => {
            let stop_timeout = match &child_id {
                Some(k) => children.stop_timeout(Some(k)),
                None => children.stop_timeout(None),
            };
            SupStep::Stop { address, stop_timeout }
        },
    }
}

/// A report that reaches a mixed supervisor about one of its children.
#[derive(Debug, Clone, PartialEq, Eq)]
pub enum SupReport {
    /// The child under `child_id` started as `address`.
    Started { child_id: String, address: Address },
    /// The child under `child_id` failed to start.
    StartFailed { child_id: String },
    /// The actor at `address` could not be stopped.
    StopFailed { address: Address, reason: String },
    /// The actor `peer` exited, normally or not.
    Exited { peer: Address, normal_exit: bool },
}

/// What the decider is told of a report.
#[derive(Debug, Clone, PartialEq, Eq)]
pub enum DeciderCall {
    Started { key: String, address: Address },
    Failed { key: String },
    Quit { normal_exit: bool },
    Exited { peer: Address, normal_exit: bool },
}

/// What the supervisor does on a report: the actor it links to, if any, and
/// what it tells the decider. A child that failed to start is reported as
/// such; an actor that could not be stopped makes the supervisor quit, not
/// normally.
pub fn on_report(report: SupReport) -> (r: (Option<Address>, DeciderCall))
    ensures
        report matches SupReport::Started { child_id, address } ==> r == (
            Some(address),
            DeciderCall::Started { key: child_id, address },
        ),
        report matches SupReport::StartFailed { child_id } ==> r == (
            None::<Address>,
            DeciderCall::Failed { key: child_id },
        ),
        report is StopFailed ==> r == (None::<Address>, DeciderCall::Quit { normal_exit: false }),
        report matches SupReport::Exited { peer, normal_exit } ==> r == (
            None::<Address>,
            DeciderCall::Exited { peer, normal_exit },
        ),
{
    match report {
        SupReport::Started { child_id, address } => (Some(address), DeciderCall::Started { key: child_id, address }),
        SupReport::StartFailed { child_id } => (None, DeciderCall::Failed { key: child_id }),
        SupReport::StopFailed { .. } => (None, DeciderCall::Quit { normal_exit: false }),
        SupReport::Exited { peer, normal_exit } => (None, DeciderCall::Exited { peer, normal_exit }),
    }
}

/// Tells the decider, at the instant `at`, what `call` says: the method of
/// the call's kind gets the call's key or address, and the decider ends in
/// the state that method leaves it in.
pub fn tell_decider<D: Decider>(decider: &mut D, call: DeciderCall, at: u64)
    ensures
        call is Started ==> exists|d: &mut D|
            #![trigger call_ensures(D::started, (d, &call->Started_key, call->Started_address, at), ())]
            *d == *old(decider) && *final(d) == *final(decider)
            && call_ensures(D::started, (d, &call->Started_key, call->Started_address, at), ()),
        call is Failed ==> exists|d: &mut D| #![trigger call_ensures(D::failed, (d, &call->Failed_key, at), ())]
            *d == *old(decider) && *final(d) == *final(decider) && call_ensures(D::failed, (d, &call->Failed_key, at), ()),
        call is Quit ==> exists|d: &mut D| #![trigger call_ensures(D::quit, (d, call->Quit_normal_exit), ())]
            *d == *old(decider) && *final(d) == *final(decider) && call_ensures(D::quit, (d, call->Quit_normal_exit), ()),
        call is Exited ==> exists|d: &mut D|
            #![trigger call_ensures(D::exited, (d, call->Exited_peer, call->Exited_normal_exit, at), ())]
            *d == *old(decider) && *final(d) == *final(decider)
            && call_ensures(D::exited, (d, call->Exited_peer, call->Exited_normal_exit, at), ()),
{
    match call {
        DeciderCall::Started { key, address } => decider.started(&key, address, at),
        DeciderCall::Failed { key } => decider.failed(&key, at),
        DeciderCall::Quit { normal_exit } => decider.quit(normal_exit),
        DeciderCall::Exited { peer, normal_exit } => decider.exited(peer, normal_exit, at),
    }
}

} // verus!
