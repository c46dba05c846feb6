//! The network manager: the subnets this node serves, local or remote, and
//! the controller that keeps each remote subnet's link up, restarting a
//! failed one after a cooldown.
//!
//! Time is in milliseconds of the runtime's monotonic clock.

use std::sync::Arc;

use vstd::prelude::*;

use crate::address::{Address, AddressRange, NetAddress};

verus! {

/// How long a failed remote subnet waits before it is started again.
pub const FAILING_SUBNET_RESTART_COOLDOWN_MS: u64 = 1000;

/// Whether a remote subnet should be up.
#[derive(Debug, Clone, Copy, PartialEq, Eq, Structural)]
pub enum SubnetTarget {
    Up,
    Down,
}

/// Where the link of a remote subnet is.
#[derive(Debug, Clone, Copy, PartialEq, Eq, Structural)]
pub enum SubnetStatus {
    Down,
    StartingUp,
    Up(Address),
    ShuttingDown,
    /// The link failed at this time.
    Failed(u64),
}

/// What the controller does with a remote subnet.
#[derive(Debug, Clone, Copy, PartialEq, Eq, Structural)]
pub enum SubnetAction {
    Start,
    Stop,
    Reset,
    /// Come back at this time.
    TickAt(u64),
}

/// When a link that failed at `failed_at` may be started again; a time past
/// the clock's range means now.
pub open spec fn reset_at(now: u64, failed_at: u64) -> u64 {
    if failed_at + FAILING_SUBNET_RESTART_COOLDOWN_MS <= u64::MAX {
        (failed_at + FAILING_SUBNET_RESTART_COOLDOWN_MS) as u64
    } else {
        now
    }
}

/// The controller's decision for a remote subnet.
pub open spec fn subnet_decision(now: u64, status: SubnetStatus, target: SubnetTarget) -> Option<SubnetAction> {
    match (status, target) {
        (SubnetStatus::Down, SubnetTarget::Down) => None,
        (SubnetStatus::ShuttingDown, _) => None,
        (SubnetStatus::Up(_), SubnetTarget::Up) => None,
        (SubnetStatus::StartingUp, _) => None,
        (SubnetStatus::Down, SubnetTarget::Up) => Some(SubnetAction::Start),
        (SubnetStatus::Up(_), SubnetTarget::Down) => Some(SubnetAction::Stop),
        (SubnetStatus::Failed(failed_at), target) => {
            let at = reset_at(now, failed_at);
            if at > now {
                Some(SubnetAction::TickAt(at))
            } else {
                match target {
                    SubnetTarget::Down => Some(SubnetAction::Reset),
                    SubnetTarget::Up => Some(SubnetAction::Start),
                }
            }
        },
    }
}

/// What the controller does with a remote subnet at `now`.
pub fn decide(now: u64, status: SubnetStatus, target: SubnetTarget) -> (r: Option<SubnetAction>)
    ensures
        r == subnet_decision(now, status, target),
{
    match (status, target) {
        (SubnetStatus::Down, SubnetTarget::Down) => None,
        (SubnetStatus::ShuttingDown, _) => None,
        (SubnetStatus::Up(_), SubnetTarget::Up) => None,
        (SubnetStatus::StartingUp, _) => None,
        (SubnetStatus::Down, SubnetTarget::Up) => Some(SubnetAction::Start),
        (SubnetStatus::Up(_), SubnetTarget::Down) => Some(SubnetAction::Stop),
        (SubnetStatus::Failed(failed_at), target) => {
            let at = match failed_at.checked_add(FAILING_SUBNET_RESTART_COOLDOWN_MS) {
                Some(t) => t,
                None => now,
            };
            if at > now {
                Some(SubnetAction::TickAt(at))
            } else {
                match target {
                    SubnetTarget::Down => Some(SubnetAction::Reset),
                    SubnetTarget::Up => Some(SubnetAction::Start),
                }
            }
        },
    }
}

/// A remote subnet: its link's configuration, target and status.
pub struct RemoteSubnetState<C> {
    pub config: Arc<C>,
    pub target: SubnetTarget,
    pub status: SubnetStatus,
}

impl<C> RemoteSubnetState<C> {
    /// A remote subnet that should be up and is down.
    pub fn new(config: C) -> (r: Self)
        ensures
            *r.config == config,
            r.target == SubnetTarget::Up,
            r.status == SubnetStatus::Down,
    {
        RemoteSubnetState { config: Arc::new(config), target: SubnetTarget::Up, status: SubnetStatus::Down }
    }
}

/// A subnet of this node.
pub enum SubnetState<C> {
    Local,
    Remote(RemoteSubnetState<C>),
}

/// The configuration of a subnet to register, as the request carries it.
pub enum SerializedSubnetConfig<C> {
    Local,
    Remote(C),
}

/// Why a subnet was not registered.
#[derive(Debug, Clone, PartialEq, Eq)]
pub enum RegisterSubnetError {
    /// The configuration did not parse; the parser's reason.
    BadRequest(String),
    /// The subnet overlaps this registered one.
    Conflict(AddressRange),
}

/// Why a report on a subnet's link was refused.
#[derive(Debug, Clone, Copy, PartialEq, Eq, Structural)]
pub enum SubnetReportError {
    /// No registered subnet holds the address.
    NoSubnet,
    /// The subnet is local: it has no link.
    LocalSubnet,
}

/// What the network manager does for a remote subnet.
pub enum SubnetCommand<C> {
    /// Schedule a tick for the subnet at this time.
    TickAt(AddressRange, u64),
    /// Ask the remote-subnet supervisor to start the subnet's link.
    Start(AddressRange, Arc<C>),
}

/// A subnet as the contracts see it: local (`None`), or remote with its
/// target and status.
pub type SubnetView = Option<(SubnetTarget, SubnetStatus)>;

/// The target of a remote subnet.
pub open spec fn target_of(v: SubnetView) -> SubnetTarget {
    match v {
        Some((t, _)) => t,
        None => SubnetTarget::Up,
    }
}

pub open spec fn subnet_view<C>(s: SubnetState<C>) -> SubnetView {
    match s {
        SubnetState::Local => None,
        SubnetState::Remote(r) => Some((r.target, r.status)),
    }
}

/// The status a remote subnet moves to with the controller's action.
pub open spec fn status_after(status: SubnetStatus, action: Option<SubnetAction>) -> SubnetStatus {
    match action {
        Some(SubnetAction::Reset) => SubnetStatus::Down,
        Some(SubnetAction::Start) => SubnetStatus::StartingUp,
        _ => status,
    }
}

/// The subnets of a node. Their ranges do not overlap.
pub struct NetworkState<C> {
    subnets: Vec<(AddressRange, SubnetState<C>)>,
}

impl<C> NetworkState<C> {
    /// The subnets, in the order they were registered.
    pub closed spec fn subnets(&self) -> Seq<(AddressRange, SubnetView)> {
        Seq::new(self.subnets@.len(), |i: int| (self.subnets@[i].0, subnet_view(self.subnets@[i].1)))
    }

    /// The configuration of each remote subnet.
    pub closed spec fn config_of(&self, i: int) -> Option<Arc<C>> {
        match self.subnets@[i].1 {
            SubnetState::Local => None,
            SubnetState::Remote(r) => Some(r.config),
        }
    }

    /// The configuration of each subnet, in order: none for a local one.
    pub closed spec fn configs(&self) -> Seq<Option<Arc<C>>> {
        Seq::new(self.subnets@.len(), |i: int| self.config_of(i))
    }

    /// Ranges are disjoint and every remote subnet is meant to be up.
    pub open spec fn wf(&self) -> bool {
        let s = self.subnets();
        &&& forall|i: int, j: int| 0 <= i < s.len() && 0 <= j < s.len() && i != j ==> !(#[trigger] s[i]).0.spec_overlaps(
            #[trigger] s[j].0,
        )
        &&& forall|i: int| 0 <= i < s.len() && (#[trigger] s[i]).1 is Some ==> target_of(s[i].1) == SubnetTarget::Up
    }

    /// No subnets.
    pub fn new() -> (r: Self)
        ensures
            r.wf(),
            r.subnets() =~= Seq::empty(),
    {
        let r = NetworkState { subnets: Vec::new() };
        assert(r.subnets() =~= Seq::empty());
        r
    }

    fn find_overlapping(&self, range: AddressRange) -> (r: Option<usize>)
        ensures
            r matches Some(i) ==> i < self.subnets().len() && self.subnets()[i as int].0.spec_overlaps(range),
            r is None ==> forall|i: int| 0 <= i < self.subnets().len() ==> !(#[trigger] self.subnets()[i]).0.spec_overlaps(range),
    {
        let mut i: usize = 0;
        while i < self.subnets.len()
            invariant
                0 <= i <= self.subnets.len(),
                forall|j: int| 0 <= j < i ==> !(#[trigger] self.subnets()[j]).0.spec_overlaps(range),
            decreases self.subnets.len() - i,
        {
            if self.subnets[i].0.overlaps(&range) {
                return Some(i);
            }
            i = i + 1;
        }
        None
    }

    /// Registers a subnet. A configuration that did not parse is a bad
    /// request; a subnet that overlaps a registered one is a conflict. A
    /// remote subnet starts down, meant to be up.
    pub fn register(&mut self, net_address: NetAddress, config: Result<SerializedSubnetConfig<C>, String>) -> (r:
        Result<(), RegisterSubnetError>)
        requires
            old(self).wf(),
        ensures
            final(self).wf(),
            r matches Err(RegisterSubnetError::BadRequest(reason)) ==> config matches Err(e) && reason == e
                && final(self).subnets() == old(self).subnets(),
            config is Err ==> r is Err && r->Err_0 is BadRequest,
            config is Ok ==> match r {
                Err(RegisterSubnetError::Conflict(c)) => c.spec_overlaps(net_address.spec_range())
                    && exists|i: int| 0 <= i < old(self).subnets().len() && (#[trigger] old(self).subnets()[i]).0 == c,
                Err(_) => false,
                Ok(()) => forall|i: int| 0 <= i < old(self).subnets().len()
                    ==> !(#[trigger] old(self).subnets()[i]).0.spec_overlaps(net_address.spec_range()),
            },
            config is Ok && r is Ok ==> final(self).subnets() == old(self).subnets().push((
                net_address.spec_range(),
                match config->Ok_0 {
                    SerializedSubnetConfig::Local => None,
                    SerializedSubnetConfig::Remote(_) => Some((SubnetTarget::Up, SubnetStatus::Down)),
                },
            )),
            config is Ok && r is Err ==> final(self).subnets() == old(self).subnets(),
    {
        let config = match config {
            Err(reason) => {
                return Err(RegisterSubnetError::BadRequest(reason));
            },
            Ok(c) => c,
        };
        let range = AddressRange::from_net(net_address);
        if let Some(i) = self.find_overlapping(range) {
            let c = self.subnets[i].0;
            return Err(RegisterSubnetError::Conflict(c));
        }
        let state = match config {
            SerializedSubnetConfig::Local => SubnetState::Local,
            SerializedSubnetConfig::Remote(c) => SubnetState::Remote(RemoteSubnetState::new(c)),
        };
        let ghost before = self.subnets();
        self.subnets.push((range, state));
        proof {
            assert(self.subnets() =~= before.push((range, subnet_view(state))));
            let s = self.subnets();
            assert forall|i: int, j: int| 0 <= i < s.len() && 0 <= j < s.len() && i != j implies !(#[trigger] s[i]).0.spec_overlaps(
                #[trigger] s[j].0,
            ) by {
                if i == before.len() {
                    assert(!before[j].0.spec_overlaps(range));
                } else if j == before.len() {
                    assert(!before[i].0.spec_overlaps(range));
                }
            }
        }
        Ok(())
    }

    fn remote_for(&self, net_address: NetAddress) -> (r: Result<usize, SubnetReportError>)
        ensures
            r matches Ok(i) ==> i < self.subnets().len() && self.subnets()[i as int].0.spec_overlaps(net_address.spec_range())
                && self.subnets()[i as int].1 is Some,
            r == Err::<usize, _>(SubnetReportError::NoSubnet) ==> forall|i: int| 0 <= i < self.subnets().len()
                ==> !(#[trigger] self.subnets()[i]).0.spec_overlaps(net_address.spec_range()),
            r == Err::<usize, _>(SubnetReportError::LocalSubnet) ==> exists|i: int| 0 <= i < self.subnets().len()
                && (#[trigger] self.subnets()[i]).0.spec_overlaps(net_address.spec_range()) && self.subnets()[i].1 is None,
    {
        match self.find_overlapping(AddressRange::from_net(net_address)) {
            None => Err(SubnetReportError::NoSubnet),
            Some(i) => match &self.subnets[i].1 {
                SubnetState::Local => Err(SubnetReportError::LocalSubnet),
                SubnetState::Remote(_) => Ok(i),
            },
        }
    }

    fn set_status(&mut self, i: usize, status: SubnetStatus)
        requires
            old(self).wf(),
            i < old(self).subnets().len(),
            old(self).subnets()[i as int].1 is Some,
        ensures
            final(self).wf(),
            final(self).subnets() == old(self).subnets().update(
                i as int,
                (old(self).subnets()[i as int].0, Some((target_of(old(self).subnets()[i as int].1), status))),
            ),
            forall|j: int| 0 <= j < old(self).subnets().len() ==> final(self).config_of(j) == old(self).config_of(j),
    {
        let ghost before = self.subnets();
        let ghost cfgs = self;
        let (range, state) = self.subnets.remove(i);
        let state = match state {
            SubnetState::Remote(r) => SubnetState::Remote(RemoteSubnetState { status, ..r }),
            SubnetState::Local => SubnetState::Local,
        };
        self.subnets.insert(i, (range, state));
        proof {
            assert(self.subnets() =~= before.update(i as int, (before[i as int].0, Some((target_of(before[i as int].1), status)))));
        }
    }

    /// The link of the subnet that holds `net_address` is up, handled by
    /// `handled_by`.
    pub fn started(&mut self, net_address: NetAddress, handled_by: Address) -> (r: Result<(), SubnetReportError>)
        requires
            old(self).wf(),
        ensures
            final(self).wf(),
            r is Err ==> final(self).subnets() == old(self).subnets(),
            r == Err::<(), _>(SubnetReportError::NoSubnet) <==> forall|i: int| 0 <= i < old(self).subnets().len()
                ==> !(#[trigger] old(self).subnets()[i]).0.spec_overlaps(net_address.spec_range()),
            r is Ok ==> exists|i: int| 0 <= i < old(self).subnets().len()
                && (#[trigger] old(self).subnets()[i]).0.spec_overlaps(net_address.spec_range())
                && old(self).subnets()[i].1 is Some
                && final(self).subnets() == old(self).subnets().update(
                    i,
                    (old(self).subnets()[i].0, Some((target_of(old(self).subnets()[i].1), SubnetStatus::Up(handled_by)))),
                ),
    {
        let i = self.remote_for(net_address)?;
        self.set_status(i, SubnetStatus::Up(handled_by));
        Ok(())
    }

    /// The link of the subnet that holds `net_address` failed at `now`.
    pub fn start_failed(&mut self, net_address: NetAddress, now: u64) -> (r: Result<(), SubnetReportError>)
        requires
            old(self).wf(),
        ensures
            final(self).wf(),
            r is Err ==> final(self).subnets() == old(self).subnets(),
            r == Err::<(), _>(SubnetReportError::NoSubnet) <==> forall|i: int| 0 <= i < old(self).subnets().len()
                ==> !(#[trigger] old(self).subnets()[i]).0.spec_overlaps(net_address.spec_range()),
            r is Ok ==> exists|i: int| 0 <= i < old(self).subnets().len()
                && (#[trigger] old(self).subnets()[i]).0.spec_overlaps(net_address.spec_range())
                && old(self).subnets()[i].1 is Some
                && final(self).subnets() == old(self).subnets().update(
                    i,
                    (old(self).subnets()[i].0, Some((target_of(old(self).subnets()[i].1), SubnetStatus::Failed(now)))),
                ),
    {
        let i = self.remote_for(net_address)?;
        self.set_status(i, SubnetStatus::Failed(now));
        Ok(())
    }

    /// One round of the controller at `now`: each remote subnet, in order, is
    /// decided on; a reset brings it down, a start brings it to starting up
    /// and asks for its link, a wait schedules a tick.
    #[verifier::loop_isolation(false)]
    pub fn control(&mut self, now: u64) -> (r: Vec<SubnetCommand<C>>)
        requires
            old(self).wf(),
        ensures
            final(self).wf(),
            final(self).subnets().len() == old(self).subnets().len(),
            forall|i: int| 0 <= i < old(self).subnets().len() ==> {
                let s = #[trigger] old(self).subnets()[i];
                final(self).subnets()[i] == match s.1 {
                    None => s,
                    Some((t, st)) => (s.0, Some((t, status_after(st, subnet_decision(now, st, t))))),
                }
            },
            final(self).configs() == old(self).configs(),
            r@ == commands(old(self).subnets(), old(self).configs(), now),
    {
        let mut r: Vec<SubnetCommand<C>> = Vec::new();
        let ghost before = self.subnets();
        let ghost cfgs = self.configs();
        proof {
            assert(before.take(0) =~= Seq::<(AddressRange, SubnetView)>::empty());
            assert(cfgs.take(0) =~= Seq::<Option<Arc<C>>>::empty());
        }
        let mut i: usize = 0;
        while i < self.subnets.len()
            invariant
                0 <= i <= self.subnets.len(),
                self.wf(),
                before.len() == self.subnets().len(),
                r@.len() <= i,
                forall|j: int| i <= j < before.len() ==> #[trigger] self.subnets()[j] == before[j],
                forall|j: int| 0 <= j < i ==> {
                    let s = #[trigger] before[j];
                    self.subnets()[j] == match s.1 {
                        None => s,
                        Some((t, st)) => (s.0, Some((t, status_after(st, subnet_decision(now, st, t))))),
                    }
                },
                before == old(self).subnets(),
                self.configs() == cfgs,
                cfgs.len() == before.len(),
                r@ == commands(before.take(i as int), cfgs.take(i as int), now),
            decreases self.subnets.len() - i,
        {
            let range = self.subnets[i].0;
            let decided = match &self.subnets[i].1 {
                SubnetState::Local => None,
                SubnetState::Remote(rs) => Some((decide(now, rs.status, rs.target), rs.config.clone())),
            };
            let ghost r0 = r@;
            proof {
                assert(self.subnets()[i as int] == (self.subnets@[i as int].0, subnet_view(self.subnets@[i as int].1)));
                assert(self.subnets()[i as int] == before[i as int]);
                assert(before.take(i + 1).drop_last() =~= before.take(i as int));
                assert(cfgs.take(i + 1).drop_last() =~= cfgs.take(i as int));
                assert(before.take(i + 1).last() == before[i as int]);
                assert(cfgs.take(i + 1).last() == cfgs[i as int]);
                assert(cfgs[i as int] == self.config_of(i as int));
            }
            match decided {
                None => {},
                Some((None, _)) => {},
                Some((Some(SubnetAction::Reset), _)) => {
                    self.set_status(i, SubnetStatus::Down);
                    assert(self.configs() =~= cfgs);
                },
                Some((Some(SubnetAction::TickAt(at)), _)) => {
                    r.push(SubnetCommand::TickAt(range, at));
                },
                Some((Some(SubnetAction::Start), config)) => {
                    r.push(SubnetCommand::Start(range, config));
                    assert(self.configs() == cfgs);
                    self.set_status(i, SubnetStatus::StartingUp);
                    assert(self.subnets@.len() == self.subnets().len());
                    assert forall|j: int| 0 <= j < cfgs.len() implies #[trigger] self.configs()[j] == cfgs[j] by {
                        assert(self.configs()[j] == self.config_of(j));
                    }
                    assert(self.configs() =~= cfgs);
                },
                Some((Some(SubnetAction::Stop), _)) => {
                    assert(false);
                },
            }
            assert(self.subnets@.len() == self.subnets().len());
            i = i + 1;
        }
        proof {
            assert(before.take(before.len() as int) =~= before);
            assert(cfgs.take(cfgs.len() as int) =~= cfgs);
        }
        r
    }
}

/// The commands of one round of the controller over the subnets `s`, whose
/// configurations are `cfgs`: in order, a tick for each remote subnet that
/// waits, and a start, with its configuration, for each one that starts.
pub open spec fn commands<C>(s: Seq<(AddressRange, SubnetView)>, cfgs: Seq<Option<Arc<C>>>, now: u64) -> Seq<SubnetCommand<C>>
    decreases s.len(),
{
    if s.len() == 0 {
        Seq::empty()
    } else {
        let prev = commands(s.drop_last(), cfgs.drop_last(), now);
        match s.last().1 {
            None => prev,
            Some((t, st)) => match subnet_decision(now, st, t) {
                Some(SubnetAction::TickAt(at)) => prev.push(SubnetCommand::TickAt(s.last().0, at)),
                Some(SubnetAction::Start) => prev.push(SubnetCommand::Start(s.last().0, cfgs.last()->0)),
                _ => prev,
            },
        }
    }
}

/// A remote subnet that is meant to be up is never stopped.
pub proof fn law_wanted_subnet_never_stopped(now: u64, status: SubnetStatus)
    ensures
        subnet_decision(now, status, SubnetTarget::Up) != Some(SubnetAction::Stop),
{
}

/// A failed subnet is started again, or reset, only once its cooldown has
/// passed (or where the end of the cooldown is past the clock's range); before
/// that, the controller waits until the cooldown's end.
pub proof fn law_failed_subnet_cools_down(now: u64, failed_at: u64, target: SubnetTarget)
    ensures
        ({
            let d = subnet_decision(now, SubnetStatus::Failed(failed_at), target);
            &&& (d == Some(SubnetAction::Start) || d == Some(SubnetAction::Reset))
                ==> (failed_at + FAILING_SUBNET_RESTART_COOLDOWN_MS > u64::MAX || failed_at + FAILING_SUBNET_RESTART_COOLDOWN_MS <= now)
            &&& failed_at + FAILING_SUBNET_RESTART_COOLDOWN_MS <= u64::MAX && now < failed_at + FAILING_SUBNET_RESTART_COOLDOWN_MS
                ==> d == Some(SubnetAction::TickAt((failed_at + FAILING_SUBNET_RESTART_COOLDOWN_MS) as u64))
        }),
{
}

} // verus!
