//! How a supervisor starts one of its children: the factory that makes the
//! child, how the start is acknowledged, how long a stop may take.

use std::time::Duration;

use vstd::prelude::*;

verus! {

/// Names the duration that `Duration::from_secs` gives for a number of
/// seconds.
pub uninterp spec fn duration_of_secs(secs: u64) -> Duration;

/// `Duration::from_secs`: the duration of `secs` whole seconds. It depends on
/// its argument alone.
#[verifier::external_body]
pub(crate) fn duration_from_secs(secs: u64) -> (r: Duration)
    ensures
        r == duration_of_secs(secs),
{
    Duration::from_secs(secs)
}

/// Names the duration that `Duration::from_millis` gives for a number of
/// milliseconds.
pub uninterp spec fn duration_of_millis(millis: u64) -> Duration;

/// `Duration::from_millis`: the duration of `millis` milliseconds. It depends
/// on its argument alone.
#[verifier::external_body]
pub(crate) fn duration_from_millis(millis: u64) -> (r: Duration)
    ensures
        r == duration_of_millis(millis),
{
    Duration::from_millis(millis)
}

/// `Duration`'s `Clone`: `Duration` is `Copy`, and its clone is the same
/// duration.
pub assume_specification[ <Duration as Clone>::clone ](d: &Duration) -> (r: Duration)
    ensures
        r == *d,
;

/// Makes the runnable of an actor from the arguments of its start.
pub trait ActorFactory {
    type Args;
    type Runnable;

    fn produce(&self, args: Self::Args) -> Self::Runnable;
}

/// Whether a child of a uniform supervisor is restarted.
#[derive(Debug, Clone, Copy, PartialEq, Eq, Structural)]
pub enum ChildType {
    Permanent,
    Temporary,
}

/// Whether a start waits for the child to report that it is up, and how long.
#[derive(Debug, Clone, Copy)]
pub enum InitType {
    NoAck,
    WithAck { start_timeout: Duration },
}

/// A child of a supervisor, as the supervisor starts it.
#[derive(Debug, Clone)]
pub struct ChildSpec<F, T = ChildType> {
    pub launcher: F,
    pub child_type: T,
    pub init_type: InitType,
    pub stop_timeout: Duration,
    pub announce_parent: bool,
}

impl<F> ChildSpec<F, ()> {
    /// A child without acknowledgement, stopped within a second, that is not
    /// told its parent.
    pub fn new(launcher: F) -> (r: Self)
        ensures
            r.launcher == launcher,
            r.init_type is NoAck,
            r.stop_timeout == duration_of_secs(1),
            !r.announce_parent,
    {
        ChildSpec {
            launcher,
            child_type: (),
            init_type: InitType::NoAck,
            stop_timeout: duration_from_secs(1),
            announce_parent: false,
        }
    }
}

impl<F, T> ChildSpec<F, T> {
    /// The same child with another child type.
    pub fn with_child_type<T1>(self, child_type: T1) -> (r: ChildSpec<F, T1>)
        ensures
            r.launcher == self.launcher,
            r.child_type == child_type,
            r.init_type == self.init_type,
            r.stop_timeout == self.stop_timeout,
            r.announce_parent == self.announce_parent,
    {
        let ChildSpec { launcher, child_type: _, init_type, stop_timeout, announce_parent } = self;
        ChildSpec { launcher, child_type, init_type, stop_timeout, announce_parent }
    }

    /// The same child with another way of acknowledging its start.
    pub fn with_init_type(self, init_type: InitType) -> (r: Self)
        ensures
            r == (ChildSpec { init_type, ..self }),
    {
        ChildSpec { init_type, ..self }
    }

    /// The same child with another stop timeout.
    pub fn with_stop_timeout(self, stop_timeout: Duration) -> (r: Self)
        ensures
            r == (ChildSpec { stop_timeout, ..self }),
    {
        ChildSpec { stop_timeout, ..self }
    }

    /// The same child, told its parent on start or not.
    pub fn with_announce_parent(self, announce_parent: bool) -> (r: Self)
        ensures
            r == (ChildSpec { announce_parent, ..self }),
    {
        ChildSpec { announce_parent, ..self }
    }

    /// The same child, told its parent on start.
    pub fn announce_parent(self) -> (r: Self)
        ensures
            r == (ChildSpec { announce_parent: true, ..self }),
    {
        self.with_announce_parent(true)
    }

    /// The same child with its launcher passed through `map`.
    pub fn map_launcher<F1, M>(self, map: M) -> (r: ChildSpec<F1, T>)
        where
            M: FnOnce(F) -> F1,
        requires
            map.requires((self.launcher,)),
        ensures
            map.ensures((self.launcher,), r.launcher),
            r.child_type == self.child_type,
            r.init_type == self.init_type,
            r.stop_timeout == self.stop_timeout,
            r.announce_parent == self.announce_parent,
    {
        let ChildSpec { launcher: factory, child_type, init_type, stop_timeout, announce_parent } = self;
        ChildSpec { launcher: map(factory), child_type, init_type, stop_timeout, announce_parent }
    }
}

/// `r` is `s` with its launcher passed through `map`: what `map_launcher`
/// ensures.
pub open spec fn launcher_mapped<F, F1, T, M: FnOnce(F) -> F1>(s: ChildSpec<F, T>, map: M, r: ChildSpec<F1, T>) -> bool {
    &&& map.ensures((s.launcher,), r.launcher)
    &&& r.child_type == s.child_type
    &&& r.init_type == s.init_type
    &&& r.stop_timeout == s.stop_timeout
    &&& r.announce_parent == s.announce_parent
}

/// Mapping the launcher twice is mapping it once through both maps in turn:
/// the launcher is what the second map makes of what the first made, and
/// every other field is the original's.
pub proof fn law_map_launcher_composes<F, F1, F2, T, M: FnOnce(F) -> F1, N: FnOnce(F1) -> F2>(
    s: ChildSpec<F, T>,
    f: M,
    mid: ChildSpec<F1, T>,
    g: N,
    r: ChildSpec<F2, T>,
)
    requires
        launcher_mapped(s, f, mid),
        launcher_mapped(mid, g, r),
    ensures
        exists|x: F1| #[trigger] f.ensures((s.launcher,), x) && g.ensures((x,), r.launcher),
        r.child_type == s.child_type,
        r.init_type == s.init_type,
        r.stop_timeout == s.stop_timeout,
        r.announce_parent == s.announce_parent,
{
    assert(f.ensures((s.launcher,), mid.launcher));
}

/// Mapping the launcher through a map that returns its argument leaves the
/// child spec as it was.
pub proof fn law_map_launcher_identity<F, T, M: FnOnce(F) -> F>(s: ChildSpec<F, T>, map: M, r: ChildSpec<F, T>)
    requires
        launcher_mapped(s, map, r),
        forall|x: F, y: F| #[trigger] map.ensures((x,), y) ==> y == x,
    ensures
        r == s,
{
}

} // verus!
