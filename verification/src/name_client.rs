//! The clients of the name service: a registration that keeps a name for an
//! address, and a resolver.

use std::time::Duration;

use vstd::prelude::*;

use crate::address::Address;
use crate::child_spec::{duration_from_millis, duration_from_secs, duration_of_millis, duration_of_secs};

verus! {

/// A request to hold `key` for `addr`, exclusively or shared, for `ttl`.
#[derive(Debug, Clone, PartialEq, Eq)]
pub struct RegisterRequest {
    pub key: String,
    pub addr: Address,
    pub exclusive: bool,
    pub ttl: Duration,
}

/// Keeps a name registered for an address: it registers, waits the refresh
/// interval, and registers again.
pub struct Registration<Ctx> {
    ctx: Ctx,
    name_server: Address,
    key: String,
    addr: Address,
    pub register_timeout: Duration,
    pub refresh_interval: Duration,
    pub ttl: Duration,
    pub exclusive: bool,
}

impl<Ctx> Registration<Ctx> {
    pub closed spec fn server(&self) -> Address {
        self.name_server
    }

    pub closed spec fn key_view(&self) -> Seq<char> {
        self.key@
    }

    pub closed spec fn addr_view(&self) -> Address {
        self.addr
    }

    pub closed spec fn context(&self) -> Ctx {
        self.ctx
    }

    /// The register timeout, refresh interval, time to live and exclusivity.
    pub closed spec fn settings(&self) -> (Duration, Duration, Duration, bool) {
        (self.register_timeout, self.refresh_interval, self.ttl, self.exclusive)
    }

    /// Everything but the settings.
    pub closed spec fn same_target(&self, other: &Self) -> bool {
        self.ctx == other.ctx && self.name_server == other.name_server && self.key@ == other.key@ && self.addr == other.addr
    }

    /// A registration of `name` for `addr` at `name_server`: exclusive, for two
    /// seconds, refreshed each second, each registration given 10 ms.
    pub fn new(ctx: Ctx, name_server: Address, name: String, addr: Address) -> (r: Self)
        ensures
            r.server() == name_server,
            r.key_view() == name@,
            r.addr_view() == addr,
            r.context() == ctx,
            r.settings() == (duration_of_millis(10), duration_of_secs(1), duration_of_secs(2), true),
    {
        Registration {
            ctx,
            name_server,
            key: name,
            addr,
            register_timeout: duration_from_millis(10),
            refresh_interval: duration_from_secs(1),
            ttl: duration_from_secs(2),
            exclusive: true,
        }
    }

    pub fn with_register_timeout(self, register_timeout: Duration) -> (r: Self)
        ensures
            r.same_target(&self),
            r.settings() == (register_timeout, self.settings().1, self.settings().2, self.settings().3),
    {
        Registration { register_timeout, ..self }
    }

    pub fn with_refresh_interval(self, refresh_interval: Duration) -> (r: Self)
        ensures
            r.same_target(&self),
            r.settings() == (self.settings().0, refresh_interval, self.settings().2, self.settings().3),
    {
        Registration { refresh_interval, ..self }
    }

    pub fn with_ttl(self, ttl: Duration) -> (r: Self)
        ensures
            r.same_target(&self),
            r.settings() == (self.settings().0, self.settings().1, ttl, self.settings().3),
    {
        Registration { ttl, ..self }
    }

    pub fn with_exclusive(self, exclusive: bool) -> (r: Self)
        ensures
            r.same_target(&self),
            r.settings() == (self.settings().0, self.settings().1, self.settings().2, exclusive),
    {
        Registration { exclusive, ..self }
    }

    /// The request that each round of the registration sends.
    pub fn request(&self) -> (r: RegisterRequest)
        ensures
            r.key@ == self.key_view(),
            r.addr == self.addr_view(),
            r.exclusive == self.settings().3,
            r.ttl == self.settings().2,
    {
        RegisterRequest { key: self.key.clone(), addr: self.addr, exclusive: self.exclusive, ttl: self.ttl }
    }
}

/// Resolves names at a name server.
pub struct Resolver<Ctx> {
    ctx: Ctx,
    name_server: Address,
    pub resolve_timeout: Duration,
}

impl<Ctx> Resolver<Ctx> {
    pub closed spec fn server(&self) -> Address {
        self.name_server
    }

    pub closed spec fn context(&self) -> Ctx {
        self.ctx
    }

    pub closed spec fn timeout(&self) -> Duration {
        self.resolve_timeout
    }

    /// A resolver that gives each request 10 ms.
    pub fn new(ctx: Ctx, name_server: Address) -> (r: Self)
        ensures
            r.server() == name_server,
            r.context() == ctx,
            r.timeout() == duration_of_millis(10),
    {
        Resolver { ctx, name_server, resolve_timeout: duration_from_millis(10) }
    }

    pub fn with_timeout(self, resolve_timeout: Duration) -> (r: Self)
        ensures
            r.server() == self.server(),
            r.context() == self.context(),
            r.timeout() == resolve_timeout,
    {
        Resolver { resolve_timeout, ..self }
    }
}

/// What a waiting resolution does with the answer of one round.
#[derive(Debug, Clone, Copy, PartialEq, Eq, Structural)]
pub enum WaitStep {
    /// Addresses were found: the wait is over.
    Resolved,
    /// None yet: retry after the interval, if retries are left.
    Retry,
    /// No retries are left: the wait failed.
    OutOfRetries,
}

/// One round of waiting for a name to resolve to some address: `found` is the
/// number of addresses of this round, `round` counts from 0.
pub fn wait_step(found: usize, round: usize, retries: usize) -> (r: WaitStep)
    ensures
        round >= retries ==> r == WaitStep::OutOfRetries,
        round < retries && found > 0 ==> r == WaitStep::Resolved,
        round < retries && found == 0 ==> r == WaitStep::Retry,
{
    if round >= retries {
        WaitStep::OutOfRetries
    } else if found > 0 {
        WaitStep::Resolved
    } else {
        WaitStep::Retry
    }
}

} // verus!
