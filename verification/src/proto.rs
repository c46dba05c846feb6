//! Messages between the multinode manager and the connections.

use vstd::prelude::*;

use crate::address::{Address, NetAddress};
use crate::type_keys::LocalTypeKey;

verus! {

/// A route update: messages of type `message` for `destination` go via `via`
/// (locally when `None`) at `metric`; no metric removes the route.
#[derive(Debug, Clone, Copy, PartialEq, Eq, Structural)]
pub struct SetRoute {
    pub message: LocalTypeKey,
    pub destination: NetAddress,
    pub via: Option<Address>,
    pub metric: Option<u8>,
}

impl SetRoute {
    /// The update that announces a listed route.
    pub fn from_route(route: (LocalTypeKey, NetAddress, Option<Address>, u8)) -> (r: SetRoute)
        ensures
            r == (SetRoute { message: route.0, destination: route.1, via: route.2, metric: Some(route.3) }),
    {
        let (message, destination, via, metric) = route;
        SetRoute { message, destination, via, metric: Some(metric) }
    }
}

/// A message of a type that this node does not know, forwarded as bytes.
#[derive(Debug, Clone, PartialEq, Eq)]
pub struct Forward {
    pub local_type_key: LocalTypeKey,
    pub body: Vec<u8>,
}

} // verus!
