//! Verified core of an Erlang-style actor runtime: address arithmetic, route
//! and protocol registries, the name service, supervisor bookkeeping and the
//! decisions that the runtime's actors make.

pub mod address;
pub mod assoc;
pub mod child_spec;
pub mod mixed;
pub mod codec;
pub mod codecs;
pub mod connection;
pub mod connector;
pub mod dispatch;
pub mod framing;
pub mod hello;
pub mod ifaces;
pub mod ingress;
pub mod manager;
pub mod name_client;
pub mod name_service;
pub mod network;
pub mod pdu;
pub mod protocol_registry;
pub mod protocols;
pub mod remote_subnet;
pub mod proto;
pub mod route_registry;
pub mod server;
pub mod slots;
pub mod type_keys;
pub mod uniform;
pub mod writer;
pub mod waitlist;

use vstd::prelude::*;

verus! {

} // verus!
