//! The decisions of an actor that connects to a peer node: when to try
//! again, and when to stop.

use vstd::prelude::*;

verus! {

/// How long a connector waits before it tries again, in milliseconds.
pub const RECONNECT_INTERVAL_MS: u64 = 1000;

/// What a connector does next.
#[derive(Debug, Clone, Copy, PartialEq, Eq, Structural)]
pub enum ConnectorStep {
    /// Try to connect again after this many milliseconds.
    ReconnectAfter(u64),
    /// Stop: the connection ended normally.
    Stop,
}

/// The connection could not be made: try again later.
pub fn on_connect_failed() -> (r: ConnectorStep)
    ensures
        r == ConnectorStep::ReconnectAfter(RECONNECT_INTERVAL_MS),
{
    ConnectorStep::ReconnectAfter(RECONNECT_INTERVAL_MS)
}

/// The connection is gone: a normal end stops the connector, an abnormal one
/// has it try again later.
pub fn on_connection_down(normal_exit: bool) -> (r: ConnectorStep)
    ensures
        normal_exit ==> r == ConnectorStep::Stop,
        !normal_exit ==> r == ConnectorStep::ReconnectAfter(RECONNECT_INTERVAL_MS),
{
    if normal_exit {
        ConnectorStep::Stop
    } else {
        ConnectorStep::ReconnectAfter(RECONNECT_INTERVAL_MS)
    }
}

} // verus!
