use mm1::address::{Address, AddressRange, NetAddress, NetMask};
use mm1::connector::{on_connect_failed, on_connection_down, ConnectorStep, RECONNECT_INTERVAL_MS};
use mm1::network::{
    decide, NetworkState, RegisterSubnetError, SerializedSubnetConfig, SubnetAction, SubnetCommand, SubnetReportError,
    SubnetStatus, SubnetTarget,
};
use mm1::uniform::{
    ChildStatus, Children, ExitDecision, RestartIntensity, RestartIntensityReached, Restarting, StopDecision, Temporary,
    UniformChildType,
};
use mm1::waitlist::Waitlist;

fn net(v: u64, mask: u8) -> NetAddress {
    NetAddress { address: Address(v), mask: NetMask(mask) }
}

#[test]
fn a_started_child_is_found_by_its_address() {
    let mut c = Children::new();
    let k = c.start_child();
    c.child_started(k, Address(7)).unwrap();
    assert_eq!(c.exited_child(Address(7)), Some((k, ChildStatus::Started(Address(7)))));
    assert_eq!(c.exited_child(Address(8)), None);
}

#[test]
fn a_child_starts_once() {
    let mut c = Children::new();
    let k = c.start_child();
    c.child_started(k, Address(7)).unwrap();
    assert_eq!(c.child_started(k, Address(9)), Err(ChildStatus::Started(Address(7))));
}

#[test]
fn a_second_stop_request_is_refused() {
    let mut c = Children::new();
    let k = c.start_child();
    c.child_started(k, Address(7)).unwrap();
    assert_eq!(c.stop_request(Address(7)), StopDecision::Stop);
    assert_eq!(c.stop_request(Address(7)), StopDecision::AlreadyStopping);
    assert_eq!(c.stop_request(Address(8)), StopDecision::UnknownAddress);
}

#[test]
fn a_stopped_child_leaves_no_trace() {
    let mut c = Children::new();
    let k = c.start_child();
    c.child_started(k, Address(7)).unwrap();
    c.stop_request(Address(7));
    assert_eq!(c.sys_exited(Address(7), Ok(true)), ExitDecision::Stopped);
    assert_eq!(c.exited_child(Address(7)), None);
    assert_eq!(c.stop_request(Address(7)), StopDecision::UnknownAddress);
}

#[test]
fn a_restarted_child_keeps_its_key() {
    let mut c = Children::new();
    let k = c.start_child();
    c.child_started(k, Address(7)).unwrap();
    assert_eq!(c.sys_exited(Address(7), Ok(true)), ExitDecision::Restart(k));
    assert_eq!(c.exited_child(Address(7)), None);
    c.child_started(k, Address(11)).unwrap();
    assert_eq!(c.exited_child(Address(11)), Some((k, ChildStatus::Started(Address(11)))));
}

#[test]
fn a_child_not_restarted_is_removed() {
    let mut c = Children::new();
    let k = c.start_child();
    c.child_started(k, Address(7)).unwrap();
    assert_eq!(c.sys_exited(Address(7), Ok(false)), ExitDecision::Removed);
    assert!(c.reap_started_children().is_empty());
}

#[test]
fn a_failed_restart_decision_fails_the_supervisor() {
    let mut c = Children::new();
    let k = c.start_child();
    c.child_started(k, Address(7)).unwrap();
    assert_eq!(c.sys_exited(Address(7), Err(RestartIntensityReached)), ExitDecision::RestartFailed);
    assert_eq!(c.sys_exited(Address(7), Ok(true)), ExitDecision::UnknownPeer);
}

#[test]
fn a_failed_start_leaves_no_trace() {
    let mut c = Children::new();
    let k = c.start_child();
    assert!(c.child_start_failed(k));
    assert!(!c.child_start_failed(k));
}

#[test]
fn reaping_returns_the_started_children() {
    let mut c = Children::new();
    let k1 = c.start_child();
    let _k2 = c.start_child();
    let k3 = c.start_child();
    c.child_started(k1, Address(1)).unwrap();
    c.child_started(k3, Address(3)).unwrap();
    let mut reaped = c.reap_started_children();
    reaped.sort();
    assert_eq!(reaped, vec![Address(1), Address(3)]);
    assert!(c.reap_started_children().is_empty());
}

#[test]
fn a_wanted_subnet_that_is_down_is_started() {
    assert_eq!(decide(10, SubnetStatus::Down, SubnetTarget::Up), Some(SubnetAction::Start));
    assert_eq!(decide(10, SubnetStatus::Down, SubnetTarget::Down), None);
    assert_eq!(decide(10, SubnetStatus::Up(Address(1)), SubnetTarget::Down), Some(SubnetAction::Stop));
    assert_eq!(decide(10, SubnetStatus::Up(Address(1)), SubnetTarget::Up), None);
    assert_eq!(decide(10, SubnetStatus::StartingUp, SubnetTarget::Up), None);
    assert_eq!(decide(10, SubnetStatus::ShuttingDown, SubnetTarget::Up), None);
}

#[test]
fn a_failed_subnet_cools_down_for_a_second() {
    assert_eq!(decide(10, SubnetStatus::Failed(5), SubnetTarget::Up), Some(SubnetAction::TickAt(1005)));
    assert_eq!(decide(1005, SubnetStatus::Failed(5), SubnetTarget::Up), Some(SubnetAction::Start));
    assert_eq!(decide(1005, SubnetStatus::Failed(5), SubnetTarget::Down), Some(SubnetAction::Reset));
    assert_eq!(decide(7, SubnetStatus::Failed(u64::MAX - 1), SubnetTarget::Up), Some(SubnetAction::Start));
}

#[test]
fn subnets_register_once() {
    let mut s: NetworkState<String> = NetworkState::new();
    s.register(net(0xaa00_0000_0000_0000, 16), Ok(SerializedSubnetConfig::Local)).unwrap();
    match s.register(net(0xaa00_0100_0000_0000, 32), Ok(SerializedSubnetConfig::Remote("x".to_string()))) {
        Err(RegisterSubnetError::Conflict(c)) => {
            assert_eq!(c, AddressRange { lo: 0xaa00_0000_0000_0000, hi: 0xaa00_ffff_ffff_ffff })
        },
        _ => panic!("an overlapping subnet must be refused"),
    }
    assert_eq!(
        s.register(net(0xbb00_0000_0000_0000, 16), Err("bad config".to_string())),
        Err(RegisterSubnetError::BadRequest("bad config".to_string()))
    );
}

#[test]
fn a_remote_subnet_is_started_then_cools_down_after_a_failure() {
    let mut s: NetworkState<String> = NetworkState::new();
    let remote = net(0xbb00_0000_0000_0000, 16);
    s.register(remote, Ok(SerializedSubnetConfig::Remote("link".to_string()))).unwrap();
    let commands = s.control(100);
    assert_eq!(commands.len(), 1);
    match &commands[0] {
        SubnetCommand::Start(range, cfg) => {
            assert_eq!(range.lo, 0xbb00_0000_0000_0000);
            assert_eq!(cfg.as_str(), "link");
        },
        _ => panic!("a wanted subnet that is down is started"),
    }
    assert!(s.control(101).is_empty());
    s.start_failed(remote, 200).unwrap();
    match s.control(300).as_slice() {
        [SubnetCommand::TickAt(_, at)] => assert_eq!(*at, 1200),
        _ => panic!("a failed subnet waits"),
    }
    assert_eq!(s.control(1200).len(), 1);
    s.started(remote, Address(42)).unwrap();
    assert!(s.control(5000).is_empty());
}

#[test]
fn reports_on_unknown_or_local_subnets_are_refused() {
    let mut s: NetworkState<String> = NetworkState::new();
    s.register(net(0xaa00_0000_0000_0000, 16), Ok(SerializedSubnetConfig::Local)).unwrap();
    assert_eq!(s.started(net(0xcc00_0000_0000_0000, 16), Address(1)), Err(SubnetReportError::NoSubnet));
    assert_eq!(s.started(net(0xaa00_0000_0000_0000, 16), Address(1)), Err(SubnetReportError::LocalSubnet));
}

#[test]
fn a_timed_out_wait_is_gone() {
    let mut w = Waitlist::new();
    let k = w.enqueue("proto".to_string(), 5);
    w.arm(k, 77);
    let e = w.timeout(k).unwrap();
    assert_eq!(e.protocol, "proto");
    assert_eq!(e.reply_to, 5);
    assert_eq!(e.timer_key, Some(77));
    assert!(w.timeout(k).is_none());
}

#[test]
fn registering_a_protocol_releases_its_armed_waits() {
    let mut w = Waitlist::new();
    let k1 = w.enqueue("a".to_string(), 1);
    let k2 = w.enqueue("a".to_string(), 2);
    let k3 = w.enqueue("b".to_string(), 3);
    w.arm(k1, 10);
    w.arm(k2, 20);
    w.arm(k3, 30);
    let mut taken = w.take_waiting(&"a".to_string());
    taken.sort_by_key(|t| t.2);
    assert_eq!(taken.len(), 2);
    assert_eq!((taken[0].1, taken[0].2), (10, 1));
    assert_eq!((taken[1].1, taken[1].2), (20, 2));
    assert!(w.take_waiting(&"a".to_string()).is_empty());
    assert!(w.timeout(k1).is_none());
    assert!(w.timeout(k3).is_some());
}

#[test]
fn a_connector_retries_until_the_connection_ends_normally() {
    assert_eq!(on_connect_failed(), ConnectorStep::ReconnectAfter(RECONNECT_INTERVAL_MS));
    assert_eq!(on_connection_down(false), ConnectorStep::ReconnectAfter(1000));
    assert_eq!(on_connection_down(true), ConnectorStep::Stop);
}

fn intensity() -> RestartIntensity {
    RestartIntensity { max_restarts: 3, within: std::time::Duration::from_secs(1) }
}

#[test]
fn a_transient_child_restarts_after_a_crash_only() {
    let transient = Restarting::<false>::new(intensity());
    let mut data = UniformChildType::<u32>::new_data(&transient, 5);
    assert_eq!(transient.should_restart(&mut data, false, true), Ok(true));
    assert_eq!(transient.should_restart(&mut data, true, true), Ok(false));
    assert_eq!(transient.should_restart(&mut data, false, false), Err(RestartIntensityReached));
}

#[test]
fn a_permanent_child_restarts_after_any_exit() {
    let permanent = Restarting::<true>::new(intensity());
    let mut data = UniformChildType::<u32>::new_data(&permanent, 5);
    assert_eq!(permanent.should_restart(&mut data, false, true), Ok(true));
    assert_eq!(permanent.should_restart(&mut data, true, true), Ok(true));
    assert_eq!(permanent.should_restart(&mut data, true, false), Err(RestartIntensityReached));
}

#[test]
fn a_temporary_child_never_restarts() {
    let mut data = UniformChildType::<u32>::new_data(&Temporary, 5);
    assert_eq!(Temporary.should_restart(&mut data, false, true), Ok(false));
}
