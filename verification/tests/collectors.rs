//! Names and availability of the collectors, and the probes.
use netlink_exporter::collectors::conntrack::ConntrackCollector;
use netlink_exporter::collectors::conntrack_expect::ConntrackExpectCollector;
use netlink_exporter::collectors::devlink::DevlinkCollector;
use netlink_exporter::collectors::drop_monitor::DropMonitorCollector;
use netlink_exporter::collectors::rt_extended::RtExtendedCollector;
use netlink_exporter::collectors::sockdiag::SockDiagCollector;
use netlink_exporter::collectors::tc::TcCollector;
use netlink_exporter::probes::{HealthService, ReadinessService};

#[test]
fn names_and_availability() {
    assert_eq!(ConntrackCollector.name(), "conntrack");
    assert_eq!(ConntrackExpectCollector.name(), "conntrack_expect");
    assert_eq!(DevlinkCollector.name(), "devlink");
    assert_eq!(DropMonitorCollector.name(), "drop_monitor");
    assert_eq!(RtExtendedCollector.name(), "rtnetlink_extended");
    assert_eq!(SockDiagCollector.name(), "sock_diag");
    assert_eq!(TcCollector.name(), "traffic_control");
    assert!(ConntrackCollector.available());
    assert!(ConntrackExpectCollector.available());
    assert!(RtExtendedCollector.available());
    assert!(SockDiagCollector.available());
    assert!(TcCollector.available());
    assert!(!DevlinkCollector.available());
    assert!(!DropMonitorCollector.available());
}

#[test]
fn readiness_is_declared_once() {
    let mut r = ReadinessService::new();
    assert!(!r.is_ready());
    r.set_ready();
    assert!(r.is_ready());
    r.set_ready();
    assert!(r.is_ready());
    assert!(HealthService.is_healthy());
}
