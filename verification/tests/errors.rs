//! Messages of the error types.
use netlink_exporter::error::{
    CollectError, ConfigLoadError, DomainError, HttpAdapterError, RegistryError, TransportError,
};

#[test]
fn domain_errors() {
    assert_eq!(
        DomainError::DumpIntr.message(),
        "netlink dump interrupted (NLM_F_DUMP_INTR); max restarts exceeded"
    );
    assert_eq!(
        DomainError::RecvBufOverflow.message(),
        "netlink receive buffer overflow (ENOBUFS)"
    );
    let e = DomainError::CollectorUnavailable {
        name: "ipvs",
        reason: "module not loaded".to_owned(),
    };
    assert_eq!(e.message(), "collector ipvs not available: module not loaded");
    assert_eq!(
        DomainError::Collector("boom".to_owned()).message(),
        "collector error: boom"
    );
}

#[test]
fn collect_errors() {
    let e = CollectError::Unavailable {
        reason: "no module".to_owned(),
    };
    assert_eq!(e.message(), "subsystem unavailable: no module");
    assert_eq!(
        CollectError::DumpIntr.message(),
        "netlink dump interrupted: max restarts exceeded"
    );
    assert_eq!(
        CollectError::RecvBufOverflow.message(),
        "netlink receive buffer overflow (ENOBUFS)"
    );
    assert_eq!(CollectError::Parse("x".to_owned()).message(), "parse error: x");
    assert_eq!(
        CollectError::Timeout { millis: 30_000 }.message(),
        "scrape timeout after 30000ms"
    );
    assert_eq!(
        CollectError::Io("x".to_owned()).message(),
        "netlink socket I/O error: x"
    );
}

#[test]
fn transport_errors() {
    assert_eq!(
        TransportError::Open("x".to_owned()).message(),
        "netlink socket open failed: x"
    );
    assert_eq!(
        TransportError::DumpIntr.message(),
        "netlink dump interrupted (NLM_F_DUMP_INTR); max restarts exceeded"
    );
    assert_eq!(
        TransportError::RecvBufOverflow.message(),
        "netlink receive buffer overflow (ENOBUFS)"
    );
    assert_eq!(TransportError::Recv("x".to_owned()).message(), "recvmsg error: x");
    assert_eq!(TransportError::Send("x".to_owned()).message(), "sendmsg error: x");
    assert_eq!(
        TransportError::NlError { errno: -1 }.message(),
        "netlink error response: errno=-1"
    );
    assert_eq!(
        TransportError::NlError { errno: i32::MIN }.message(),
        "netlink error response: errno=-2147483648"
    );
}

#[test]
fn adapter_errors() {
    assert_eq!(
        RegistryError::Encode("x".to_owned()).message(),
        "OpenMetrics encode error: x"
    );
    assert_eq!(
        RegistryError::LockPoisoned.message(),
        "metric registry lock poisoned"
    );
    assert_eq!(
        HttpAdapterError::Serve("x".to_owned()).message(),
        "HTTP server bind/serve error: x"
    );
    assert_eq!(
        ConfigLoadError::Extract("x".to_owned()).message(),
        "config extraction failed: x"
    );
}
