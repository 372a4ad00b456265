//! Defaults of the configuration.
use netlink_exporter::config::{
    apply_cli, CliArgs, CollectorFlags, ConfigPort, ExporterConfig,
};

/// Every netlink collector is enabled by default: opting out is the operator's
/// choice, not the library's.
#[test]
fn all_collector_flags_default_to_true() {
    let flags = CollectorFlags::default();
    assert!(flags.rtnetlink, "rtnetlink must default to true");
    assert!(
        flags.rtnetlink_extended,
        "rtnetlink_extended must default to true"
    );
    assert!(
        flags.traffic_control,
        "traffic_control must default to true"
    );
    assert!(flags.conntrack, "conntrack must default to true");
    assert!(
        flags.conntrack_expect,
        "conntrack_expect must default to true"
    );
    assert!(flags.nftables, "nftables must default to true");
    assert!(flags.sock_diag, "sock_diag must default to true");
    assert!(flags.ethtool, "ethtool must default to true");
    assert!(flags.ipvs, "ipvs must default to true");
    assert!(flags.wireguard, "wireguard must default to true");
    assert!(flags.devlink, "devlink must default to true");
    assert!(flags.drop_monitor, "drop_monitor must default to true");
    assert!(flags.xfrm, "xfrm must default to true");
}

/// procfs/sysfs collectors break the native-API-only default, so
/// they must ship **disabled** — the operator opts in explicitly.
#[test]
fn procfs_collectors_default_to_false() {
    let flags = CollectorFlags::default();
    assert!(
        !flags.softnet,
        "softnet (procfs) must default to false (opt-in)"
    );
}

fn args(listen_addr: Option<&str>, log_level: &str) -> CliArgs {
    CliArgs {
        config: "nft_exporter.toml".to_owned(),
        listen_addr: listen_addr.map(str::to_owned),
        log_level: log_level.to_owned(),
    }
}

#[test]
fn default_configuration() {
    let c = ExporterConfig::default();
    assert_eq!(c.listen_addr(), "0.0.0.0:9456");
    assert_eq!(c.scrape_timeout_ms(), 30_000);
    assert_eq!(c.netlink_dump_max_restarts, 8);
    assert_eq!(c.log_level, "info");
    assert_eq!(c.interface_include_regex, None);
    assert_eq!(c.interface_exclude_regex, None);
    assert_eq!(c.wireguard_max_peers, 1_000);
    assert_eq!(c.collectors, CollectorFlags::default());
}

#[test]
fn flags_are_looked_up_by_name() {
    let mut c = ExporterConfig::default();
    let names = [
        "rtnetlink",
        "rtnetlink_extended",
        "traffic_control",
        "conntrack",
        "conntrack_expect",
        "nftables",
        "sock_diag",
        "ethtool",
        "ipvs",
        "wireguard",
        "devlink",
        "drop_monitor",
        "xfrm",
    ];
    for name in names {
        assert!(c.collector_enabled(name), "{name}");
    }
    assert!(!c.collector_enabled("softnet"));
    assert!(!c.collector_enabled("no_such_collector"));
    c.collectors.ipvs = false;
    c.collectors.softnet = true;
    assert!(!c.collector_enabled("ipvs"));
    assert!(c.collector_enabled("softnet"));
}

/// The command line wins over every other source.
#[test]
fn command_line_overrides() {
    let mut config = ExporterConfig::default();
    config.listen_addr = "from:env".to_owned();
    config.log_level = "warn".to_owned();
    let c = apply_cli(config.clone(), &args(Some("127.0.0.1:1"), "debug"));
    assert_eq!(c.listen_addr, "127.0.0.1:1");
    assert_eq!(c.log_level, "debug");
    let c = apply_cli(config, &args(None, "info"));
    assert_eq!(c.listen_addr, "from:env");
    assert_eq!(c.log_level, "warn", "the default level overrides nothing");
}
