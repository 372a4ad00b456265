//! Configuration of the exporter.
use crate::text::str_eq;
use vstd::prelude::*;

verus! {

/// Command-line arguments.
#[derive(Clone, Debug)]
pub struct CliArgs {
    /// Path to the TOML configuration file.
    pub config: String,
    /// Overrides the HTTP listen address of every other source.
    pub listen_addr: Option<String>,
    /// Log level (`trace`, `debug`, `info`, `warn`, `error`).
    pub log_level: String,
}

/// Which collectors are enabled.  Disabled collectors produce no series.
#[derive(Clone, Copy, Debug, PartialEq, Eq, Structural)]
pub struct CollectorFlags {
    /// Links, addresses, routes and neighbours.
    pub rtnetlink: bool,
    /// Extended link statistics, bridge FDB, FIB rules and nexthop objects.
    pub rtnetlink_extended: bool,
    /// Queueing disciplines, classes and filters.
    pub traffic_control: bool,
    /// Connection tracking.
    pub conntrack: bool,
    /// Connection tracking expectations.
    pub conntrack_expect: bool,
    /// nftables.
    pub nftables: bool,
    /// Socket diagnostics.
    pub sock_diag: bool,
    /// Ethtool statistics.
    pub ethtool: bool,
    /// IPVS.
    pub ipvs: bool,
    /// WireGuard.
    pub wireguard: bool,
    /// Devlink.
    pub devlink: bool,
    /// Drop monitor.
    pub drop_monitor: bool,
    /// XFRM.
    pub xfrm: bool,
    /// Per-CPU softirq receive health; reads procfs and is off by default.
    pub softnet: bool,
}

/// Every netlink collector enabled, and the procfs collector disabled.
pub open spec fn default_flags() -> CollectorFlags {
    CollectorFlags {
        rtnetlink: true,
        rtnetlink_extended: true,
        traffic_control: true,
        conntrack: true,
        conntrack_expect: true,
        nftables: true,
        sock_diag: true,
        ethtool: true,
        ipvs: true,
        wireguard: true,
        devlink: true,
        drop_monitor: true,
        xfrm: true,
        softnet: false,
    }
}

impl Default for CollectorFlags {
    /// All netlink collectors are enabled: whether a subsystem is there is
    /// found out at run time.  The procfs collector must be asked for.
    fn default() -> (r: Self)
        ensures
            r == default_flags(),
    {
        CollectorFlags {
            rtnetlink: true,
            rtnetlink_extended: true,
            traffic_control: true,
            conntrack: true,
            conntrack_expect: true,
            nftables: true,
            sock_diag: true,
            ethtool: true,
            ipvs: true,
            wireguard: true,
            devlink: true,
            drop_monitor: true,
            xfrm: true,
            softnet: false,
        }
    }
}

/// Full configuration of the exporter.
#[derive(Clone, Debug)]
pub struct ExporterConfig {
    /// HTTP listen address.
    pub listen_addr: String,
    /// Scrape timeout in milliseconds, per collector.
    pub scrape_timeout_ms: u64,
    /// Number of dump restarts before a stale snapshot is served.
    pub netlink_dump_max_restarts: u32,
    /// Log level.
    pub log_level: String,
    /// Optional regex of interface names to take (all if `None`).
    pub interface_include_regex: Option<String>,
    /// Optional regex of interface names to leave out (none if `None`).
    pub interface_exclude_regex: Option<String>,
    /// Most WireGuard peers to export per interface.
    pub wireguard_max_peers: usize,
    /// Enabled collectors.
    pub collectors: CollectorFlags,
}

impl Default for ExporterConfig {
    fn default() -> (r: Self)
        ensures
            r.listen_addr@ == "0.0.0.0:9456"@,
            r.scrape_timeout_ms == 30_000,
            r.netlink_dump_max_restarts == 8,
            r.log_level@ == "info"@,
            r.interface_include_regex is None,
            r.interface_exclude_regex is None,
            r.wireguard_max_peers == 1_000,
            r.collectors == default_flags(),
    {
        ExporterConfig {
            listen_addr: "0.0.0.0:9456".to_owned(),
            scrape_timeout_ms: 30_000,
            netlink_dump_max_restarts: 8,
            log_level: "info".to_owned(),
            interface_include_regex: None,
            interface_exclude_regex: None,
            wireguard_max_peers: 1_000,
            collectors: CollectorFlags::default(),
        }
    }
}

/// Whether the flag named `name` is set; an unknown name is not enabled.
pub open spec fn flag_set(flags: CollectorFlags, name: Seq<char>) -> bool {
    if name == "rtnetlink"@ {
        flags.rtnetlink
    } else if name == "rtnetlink_extended"@ {
        flags.rtnetlink_extended
    } else if name == "traffic_control"@ {
        flags.traffic_control
    } else if name == "conntrack"@ {
        flags.conntrack
    } else if name == "conntrack_expect"@ {
        flags.conntrack_expect
    } else if name == "nftables"@ {
        flags.nftables
    } else if name == "sock_diag"@ {
        flags.sock_diag
    } else if name == "ethtool"@ {
        flags.ethtool
    } else if name == "ipvs"@ {
        flags.ipvs
    } else if name == "wireguard"@ {
        flags.wireguard
    } else if name == "devlink"@ {
        flags.devlink
    } else if name == "drop_monitor"@ {
        flags.drop_monitor
    } else if name == "xfrm"@ {
        flags.xfrm
    } else if name == "softnet"@ {
        flags.softnet
    } else {
        false
    }
}

/// Access to the configuration at run time.
pub trait ConfigPort {
    /// The timeout as a number.
    spec fn timeout(&self) -> u64;

    /// The listen address as text.
    spec fn address(&self) -> Seq<char>;

    /// The flags of the collectors.
    spec fn flags(&self) -> CollectorFlags;

    /// Scrape timeout in milliseconds.
    fn scrape_timeout_ms(&self) -> (r: u64)
        ensures
            r == self.timeout(),
    ;

    /// HTTP listen address.
    fn listen_addr(&self) -> (r: &str)
        ensures
            r@ == self.address(),
    ;

    /// Whether the named collector is enabled.
    fn collector_enabled(&self, name: &str) -> (r: bool)
        ensures
            r == flag_set(self.flags(), name@),
    ;
}

impl ConfigPort for ExporterConfig {
    open spec fn timeout(&self) -> u64 {
        self.scrape_timeout_ms
    }

    open spec fn address(&self) -> Seq<char> {
        self.listen_addr@
    }

    open spec fn flags(&self) -> CollectorFlags {
        self.collectors
    }

    fn scrape_timeout_ms(&self) -> (r: u64) {
        self.scrape_timeout_ms
    }

    fn listen_addr(&self) -> (r: &str) {
        self.listen_addr.as_str()
    }

    fn collector_enabled(&self, name: &str) -> (r: bool) {
        if str_eq(name, "rtnetlink") {
            self.collectors.rtnetlink
        } else if str_eq(name, "rtnetlink_extended") {
            self.collectors.rtnetlink_extended
        } else if str_eq(name, "traffic_control") {
            self.collectors.traffic_control
        } else if str_eq(name, "conntrack") {
            self.collectors.conntrack
        } else if str_eq(name, "conntrack_expect") {
            self.collectors.conntrack_expect
        } else if str_eq(name, "nftables") {
            self.collectors.nftables
        } else if str_eq(name, "sock_diag") {
            self.collectors.sock_diag
        } else if str_eq(name, "ethtool") {
            self.collectors.ethtool
        } else if str_eq(name, "ipvs") {
            self.collectors.ipvs
        } else if str_eq(name, "wireguard") {
            self.collectors.wireguard
        } else if str_eq(name, "devlink") {
            self.collectors.devlink
        } else if str_eq(name, "drop_monitor") {
            self.collectors.drop_monitor
        } else if str_eq(name, "xfrm") {
            self.collectors.xfrm
        } else if str_eq(name, "softnet") {
            self.collectors.softnet
        } else {
            false
        }
    }
}

/// Applies command-line arguments to the configuration merged from defaults,
/// file and environment.
///
/// A listen address on the command line wins over every other source.  The log
/// level does so only when it differs from its default.
pub fn apply_cli(config: ExporterConfig, args: &CliArgs) -> (r: ExporterConfig)
    ensures
        r.listen_addr@ == (match args.listen_addr {
            Some(addr) => addr@,
            None => config.listen_addr@,
        }),
        r.log_level@ == (if args.log_level@ != "info"@ {
            args.log_level@
        } else {
            config.log_level@
        }),
        r.scrape_timeout_ms == config.scrape_timeout_ms,
        r.netlink_dump_max_restarts == config.netlink_dump_max_restarts,
        r.interface_include_regex == config.interface_include_regex,
        r.interface_exclude_regex == config.interface_exclude_regex,
        r.wireguard_max_peers == config.wireguard_max_peers,
        r.collectors == config.collectors,
{
    let mut r = config;
    if let Some(addr) = &args.listen_addr {
        r.listen_addr = addr.clone();
    }
    if !str_eq(args.log_level.as_str(), "info") {
        r.log_level = args.log_level.clone();
    }
    r
}

/// Every flag answers to its own name.
pub proof fn law_flags_named(flags: CollectorFlags)
    ensures
        flag_set(flags, "rtnetlink"@) == flags.rtnetlink,
        flag_set(flags, "rtnetlink_extended"@) == flags.rtnetlink_extended,
        flag_set(flags, "traffic_control"@) == flags.traffic_control,
        flag_set(flags, "conntrack"@) == flags.conntrack,
        flag_set(flags, "conntrack_expect"@) == flags.conntrack_expect,
        flag_set(flags, "nftables"@) == flags.nftables,
        flag_set(flags, "sock_diag"@) == flags.sock_diag,
        flag_set(flags, "ethtool"@) == flags.ethtool,
        flag_set(flags, "ipvs"@) == flags.ipvs,
        flag_set(flags, "wireguard"@) == flags.wireguard,
        flag_set(flags, "devlink"@) == flags.devlink,
        flag_set(flags, "drop_monitor"@) == flags.drop_monitor,
        flag_set(flags, "xfrm"@) == flags.xfrm,
        flag_set(flags, "softnet"@) == flags.softnet,
{
    reveal_strlit("rtnetlink");
    reveal_strlit("rtnetlink_extended");
    reveal_strlit("traffic_control");
    reveal_strlit("conntrack");
    reveal_strlit("conntrack_expect");
    reveal_strlit("nftables");
    reveal_strlit("sock_diag");
    reveal_strlit("ethtool");
    reveal_strlit("ipvs");
    reveal_strlit("wireguard");
    reveal_strlit("devlink");
    reveal_strlit("drop_monitor");
    reveal_strlit("xfrm");
    reveal_strlit("softnet");
    assert("rtnetlink"@.len() == 9);
    assert("rtnetlink_extended"@.len() == 18);
    assert("traffic_control"@.len() == 15);
    assert("conntrack"@.len() == 9);
    assert("conntrack_expect"@.len() == 16);
    assert("nftables"@.len() == 8);
    assert("sock_diag"@.len() == 9);
    assert("ethtool"@.len() == 7);
    assert("ipvs"@.len() == 4);
    assert("wireguard"@.len() == 9);
    assert("devlink"@.len() == 7);
    assert("drop_monitor"@.len() == 12);
    assert("xfrm"@.len() == 4);
    assert("softnet"@.len() == 7);
    assert("rtnetlink"@[0] == 'r' && "conntrack"@[0] == 'c');
    assert("rtnetlink"@[0] == 'r' && "sock_diag"@[0] == 's');
    assert("rtnetlink"@[0] == 'r' && "wireguard"@[0] == 'w');
    assert("conntrack"@[0] == 'c' && "sock_diag"@[0] == 's');
    assert("conntrack"@[0] == 'c' && "wireguard"@[0] == 'w');
    assert("sock_diag"@[0] == 's' && "wireguard"@[0] == 'w');
    assert("ethtool"@[0] == 'e' && "devlink"@[0] == 'd');
    assert("ethtool"@[0] == 'e' && "softnet"@[0] == 's');
    assert("ipvs"@[0] == 'i' && "xfrm"@[0] == 'x');
    assert("devlink"@[0] == 'd' && "softnet"@[0] == 's');
}

/// By default every collector but one runs.
pub proof fn law_default_flags(name: Seq<char>)
    ensures
        name != "softnet"@ && flag_known(name) ==> flag_set(default_flags(), name),
        !flag_set(default_flags(), "softnet"@),
{
    law_flags_named(default_flags());
}

/// The names of the flags.
pub open spec fn flag_known(name: Seq<char>) -> bool {
    ||| name == "rtnetlink"@
    ||| name == "rtnetlink_extended"@
    ||| name == "traffic_control"@
    ||| name == "conntrack"@
    ||| name == "conntrack_expect"@
    ||| name == "nftables"@
    ||| name == "sock_diag"@
    ||| name == "ethtool"@
    ||| name == "ipvs"@
    ||| name == "wireguard"@
    ||| name == "devlink"@
    ||| name == "drop_monitor"@
    ||| name == "xfrm"@
    ||| name == "softnet"@
}

} // verus!
