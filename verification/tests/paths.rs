//! Which paths may be read.
use netlink_exporter::procfs::paths::{path_allowed, sorted_names};

#[test]
fn safe_read_rejects_non_allowlisted_path() {
    assert!(!path_allowed("/etc/passwd"));
}

#[test]
fn safe_read_rejects_traversal() {
    assert!(!path_allowed("/proc/net/../../etc/passwd"));
}

#[test]
fn allowlist_matches_root_and_children_at_boundary() {
    // Base roots (enumerated by the sysfs collectors) must be allowed.
    assert!(path_allowed("/sys/class/net"));
    assert!(path_allowed("/proc/irq"));
    // Children are allowed.
    assert!(path_allowed(
        "/sys/class/net/dx6p0/device/current_link_speed"
    ));
    assert!(path_allowed("/proc/net/snmp"));
    // Leaf pseudo-files allowed exactly.
    assert!(path_allowed("/proc/softirqs"));
    // A sibling that merely shares a textual prefix must NOT match (boundary).
    assert!(!path_allowed("/sys/class/network_fake"));
    assert!(!path_allowed("/proc/network"));
    // Traversal and unrelated paths rejected.
    assert!(!path_allowed("/etc/passwd"));
    assert!(!path_allowed("/sys/class/net/../../../etc/shadow"));
}

#[test]
fn safe_read_allows_allowlisted_prefixes() {
    for p in [
        "/proc/net/softnet_stat",
        "/proc/softirqs",
        "/proc/interrupts",
        "/sys/class/net/eth0/device/numa_node",
    ] {
        assert!(path_allowed(p), "allowlisted path {p} must not be denied by the allowlist");
    }
}

/// Only a component that is `..` steps up; dots inside a name do not.
#[test]
fn dots_inside_a_name_are_allowed() {
    assert!(path_allowed("/proc/net/a..b"));
    assert!(path_allowed("/proc/net/..a"));
    assert!(path_allowed("/proc/net/a.."));
    assert!(path_allowed("/proc/net/..."));
    assert!(!path_allowed("/proc/net/.."));
    assert!(!path_allowed("/proc/net/../x"));
    assert!(!path_allowed("../proc/net"));
    assert!(!path_allowed(".."));
}

#[test]
fn names_are_sorted() {
    let names = |list: &[&str]| -> Vec<String> { list.iter().map(|s| (*s).to_owned()).collect() };
    let given = names(&["wlan0", "eth10", "eth1", "Eth0", "\u{e9}", "eth1", ""]);
    let mut expected = given.clone();
    expected.sort();
    assert_eq!(sorted_names(given), expected);
    assert_eq!(
        expected,
        names(&["", "Eth0", "eth1", "eth1", "eth10", "wlan0", "\u{e9}"])
    );
    assert_eq!(sorted_names(vec![]), names(&[]));
}
