//! Presentation form of addresses.
use netlink_exporter::address::{addr_to_str, AF_INET, AF_INET6};

fn v6(groups: [u16; 8]) -> String {
    let mut b = Vec::new();
    for g in groups {
        b.extend_from_slice(&g.to_be_bytes());
    }
    addr_to_str(AF_INET6, &b)
}

#[test]
fn ipv4_is_dotted_decimal() {
    assert_eq!(addr_to_str(AF_INET, &[192, 0, 2, 1]), "192.0.2.1");
    assert_eq!(addr_to_str(AF_INET, &[0, 0, 0, 0]), "0.0.0.0");
    // Octets beyond the fourth do not count.
    assert_eq!(addr_to_str(AF_INET, &[10, 0, 0, 255, 9, 9]), "10.0.0.255");
}

#[test]
fn ipv6_zero_run_is_shortened() {
    assert_eq!(v6([0, 0, 0, 0, 0, 0, 0, 0]), "::");
    assert_eq!(v6([0, 0, 0, 0, 0, 0, 0, 1]), "::1");
    assert_eq!(v6([0x2001, 0xdb8, 0, 0, 0, 0, 0, 1]), "2001:db8::1");
    assert_eq!(v6([0xfe80, 0, 0, 0, 0, 0, 0, 0]), "fe80::");
}

/// Of two runs the longer one is shortened, of equal ones the left.
#[test]
fn ipv6_longest_leftmost_run() {
    assert_eq!(v6([1, 0, 0, 2, 0, 0, 0, 3]), "1:0:0:2::3");
    assert_eq!(v6([1, 0, 0, 2, 3, 0, 0, 4]), "1::2:3:0:0:4");
}

/// A single zero group is written out.
#[test]
fn ipv6_single_zero_is_kept() {
    assert_eq!(v6([1, 2, 3, 0, 5, 6, 7, 0xabcd]), "1:2:3:0:5:6:7:abcd");
}

#[test]
fn ipv6_embedded_ipv4() {
    assert_eq!(v6([0, 0, 0, 0, 0, 0xffff, 0xc000, 0x0201]), "::ffff:192.0.2.1");
    assert_eq!(v6([0, 0, 0, 0, 0, 0xfffe, 0xc000, 0x0201]), "::fffe:c000:201");
}

#[test]
fn short_or_unknown_addresses_are_empty() {
    assert_eq!(addr_to_str(AF_INET, &[1, 2, 3]), "");
    assert_eq!(addr_to_str(AF_INET6, &[0; 15]), "");
    assert_eq!(addr_to_str(7, &[0; 16]), "");
}
