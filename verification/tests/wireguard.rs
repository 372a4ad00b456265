//! WireGuard devices and peers.
use netlink_exporter::collectors::wireguard::{
    build_device_request, cap_peers, parse_device, parse_devices, parse_peer, pubkey_hash,
    WGDEVICE_A_FWMARK, WGDEVICE_A_IFNAME, WGDEVICE_A_LISTEN_PORT, WGDEVICE_A_PEERS, WGDEVICE_A_PRIVATE_KEY,
    WGPEER_A_ENDPOINT, WGPEER_A_LAST_HANDSHAKE_TIME, WGPEER_A_PERSISTENT_KEEPALIVE_INTERVAL,
    WGPEER_A_PRESHARED_KEY, WGPEER_A_PUBLIC_KEY, WGPEER_A_RX_BYTES, WGPEER_A_TX_BYTES,
    WireguardCollector,
};
use netlink_exporter::labels::Labels;
use netlink_exporter::metric::{GaugeValue, MetricValue};
use netlink_exporter::wire::push_nlattr;

const NOW: i64 = 1_700_000_100;

fn timespec(secs: u64) -> Vec<u8> {
    let mut v = secs.to_ne_bytes().to_vec();
    v.extend_from_slice(&[0; 8]);
    v
}

fn peer(key: &[u8], handshake: u64) -> Vec<u8> {
    let mut b = Vec::new();
    push_nlattr(&mut b, WGPEER_A_PUBLIC_KEY, key);
    push_nlattr(&mut b, WGPEER_A_RX_BYTES, &1000u64.to_ne_bytes());
    push_nlattr(&mut b, WGPEER_A_TX_BYTES, &2000u64.to_ne_bytes());
    push_nlattr(&mut b, WGPEER_A_LAST_HANDSHAKE_TIME, &timespec(handshake));
    push_nlattr(&mut b, WGPEER_A_PERSISTENT_KEEPALIVE_INTERVAL, &25u16.to_ne_bytes());
    b
}

fn device(name: &[u8], peers: &[Vec<u8>]) -> Vec<u8> {
    let mut list = Vec::new();
    for p in peers {
        push_nlattr(&mut list, 0x8000, p);
    }
    let mut b = Vec::new();
    push_nlattr(&mut b, WGDEVICE_A_IFNAME, name);
    push_nlattr(&mut b, WGDEVICE_A_LISTEN_PORT, &51_820u16.to_ne_bytes());
    push_nlattr(&mut b, WGDEVICE_A_FWMARK, &7u32.to_ne_bytes());
    push_nlattr(&mut b, WGDEVICE_A_PEERS | 0x8000, &list);
    b
}

fn frame(body: &[u8]) -> Vec<u8> {
    let mut f = vec![0, 1, 0, 0];
    f.extend_from_slice(body);
    f
}

#[test]
fn request_is_a_bare_header() {
    assert_eq!(build_device_request(), vec![0, 1, 0, 0]);
}

/// The identifier is the hash of the whole key, in 16 digits.
#[test]
fn hash_of_known_keys() {
    assert_eq!(pubkey_hash(b""), "cbf29ce484222325");
    assert_eq!(pubkey_hash(b"a"), "af63dc4c8601ec8c");
    assert_eq!(pubkey_hash(b"foobar"), "85944171f73967e8");
}

#[test]
fn peer_fields() {
    let p = parse_peer(&peer(b"a", 1_700_000_000), NOW).unwrap();
    assert_eq!(p.peer_id, "af63dc4c8601ec8c");
    assert_eq!(p.rx_bytes, 1000);
    assert_eq!(p.tx_bytes, 2000);
    assert_eq!(p.last_handshake_secs, Some(100));
    assert_eq!(p.persistent_keepalive_secs, 25);
    assert!(!p.endpoint_present);
}

#[test]
fn handshake_never_or_in_the_future() {
    assert_eq!(parse_peer(&peer(b"a", 0), NOW).unwrap().last_handshake_secs, None);
    assert_eq!(
        parse_peer(&peer(b"a", u64::MAX), NOW).unwrap().last_handshake_secs,
        Some(0)
    );
}

#[test]
fn peer_without_key_is_skipped() {
    let mut b = Vec::new();
    push_nlattr(&mut b, WGPEER_A_RX_BYTES, &1u64.to_ne_bytes());
    assert!(parse_peer(&b, NOW).is_none());
}

/// Of an endpoint only the presence is kept, whatever its address.
#[test]
fn endpoint_presence() {
    let mut a = peer(b"a", 0);
    push_nlattr(&mut a, WGPEER_A_ENDPOINT, &[2, 0, 1, 2]);
    let mut b = peer(b"a", 0);
    push_nlattr(&mut b, WGPEER_A_ENDPOINT, &[10, 0, 9, 9]);
    let (pa, pb) = (parse_peer(&a, NOW).unwrap(), parse_peer(&b, NOW).unwrap());
    assert!(pa.endpoint_present);
    assert_eq!(pa, pb);
}

/// Keys other than the public one leave no trace.
#[test]
fn secret_keys_are_dropped() {
    let mut b = peer(b"a", 5);
    push_nlattr(&mut b, WGPEER_A_PRESHARED_KEY, &[0x5a; 32]);
    assert_eq!(parse_peer(&b, NOW), parse_peer(&peer(b"a", 5), NOW));
    let plain = device(b"wg0\0", &[]);
    let mut secret = plain.clone();
    push_nlattr(&mut secret, WGDEVICE_A_PRIVATE_KEY, &[0x5a; 32]);
    assert_eq!(parse_device(&secret, NOW), parse_device(&plain, NOW));
}

#[test]
fn device_fields() {
    let d = parse_device(&device(b"wg0\0", &[peer(b"a", 0), peer(b"foobar", 0)]), NOW).unwrap();
    assert_eq!(d.if_name, "wg0");
    assert_eq!(d.listen_port, 51_820);
    assert_eq!(d.fwmark, 7);
    let ids: Vec<&str> = d.peers.iter().map(|p| p.peer_id.as_str()).collect();
    assert_eq!(ids, vec!["af63dc4c8601ec8c", "85944171f73967e8"]);
}

#[test]
fn frames_without_name_or_header_are_skipped() {
    let frames = vec![vec![0, 1], frame(&device(b"\0", &[])), frame(&device(b"wg1\0", &[]))];
    let devices = parse_devices(&frames, NOW);
    assert_eq!(devices.len(), 1);
    assert_eq!(devices[0].if_name, "wg1");
}

/// Bytes that are no UTF-8 become replacement characters.
#[test]
fn invalid_name_is_read_with_replacements() {
    let d = parse_device(&device(b"wg\xff\0", &[]), NOW).unwrap();
    assert_eq!(d.if_name, "wg\u{fffd}");
}

#[test]
fn samples_of_a_device() {
    let body = device(b"wg0\0", &[peer(b"a", 1_700_000_000), peer(b"foobar", 0)]);
    let out = WireguardCollector.collect(&[frame(&body)], NOW, 1000);
    assert_eq!(out.len(), 9);
    assert_eq!(out[0].name, "nft_wireguard_device_info");
    assert_eq!(
        out[0].labels,
        Labels::new().with("interface", "wg0").with("listen_port", "51820").with("fwmark", "7")
    );
    assert_eq!(out[1].value, MetricValue::U64(1000));
    assert_eq!(out[2].value, MetricValue::U64(2000));
    assert_eq!(out[3].name, "nft_wireguard_peer_last_handshake_seconds");
    assert_eq!(out[3].value, MetricValue::F64(GaugeValue::Whole(100)));
    assert_eq!(out[4].value, MetricValue::F64(GaugeValue::Whole(25)));
    assert_eq!(out[7].value, MetricValue::F64(GaugeValue::Infinite));
    assert_eq!(
        out[5].labels,
        Labels::new().with("interface", "wg0").with("peer", "85944171f73967e8")
    );
    assert_eq!(WireguardCollector.name(), "wireguard");
}

/// At most the given number of peers is exported for each device.
#[test]
fn peers_are_capped() {
    let frames = vec![
        frame(&device(b"wg0\0", &[peer(b"a", 0), peer(b"b", 0), peer(b"foobar", 0)])),
        frame(&device(b"wg1\0", &[peer(b"c", 0)])),
    ];
    assert_eq!(WireguardCollector.collect(&frames, NOW, 1000).len(), 2 + 4 * 4);
    assert_eq!(WireguardCollector.collect(&frames, NOW, 2).len(), 2 + 4 * 3);
    assert_eq!(WireguardCollector.collect(&frames, NOW, 0).len(), 2);
    let dev = parse_device(&device(b"wg0\0", &[peer(b"a", 0), peer(b"foobar", 0)]), NOW).unwrap();
    let kept = cap_peers(dev.clone(), 1);
    assert_eq!(kept.peers, dev.peers[..1]);
    assert_eq!(kept.if_name, "wg0");
    assert_eq!((kept.listen_port, kept.fwmark), (51_820, 7));
    assert_eq!(cap_peers(dev.clone(), 2), dev);
}

/// Devices that differ only in private and preshared keys are read alike.
#[test]
fn keys_of_a_device_are_dropped() {
    let with_keys = |key: u8| {
        let mut first = peer(b"a", 5);
        push_nlattr(&mut first, WGPEER_A_PRESHARED_KEY, &[key; 32]);
        let mut b = device(b"wg0\0", &[first, peer(b"foobar", 6)]);
        push_nlattr(&mut b, WGDEVICE_A_PRIVATE_KEY, &[key; 32]);
        b
    };
    let plain = device(b"wg0\0", &[peer(b"a", 5), peer(b"foobar", 6)]);
    assert_ne!(with_keys(0x5a), with_keys(0xa5));
    assert_eq!(parse_device(&with_keys(0x5a), NOW), parse_device(&with_keys(0xa5), NOW));
    assert_eq!(parse_device(&with_keys(0x5a), NOW), parse_device(&plain, NOW));
}
