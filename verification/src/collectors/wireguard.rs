//! WireGuard collector: generic netlink family `wireguard`.
//!
//! Private keys and preshared keys are never stored.  A public key is reduced
//! to a 16-character hash that serves as the label of its peer, and of an
//! endpoint only the presence is kept.
use crate::labels::{no_labels, Labels};
use crate::metric::{
    counter_view, counts, flat, gauge_view, holds, is_counter, is_gauge, law_flat_holds_each,
    law_parsed_holds_each, lemma_holds, lemma_holds_through, model_views, opt_view, parsed,
    push_counter, push_gauge, reads, views, whole, GaugeValue, MetricSample, SampleView,
};
use crate::model::wireguard::{
    WireguardDevice, WireguardDeviceView, WireguardPeer, WireguardPeerView,
};
use crate::text::{
    dec, dec_text, decoded, digits_value, hex_fixed, law_hex_fixed_round_trip, pow16,
    push_hex_fixed, utf8_lossy,
};
use crate::wire::{
    attrs, cut_at_nul, find_last, last_attr, lemma_last_attr_len, nested_attrs, parse_attrs,
    read_u16_or, read_u32_or_zero, read_u64, read_u64_or_zero, u16_ne, u16_or, u32_ne, u32_or_zero,
    u64_ne, u64_or_zero, until_nul, Attr,
};
use vstd::prelude::*;
use vstd::slice::slice_subrange;

verus! {

/// Generic netlink protocol number.
pub const NETLINK_GENERIC: i32 = 16;

/// Command and version of a device request.
pub const WG_CMD_GET_DEVICE: u8 = 0;
pub const WG_GENL_VERSION: u8 = 1;

/// Device attributes.
pub const WGDEVICE_A_IFNAME: u16 = 2;
pub const WGDEVICE_A_PRIVATE_KEY: u16 = 3;
pub const WGDEVICE_A_LISTEN_PORT: u16 = 6;
pub const WGDEVICE_A_FWMARK: u16 = 7;
pub const WGDEVICE_A_PEERS: u16 = 8;

/// Peer attributes.
pub const WGPEER_A_PUBLIC_KEY: u16 = 1;
pub const WGPEER_A_PRESHARED_KEY: u16 = 2;
pub const WGPEER_A_ENDPOINT: u16 = 4;
pub const WGPEER_A_PERSISTENT_KEEPALIVE_INTERVAL: u16 = 5;
pub const WGPEER_A_LAST_HANDSHAKE_TIME: u16 = 6;
pub const WGPEER_A_RX_BYTES: u16 = 7;
pub const WGPEER_A_TX_BYTES: u16 = 8;

/// Parameters of the 64-bit FNV-1a hash.
pub const FNV_OFFSET: u64 = 0xcbf2_9ce4_8422_2325;
pub const FNV_PRIME: u64 = 0x0000_0100_0000_01b3;

/// Builds the request for all devices.
pub fn build_device_request() -> (r: Vec<u8>)
    ensures
        r@ == seq![WG_CMD_GET_DEVICE, WG_GENL_VERSION, 0u8, 0u8],
{
    let mut r: Vec<u8> = Vec::new();
    r.push(WG_CMD_GET_DEVICE);
    r.push(WG_GENL_VERSION);
    r.push(0);
    r.push(0);
    proof {
        assert(r@ =~= seq![WG_CMD_GET_DEVICE, WG_GENL_VERSION, 0u8, 0u8]);
    }
    r
}

// ---------------------------------------------------------------------------
// Peers
// ---------------------------------------------------------------------------

/// The 64-bit FNV-1a hash of `key`.
pub open spec fn fnv1a(key: Seq<u8>) -> u64
    decreases key.len(),
{
    if key.len() == 0 {
        FNV_OFFSET
    } else {
        (((fnv1a(key.drop_last()) ^ (key.last() as u64)) * FNV_PRIME) % 0x1_0000_0000_0000_0000) as u64
    }
}

/// The identifier of a public key: its hash in 16 lower-case hexadecimal digits.
pub open spec fn peer_id(key: Seq<u8>) -> Seq<char> {
    hex_fixed(fnv1a(key) as nat, 16)
}

/// Reduces a public key to a 16-character identifier.
pub fn pubkey_hash(key: &[u8]) -> (r: String)
    ensures
        r@ == peer_id(key@),
{
    let mut h: u64 = FNV_OFFSET;
    let mut i: usize = 0;
    while i < key.len()
        invariant
            i <= key.len(),
            h == fnv1a(key@.take(i as int)),
        decreases key.len() - i,
    {
        proof {
            assert(key@.take(i as int + 1).drop_last() =~= key@.take(i as int));
        }
        h = (h ^ (key[i] as u64)).wrapping_mul(FNV_PRIME);
        i += 1;
    }
    proof {
        assert(key@.take(i as int) =~= key@);
    }
    let mut r = String::new();
    push_hex_fixed(&mut r, h, 16);
    proof {
        assert(r@ =~= peer_id(key@));
    }
    r
}

/// Seconds from `then` to `now`; zero when `then` is not in the past.
pub open spec fn seconds_since(then: u64, now: i64) -> u64 {
    if now > then {
        (now - then) as u64
    } else {
        0
    }
}

/// The seconds since the last handshake; none when there never was one.
pub open spec fn handshake_age(a: Seq<Attr>, now: i64) -> Option<u64> {
    match last_attr(a, WGPEER_A_LAST_HANDSHAKE_TIME, 8) {
        Some(p) if u64_ne(p) != 0 => Some(seconds_since(u64_ne(p), now)),
        _ => None,
    }
}

/// The peer that attributes describe, if they hold a public key.
pub open spec fn peer_of(a: Seq<Attr>, now: i64) -> Option<WireguardPeerView> {
    match last_attr(a, WGPEER_A_PUBLIC_KEY, 0) {
        Some(key) => Some(
            WireguardPeerView {
                peer_id: peer_id(key),
                rx_bytes: u64_or_zero(last_attr(a, WGPEER_A_RX_BYTES, 0)),
                tx_bytes: u64_or_zero(last_attr(a, WGPEER_A_TX_BYTES, 0)),
                last_handshake_secs: handshake_age(a, now),
                persistent_keepalive_secs: u16_or(last_attr(a, WGPEER_A_PERSISTENT_KEEPALIVE_INTERVAL, 0), 0),
                endpoint_present: last_attr(a, WGPEER_A_ENDPOINT, 0) is Some,
            },
        ),
        None => None,
    }
}

fn read_handshake_age(buf: &[u8], now: i64) -> (r: Option<u64>)
    ensures
        r == handshake_age(attrs(buf@), now),
{
    proof {
        lemma_last_attr_len(attrs(buf@), WGPEER_A_LAST_HANDSHAKE_TIME, 8);
    }
    match find_last(buf, WGPEER_A_LAST_HANDSHAKE_TIME, 8) {
        Some(p) => {
            let then: u64 = read_u64(p).unwrap_or(0);
            if then == 0 {
                None
            } else if now > 0 && now as u64 > then {
                Some(now as u64 - then)
            } else {
                Some(0)
            }
        },
        None => None,
    }
}

/// Parses the attributes of one peer at the time `now_secs`, in seconds since
/// the epoch; `None` without a public key.
pub fn parse_peer(attrs_buf: &[u8], now_secs: i64) -> (r: Option<WireguardPeer>)
    ensures
        opt_view(r) == peer_of(attrs(attrs_buf@), now_secs),
{
    match find_last(attrs_buf, WGPEER_A_PUBLIC_KEY, 0) {
        None => None,
        Some(key) => {
            let endpoint_present = find_last(attrs_buf, WGPEER_A_ENDPOINT, 0).is_some();
            Some(
                WireguardPeer {
                    peer_id: pubkey_hash(key),
                    rx_bytes: read_u64_or_zero(attrs_buf, WGPEER_A_RX_BYTES),
                    tx_bytes: read_u64_or_zero(attrs_buf, WGPEER_A_TX_BYTES),
                    last_handshake_secs: read_handshake_age(attrs_buf, now_secs),
                    persistent_keepalive_secs: read_u16_or(attrs_buf, WGPEER_A_PERSISTENT_KEEPALIVE_INTERVAL, 0),
                    endpoint_present,
                },
            )
        },
    }
}

// ---------------------------------------------------------------------------
// Devices
// ---------------------------------------------------------------------------

/// The peers in a list of containers.
pub open spec fn contained_peers(containers: Seq<Attr>, now: i64) -> Seq<WireguardPeerView>
    decreases containers.len(),
{
    if containers.len() == 0 {
        seq![]
    } else {
        let rest = contained_peers(containers.drop_last(), now);
        match peer_of(attrs(containers.last().1), now) {
            Some(peer) => rest.push(peer),
            None => rest,
        }
    }
}

/// The peers in all lists of a device.
pub open spec fn peers_of(a: Seq<Attr>, now: i64) -> Seq<WireguardPeerView>
    decreases a.len(),
{
    if a.len() == 0 {
        seq![]
    } else if a.last().0 == WGDEVICE_A_PEERS {
        peers_of(a.drop_last(), now) + contained_peers(attrs(a.last().1), now)
    } else {
        peers_of(a.drop_last(), now)
    }
}

/// The interface name of a device; empty without one.
pub open spec fn device_name(a: Seq<Attr>) -> Seq<char> {
    match last_attr(a, WGDEVICE_A_IFNAME, 0) {
        Some(p) => decoded(until_nul(p)),
        None => Seq::empty(),
    }
}

/// The attributes hold an interface name that is not empty.
pub open spec fn has_name(a: Seq<Attr>) -> bool {
    match last_attr(a, WGDEVICE_A_IFNAME, 0) {
        Some(p) => until_nul(p).len() > 0,
        None => false,
    }
}

/// The device that attributes describe, if they hold an interface name.
pub open spec fn device_of(a: Seq<Attr>, now: i64) -> Option<WireguardDeviceView> {
    if !has_name(a) {
        None
    } else {
        Some(
            WireguardDeviceView {
                if_name: device_name(a),
                listen_port: u16_or(last_attr(a, WGDEVICE_A_LISTEN_PORT, 0), 0),
                fwmark: u32_or_zero(last_attr(a, WGDEVICE_A_FWMARK, 0)),
                peers: peers_of(a, now),
            },
        )
    }
}

fn push_contained(list: &[u8], now: i64, peers: &mut Vec<WireguardPeer>)
    ensures
        model_views(final(peers)@) == model_views(old(peers)@) + contained_peers(attrs(list@), now),
{
    let ghost start = model_views(peers@);
    let mut it = nested_attrs(list);
    let ghost mut done: Seq<Attr> = seq![];
    proof {
        assert(done + it.remaining() =~= attrs(list@));
        assert(start + contained_peers(done, now) =~= start);
    }
    loop
        invariant
            done + it.remaining() == attrs(list@),
            model_views(peers@) == start + contained_peers(done, now),
        ensures
            model_views(peers@) == start + contained_peers(attrs(list@), now),
        decreases it.remaining().len(),
    {
        let ghost rest = it.remaining();
        match it.next() {
            Some(nla) => {
                let ghost earlier = peers@;
                proof {
                    assert(done.push(nla.attr()) + it.remaining() =~= done + rest);
                    assert(done.push(nla.attr()).drop_last() =~= done);
                }
                if let Some(peer) = parse_peer(nla.payload, now) {
                    peers.push(peer);
                    proof {
                        assert(model_views(peers@) =~= model_views(earlier).push(peer@));
                        assert(start + contained_peers(done, now).push(peer@) =~= (start
                            + contained_peers(done, now)).push(peer@));
                    }
                }
                proof {
                    done = done.push(nla.attr());
                }
            },
            None => {
                proof {
                    assert(done + it.remaining() =~= done);
                }
                break;
            },
        }
    }
}

fn read_peers(buf: &[u8], now: i64) -> (r: Vec<WireguardPeer>)
    ensures
        model_views(r@) == peers_of(attrs(buf@), now),
{
    let mut peers: Vec<WireguardPeer> = Vec::new();
    let mut it = parse_attrs(buf);
    let ghost mut done: Seq<Attr> = seq![];
    proof {
        assert(done + it.remaining() =~= attrs(buf@));
        assert(model_views(peers@) =~= peers_of(done, now));
    }
    loop
        invariant
            done + it.remaining() == attrs(buf@),
            model_views(peers@) == peers_of(done, now),
        ensures
            model_views(peers@) == peers_of(attrs(buf@), now),
        decreases it.remaining().len(),
    {
        let ghost rest = it.remaining();
        match it.next() {
            Some(nla) => {
                proof {
                    assert(done.push(nla.attr()) + it.remaining() =~= done + rest);
                    assert(done.push(nla.attr()).drop_last() =~= done);
                    done = done.push(nla.attr());
                }
                if nla.ty == WGDEVICE_A_PEERS {
                    push_contained(nla.payload, now, &mut peers);
                }
            },
            None => {
                proof {
                    assert(done + it.remaining() =~= done);
                }
                break;
            },
        }
    }
    peers
}

/// Parses the attributes of one device at the time `now_secs`; `None` without
/// an interface name.
pub fn parse_device(attrs_buf: &[u8], now_secs: i64) -> (r: Option<WireguardDevice>)
    ensures
        opt_view(r) == device_of(attrs(attrs_buf@), now_secs),
{
    let if_name = match find_last(attrs_buf, WGDEVICE_A_IFNAME, 0) {
        Some(p) => utf8_lossy(cut_at_nul(p)),
        None => String::new(),
    };
    if if_name.as_str().is_empty() {
        return None;
    }
    let peers = read_peers(attrs_buf, now_secs);
    proof {
        assert(model_views(peers@) =~= peers@.map_values(|p: WireguardPeer| p@));
    }
    Some(
        WireguardDevice {
            if_name,
            listen_port: read_u16_or(attrs_buf, WGDEVICE_A_LISTEN_PORT, 0),
            fwmark: read_u32_or_zero(attrs_buf, WGDEVICE_A_FWMARK),
            peers,
        },
    )
}

/// What a whole frame describes: its attributes follow a 4-byte header.
pub open spec fn device_parser(now: i64) -> spec_fn(Seq<u8>) -> Option<WireguardDeviceView> {
    |frame: Seq<u8>|
        if frame.len() < 4 {
            None
        } else {
            device_of(attrs(frame.skip(4)), now)
        }
}

/// Parses the frames of a dump; frames without a header or an interface name
/// are skipped.
pub fn parse_devices(frames: &[Vec<u8>], now_secs: i64) -> (r: Vec<WireguardDevice>)
    ensures
        model_views(r@) == parsed(frames@, device_parser(now_secs)),
{
    let mut r: Vec<WireguardDevice> = Vec::new();
    let mut i: usize = 0;
    proof {
        assert(model_views(r@) =~= parsed(frames@.take(0), device_parser(now_secs)));
    }
    while i < frames.len()
        invariant
            i <= frames.len(),
            model_views(r@) == parsed(frames@.take(i as int), device_parser(now_secs)),
        decreases frames.len() - i,
    {
        let ghost done = r@;
        proof {
            assert(frames@.take(i as int + 1).drop_last() =~= frames@.take(i as int));
        }
        let frame = frames[i].as_slice();
        if frame.len() >= 4 {
            let body = slice_subrange(frame, 4, frame.len());
            proof {
                assert(body@ =~= frame@.skip(4));
            }
            if let Some(dev) = parse_device(body, now_secs) {
                r.push(dev);
                proof {
                    assert(model_views(r@) =~= model_views(done).push(dev@));
                }
            }
        }
        i += 1;
    }
    proof {
        assert(frames@.take(i as int) =~= frames@);
    }
    r
}

// ---------------------------------------------------------------------------
// Samples
// ---------------------------------------------------------------------------

/// The handshake reading of a peer: its age in seconds, infinite when there
/// never was a handshake.
pub open spec fn handshake_value(age: Option<u64>) -> GaugeValue {
    match age {
        Some(secs) => whole(secs as int),
        None => GaugeValue::Infinite,
    }
}

/// The samples of one peer of an interface.
pub open spec fn peer_samples(interface: Seq<char>, peer: WireguardPeerView) -> Seq<SampleView> {
    let labels = no_labels().insert("interface"@, interface).insert("peer"@, peer.peer_id);
    seq![
        counter_view(
            "nft_wireguard_peer_receive_bytes_total"@,
            "WireGuard peer cumulative bytes received."@,
            labels,
            peer.rx_bytes,
        ),
        counter_view(
            "nft_wireguard_peer_transmit_bytes_total"@,
            "WireGuard peer cumulative bytes transmitted."@,
            labels,
            peer.tx_bytes,
        ),
        gauge_view(
            "nft_wireguard_peer_last_handshake_seconds"@,
            "Seconds since last WireGuard handshake; +Inf when never."@,
            labels,
            handshake_value(peer.last_handshake_secs),
        ),
        gauge_view(
            "nft_wireguard_peer_persistent_keepalive_seconds"@,
            "WireGuard peer persistent keepalive interval in seconds; 0 when disabled."@,
            labels,
            whole(peer.persistent_keepalive_secs as int),
        ),
    ]
}

pub open spec fn per_peer(interface: Seq<char>) -> spec_fn(WireguardPeerView) -> Seq<SampleView> {
    |peer: WireguardPeerView| peer_samples(interface, peer)
}

/// The information sample of a device.
pub open spec fn device_info(dev: WireguardDeviceView) -> SampleView {
    gauge_view(
        "nft_wireguard_device_info"@,
        "WireGuard device metadata (listen port and fwmark)."@,
        no_labels().insert("interface"@, dev.if_name).insert(
            "listen_port"@,
            dec(dev.listen_port as nat),
        ).insert("fwmark"@, dec(dev.fwmark as nat)),
        whole(1),
    )
}

/// The samples of one device and its peers.
pub open spec fn device_samples(dev: WireguardDeviceView) -> Seq<SampleView> {
    seq![device_info(dev)] + flat(dev.peers, per_peer(dev.if_name))
}

fn push_peer(out: &mut Vec<MetricSample>, interface: &str, peer: &WireguardPeer)
    ensures
        views(final(out)@) == views(old(out)@) + peer_samples(interface@, peer@),
{
    let ghost start = views(out@);
    let labels = Labels::new().with("interface", interface).with("peer", peer.peer_id.as_str());
    push_counter(
        out,
        "nft_wireguard_peer_receive_bytes_total",
        "WireGuard peer cumulative bytes received.",
        &labels,
        peer.rx_bytes,
    );
    push_counter(
        out,
        "nft_wireguard_peer_transmit_bytes_total",
        "WireGuard peer cumulative bytes transmitted.",
        &labels,
        peer.tx_bytes,
    );
    let age = match peer.last_handshake_secs {
        Some(secs) => GaugeValue::Whole(secs as i128),
        None => GaugeValue::Infinite,
    };
    push_gauge(
        out,
        "nft_wireguard_peer_last_handshake_seconds",
        "Seconds since last WireGuard handshake; +Inf when never.",
        &labels,
        age,
    );
    push_gauge(
        out,
        "nft_wireguard_peer_persistent_keepalive_seconds",
        "WireGuard peer persistent keepalive interval in seconds; 0 when disabled.",
        &labels,
        GaugeValue::Whole(peer.persistent_keepalive_secs as i128),
    );
    proof {
        assert(views(out@) =~= start + peer_samples(interface@, peer@));
    }
}

/// Appends the samples of one device and its peers.
pub fn push_device_metrics(out: &mut Vec<MetricSample>, dev: &WireguardDevice)
    ensures
        views(final(out)@) == views(old(out)@) + device_samples(dev@),
{
    let ghost start = views(out@);
    let ghost f = per_peer(dev.if_name@);
    let labels = Labels::new().with("interface", dev.if_name.as_str()).with(
        "listen_port",
        dec_text(dev.listen_port as u64).as_str(),
    ).with("fwmark", dec_text(dev.fwmark as u64).as_str());
    push_gauge(
        out,
        "nft_wireguard_device_info",
        "WireGuard device metadata (listen port and fwmark).",
        &labels,
        GaugeValue::Whole(1),
    );
    let ghost head = views(out@);
    let mut i: usize = 0;
    proof {
        assert(head =~= start + seq![device_info(dev@)]);
        assert(head + flat(dev@.peers.take(0), f) =~= head);
    }
    while i < dev.peers.len()
        invariant
            i <= dev.peers.len(),
            f == per_peer(dev.if_name@),
            views(out@) == head + flat(dev@.peers.take(i as int), f),
        decreases dev.peers.len() - i,
    {
        push_peer(out, dev.if_name.as_str(), &dev.peers[i]);
        proof {
            let done = dev@.peers.take(i as int);
            let next = dev@.peers.take(i as int + 1);
            assert(next.drop_last() =~= done);
            assert(next.last() == dev.peers@[i as int]@);
            let own = peer_samples(dev.if_name@, dev.peers@[i as int]@);
            assert(head + (flat(done, f) + own) =~= (head + flat(done, f)) + own);
        }
        i += 1;
    }
    proof {
        assert(dev@.peers.take(i as int) =~= dev@.peers);
        assert(views(out@) =~= start + device_samples(dev@));
    }
}

/// A device with its first `max` peers.
pub open spec fn capped(dev: WireguardDeviceView, max: nat) -> WireguardDeviceView {
    WireguardDeviceView {
        peers: if max <= dev.peers.len() {
            dev.peers.take(max as int)
        } else {
            dev.peers
        },
        ..dev
    }
}

/// Leaves out the peers of a device beyond the first `max`.
pub fn cap_peers(dev: WireguardDevice, max: usize) -> (r: WireguardDevice)
    ensures
        r@ == capped(dev@, max as nat),
{
    let mut peers = dev.peers;
    let ghost all = model_views(peers@);
    if max < peers.len() {
        peers.truncate(max);
    }
    let r = WireguardDevice {
        if_name: dev.if_name,
        listen_port: dev.listen_port,
        fwmark: dev.fwmark,
        peers,
    };
    proof {
        assert(r@.peers =~= capped(dev@, max as nat).peers);
    }
    r
}

pub open spec fn per_device(max_peers: nat) -> spec_fn(WireguardDeviceView) -> Seq<SampleView> {
    |dev: WireguardDeviceView| device_samples(capped(dev, max_peers))
}

/// Collector for WireGuard devices and peers.
pub struct WireguardCollector;

impl WireguardCollector {
    /// Name of the collector.
    pub fn name(&self) -> (r: &'static str)
        ensures
            r@ == "wireguard"@,
    {
        "wireguard"
    }

    /// Turns the frames of a dump into samples, at the time `now_secs`, with at
    /// most `max_peers` peers of each device.
    pub fn collect(&self, frames: &[Vec<u8>], now_secs: i64, max_peers: usize) -> (r: Vec<
        MetricSample,
    >)
        ensures
            views(r@) == flat(
                parsed(frames@, device_parser(now_secs)),
                per_device(max_peers as nat),
            ),
    {
        let mut rest = parse_devices(frames, now_secs);
        let ghost f = per_device(max_peers as nat);
        let ghost all = model_views(rest@);
        let mut out: Vec<MetricSample> = Vec::new();
        let ghost mut done: nat = 0;
        proof {
            assert(views(out@) =~= flat(all.take(0), f));
            assert(model_views(rest@) =~= all.skip(0));
        }
        while rest.len() > 0
            invariant
                done + rest@.len() == all.len(),
                model_views(rest@) == all.skip(done as int),
                f == per_device(max_peers as nat),
                views(out@) == flat(all.take(done as int), f),
            decreases rest.len(),
        {
            let ghost left = model_views(rest@);
            let dev = rest.remove(0);
            proof {
                assert(dev@ == left[0]);
                assert(left[0] == all[done as int]);
                assert(all.take(done as int + 1).drop_last() =~= all.take(done as int));
                assert(model_views(rest@) =~= left.skip(1));
                assert(left.skip(1) =~= all.skip(done as int + 1));
                done = done + 1;
            }
            push_device_metrics(&mut out, &cap_peers(dev, max_peers));
        }
        proof {
            assert(all.take(done as int) =~= all);
        }
        out
    }
}

// ---------------------------------------------------------------------------
// Laws
// ---------------------------------------------------------------------------

/// The attributes of `a` that are not of type `ty`.
pub open spec fn without(a: Seq<Attr>, ty: u16) -> Seq<Attr>
    decreases a.len(),
{
    if a.len() == 0 {
        seq![]
    } else if a.last().0 == ty {
        without(a.drop_last(), ty)
    } else {
        without(a.drop_last(), ty).push(a.last())
    }
}

proof fn lemma_without(a: Seq<Attr>, ty: u16, other: u16, min: nat)
    requires
        ty != other,
    ensures
        last_attr(without(a, ty), other, min) == last_attr(a, other, min),
    decreases a.len(),
{
    if a.len() > 0 {
        lemma_without(a.drop_last(), ty, other, min);
        if a.last().0 != ty {
            let rest = without(a.drop_last(), ty);
            assert(rest.push(a.last()).drop_last() =~= rest);
        }
    }
}

proof fn lemma_without_peers(a: Seq<Attr>, ty: u16, now: i64)
    requires
        ty != WGDEVICE_A_PEERS,
    ensures
        peers_of(without(a, ty), now) == peers_of(a, now),
    decreases a.len(),
{
    if a.len() > 0 {
        lemma_without_peers(a.drop_last(), ty, now);
        if a.last().0 != ty {
            let rest = without(a.drop_last(), ty);
            assert(rest.push(a.last()).drop_last() =~= rest);
        }
    }
}

/// The private key of a device is never kept: what is read of a device is the
/// same as if the attribute were not there.
pub proof fn law_private_key_discarded(a: Seq<Attr>, now: i64)
    ensures
        device_of(without(a, WGDEVICE_A_PRIVATE_KEY), now) == device_of(a, now),
{
    lemma_without(a, WGDEVICE_A_PRIVATE_KEY, WGDEVICE_A_IFNAME, 0);
    lemma_without(a, WGDEVICE_A_PRIVATE_KEY, WGDEVICE_A_LISTEN_PORT, 0);
    lemma_without(a, WGDEVICE_A_PRIVATE_KEY, WGDEVICE_A_FWMARK, 0);
    lemma_without_peers(a, WGDEVICE_A_PRIVATE_KEY, now);
}

/// The preshared key of a peer is never kept: what is read of a peer is the
/// same as if the attribute were not there.
pub proof fn law_preshared_key_discarded(a: Seq<Attr>, now: i64)
    ensures
        peer_of(without(a, WGPEER_A_PRESHARED_KEY), now) == peer_of(a, now),
{
    lemma_without(a, WGPEER_A_PRESHARED_KEY, WGPEER_A_PUBLIC_KEY, 0);
    lemma_without(a, WGPEER_A_PRESHARED_KEY, WGPEER_A_RX_BYTES, 0);
    lemma_without(a, WGPEER_A_PRESHARED_KEY, WGPEER_A_TX_BYTES, 0);
    lemma_without(a, WGPEER_A_PRESHARED_KEY, WGPEER_A_LAST_HANDSHAKE_TIME, 8);
    lemma_without(a, WGPEER_A_PRESHARED_KEY, WGPEER_A_PERSISTENT_KEEPALIVE_INTERVAL, 0);
    lemma_without(a, WGPEER_A_PRESHARED_KEY, WGPEER_A_ENDPOINT, 0);
}

/// `a` with the contents of every endpoint taken out.
pub open spec fn endpoints_masked(a: Seq<Attr>) -> Seq<Attr> {
    a.map_values(
        |x: Attr|
            if x.0 == WGPEER_A_ENDPOINT {
                (x.0, seq![])
            } else {
                x
            },
    )
}

proof fn lemma_masked(a: Seq<Attr>, ty: u16, min: nat)
    ensures
        ty != WGPEER_A_ENDPOINT ==> last_attr(endpoints_masked(a), ty, min) == last_attr(a, ty, min),
        last_attr(endpoints_masked(a), WGPEER_A_ENDPOINT, 0) is Some == last_attr(
            a,
            WGPEER_A_ENDPOINT,
            0,
        ) is Some,
    decreases a.len(),
{
    if a.len() > 0 {
        lemma_masked(a.drop_last(), ty, min);
        assert(endpoints_masked(a).drop_last() =~= endpoints_masked(a.drop_last()));
    }
}

/// The address of an endpoint is never kept: what is read of a peer depends on
/// the presence of the endpoint alone.
pub proof fn law_endpoint_address_discarded(a: Seq<Attr>, now: i64)
    ensures
        peer_of(endpoints_masked(a), now) == peer_of(a, now),
{
    lemma_masked(a, WGPEER_A_PUBLIC_KEY, 0);
    lemma_masked(a, WGPEER_A_RX_BYTES, 0);
    lemma_masked(a, WGPEER_A_TX_BYTES, 0);
    lemma_masked(a, WGPEER_A_LAST_HANDSHAKE_TIME, 8);
    lemma_masked(a, WGPEER_A_PERSISTENT_KEEPALIVE_INTERVAL, 0);
}

/// The identifier of a peer has sixteen characters, whatever the key.
pub proof fn law_peer_id_length(key: Seq<u8>)
    ensures
        peer_id(key).len() == 16,
{
    lemma_fixed_len(fnv1a(key) as nat, 16);
}

proof fn lemma_fixed_len(n: nat, width: nat)
    ensures
        hex_fixed(n, width).len() == width,
    decreases width,
{
    if width > 0 {
        lemma_fixed_len(n / 16, (width - 1) as nat);
    }
}

/// Two peer containers differ in their preshared keys at most.
pub open spec fn same_but_preshared(p: Attr, q: Attr) -> bool {
    p.0 == q.0 && without(attrs(p.1), WGPEER_A_PRESHARED_KEY) == without(
        attrs(q.1),
        WGPEER_A_PRESHARED_KEY,
    )
}

/// Two peer lists differ in preshared keys at most.
pub open spec fn same_peer_lists(p: Seq<Attr>, q: Seq<Attr>) -> bool {
    p.len() == q.len() && forall|i: int|
        0 <= i < p.len() ==> same_but_preshared(#[trigger] p[i], q[i])
}

/// Two device attributes differ in the preshared keys of peers at most.
pub open spec fn same_device_attr(x: Attr, y: Attr) -> bool {
    x.0 == y.0 && (x.1 == y.1 || (x.0 == WGDEVICE_A_PEERS && same_peer_lists(
        attrs(x.1),
        attrs(y.1),
    )))
}

/// Two sequences of device attributes differ in private keys and preshared keys
/// at most.
pub open spec fn same_but_keys(a: Seq<Attr>, b: Seq<Attr>) -> bool {
    let p = without(a, WGDEVICE_A_PRIVATE_KEY);
    let q = without(b, WGDEVICE_A_PRIVATE_KEY);
    p.len() == q.len() && forall|i: int|
        0 <= i < p.len() ==> same_device_attr(#[trigger] p[i], q[i])
}

proof fn lemma_same_contained(p: Seq<Attr>, q: Seq<Attr>, now: i64)
    requires
        same_peer_lists(p, q),
    ensures
        contained_peers(p, now) == contained_peers(q, now),
    decreases p.len(),
{
    if p.len() > 0 {
        assert(same_but_preshared(p[p.len() - 1], q[p.len() - 1]));
        assert forall|i: int| 0 <= i < p.len() - 1 implies same_but_preshared(
            #[trigger] p.drop_last()[i],
            q.drop_last()[i],
        ) by {
            assert(same_but_preshared(p[i], q[i]));
        }
        lemma_same_contained(p.drop_last(), q.drop_last(), now);
        law_preshared_key_discarded(attrs(p.last().1), now);
        law_preshared_key_discarded(attrs(q.last().1), now);
    }
}

proof fn lemma_same_attrs(p: Seq<Attr>, q: Seq<Attr>, ty: u16, min: nat, now: i64)
    requires
        p.len() == q.len(),
        forall|i: int| 0 <= i < p.len() ==> same_device_attr(#[trigger] p[i], q[i]),
    ensures
        ty != WGDEVICE_A_PEERS ==> last_attr(p, ty, min) == last_attr(q, ty, min),
        peers_of(p, now) == peers_of(q, now),
    decreases p.len(),
{
    if p.len() > 0 {
        let x = p[p.len() - 1];
        let y = q[p.len() - 1];
        assert(same_device_attr(x, y));
        assert forall|i: int| 0 <= i < p.len() - 1 implies same_device_attr(
            #[trigger] p.drop_last()[i],
            q.drop_last()[i],
        ) by {
            assert(same_device_attr(p[i], q[i]));
        }
        lemma_same_attrs(p.drop_last(), q.drop_last(), ty, min, now);
        if x.0 == WGDEVICE_A_PEERS && x.1 != y.1 {
            lemma_same_contained(attrs(x.1), attrs(y.1), now);
        }
    }
}

/// No key of a device is kept: two devices whose attributes differ only in
/// private keys and in the preshared keys of their peers are read alike.
pub proof fn law_keys_discarded(a: Seq<Attr>, b: Seq<Attr>, now: i64)
    requires
        same_but_keys(a, b),
    ensures
        device_of(a, now) == device_of(b, now),
{
    let p = without(a, WGDEVICE_A_PRIVATE_KEY);
    let q = without(b, WGDEVICE_A_PRIVATE_KEY);
    law_private_key_discarded(a, now);
    law_private_key_discarded(b, now);
    lemma_same_attrs(p, q, WGDEVICE_A_IFNAME, 0, now);
    lemma_same_attrs(p, q, WGDEVICE_A_LISTEN_PORT, 0, now);
    lemma_same_attrs(p, q, WGDEVICE_A_FWMARK, 0, now);
}

/// The number of peers is bounded: at most `max` peers of a device are
/// exported, the first ones, and all of them when there are no more.
pub proof fn law_peers_capped(dev: WireguardDeviceView, max: nat)
    ensures
        dev.peers.len() >= max ==> capped(dev, max).peers.len() == max,
        capped(dev, max).if_name == dev.if_name,
        capped(dev, max).listen_port == dev.listen_port,
        capped(dev, max).fwmark == dev.fwmark,
        capped(dev, max).peers.len() <= max,
        capped(dev, max).peers.is_prefix_of(dev.peers),
        dev.peers.len() <= max ==> capped(dev, max) == dev,
        device_samples(capped(dev, max)).len() <= 1 + 4 * max,
{
    let kept = capped(dev, max);
    if dev.peers.len() <= max {
        assert(kept.peers =~= dev.peers);
    }
    lemma_four_each(kept.peers, kept.if_name);
}

proof fn lemma_four_each(peers: Seq<WireguardPeerView>, interface: Seq<char>)
    ensures
        flat(peers, per_peer(interface)).len() == 4 * peers.len(),
    decreases peers.len(),
{
    if peers.len() > 0 {
        lemma_four_each(peers.drop_last(), interface);
        assert(peer_samples(interface, peers.last()).len() == 4);
    }
}

// ---------------------------------------------------------------------------
// What the attributes stand for
// ---------------------------------------------------------------------------

/// The number of eight bytes in the last attribute `ty`; zero where it is
/// missing or short.
pub open spec fn number_at(a: Seq<Attr>, ty: u16) -> u64 {
    match last_attr(a, ty, 0) {
        Some(p) => if p.len() >= 8 {
            u64_ne(p)
        } else {
            0
        },
        None => 0,
    }
}

/// The number of two bytes in the last attribute `ty`; zero where it is missing
/// or short.
pub open spec fn short_at(a: Seq<Attr>, ty: u16) -> u16 {
    match last_attr(a, ty, 0) {
        Some(p) => if p.len() >= 2 {
            u16_ne(p)
        } else {
            0
        },
        None => 0,
    }
}

/// Every number of a peer goes out under its own name, with the identifier of
/// its public key.
pub proof fn law_peer_reported(
    a: Seq<Attr>,
    now: i64,
    key: Seq<u8>,
    interface: Seq<char>,
    labels: Map<Seq<char>, Seq<char>>,
    s: Seq<SampleView>,
)
    requires
        last_attr(a, 1, 0) == Some(key),
        labels == no_labels().insert("interface"@, interface).insert("peer"@, peer_id(key)),
        s == peer_samples(interface, peer_of(a, now)->0),
    ensures
        peer_of(a, now) is Some,
        s.len() == 4,
        counts(s, "nft_wireguard_peer_receive_bytes_total"@, labels, number_at(a, 7)),
        counts(s, "nft_wireguard_peer_transmit_bytes_total"@, labels, number_at(a, 8)),
        reads(
            s,
            "nft_wireguard_peer_persistent_keepalive_seconds"@,
            labels,
            GaugeValue::Whole(short_at(a, 5) as i128),
        ),
{
    assert(is_counter(s[0], "nft_wireguard_peer_receive_bytes_total"@, labels, number_at(a, 7)));
    assert(is_counter(s[1], "nft_wireguard_peer_transmit_bytes_total"@, labels, number_at(a, 8)));
    assert(is_gauge(
        s[3],
        "nft_wireguard_peer_persistent_keepalive_seconds"@,
        labels,
        GaugeValue::Whole(short_at(a, 5) as i128),
    ));
}

/// The last handshake is reported as its age: the seconds that have passed, none
/// where the clock stands before it, and without end where there was none.
pub proof fn law_handshake_age(
    a: Seq<Attr>,
    now: i64,
    key: Seq<u8>,
    interface: Seq<char>,
    labels: Map<Seq<char>, Seq<char>>,
    s: Seq<SampleView>,
)
    requires
        last_attr(a, 1, 0) == Some(key),
        labels == no_labels().insert("interface"@, interface).insert("peer"@, peer_id(key)),
        s == peer_samples(interface, peer_of(a, now)->0),
    ensures
        (match last_attr(a, 6, 8) {
            Some(p) => {
                let then = u64_ne(p);
                &&& then == 0 ==> reads(
                    s,
                    "nft_wireguard_peer_last_handshake_seconds"@,
                    labels,
                    GaugeValue::Infinite,
                )
                &&& 0 < then <= now ==> reads(
                    s,
                    "nft_wireguard_peer_last_handshake_seconds"@,
                    labels,
                    GaugeValue::Whole((now - then) as i128),
                )
                &&& then > now && then > 0 ==> reads(
                    s,
                    "nft_wireguard_peer_last_handshake_seconds"@,
                    labels,
                    GaugeValue::Whole(0),
                )
            },
            None => reads(
                s,
                "nft_wireguard_peer_last_handshake_seconds"@,
                labels,
                GaugeValue::Infinite,
            ),
        }),
{
    let v = s[2].value->F64_0;
    assert(is_gauge(s[2], "nft_wireguard_peer_last_handshake_seconds"@, labels, v));
}

/// A peer without a public key is no peer.
pub proof fn law_keyless_peer_skipped(a: Seq<Attr>, now: i64)
    requires
        last_attr(a, 1, 0) is None,
    ensures
        peer_of(a, now) is None,
{
}

/// Peers come in the order of their containers, over all peer lists of a device:
/// one container more adds its peer at the end, and an attribute that is no peer
/// list adds nothing.
pub proof fn law_peers_in_order(a: Seq<Attr>, ty: u16, p: Seq<u8>, now: i64)
    ensures
        ty != 8 ==> peers_of(a.push((ty, p)), now) == peers_of(a, now),
        ty == 8 ==> peers_of(a.push((ty, p)), now) == peers_of(a, now) + contained_peers(
            attrs(p),
            now,
        ),
        contained_peers(a.push((ty, p)), now) == match peer_of(attrs(p), now) {
            Some(peer) => contained_peers(a, now).push(peer),
            None => contained_peers(a, now),
        },
        peers_of(seq![], now).len() == 0,
        contained_peers(seq![], now).len() == 0,
{
    assert(a.push((ty, p)).drop_last() =~= a);
}

/// A device is reported under its name, its port and its mark, each from its own
/// attribute.
pub proof fn law_device_reported(
    frame: Seq<u8>,
    a: Seq<Attr>,
    now: i64,
    name: Seq<u8>,
    port: Seq<u8>,
    mark: Seq<u8>,
)
    requires
        frame.len() >= 4,
        a == attrs(frame.skip(4)),
        last_attr(a, 2, 0) == Some(name),
        until_nul(name).len() > 0,
        last_attr(a, 6, 0) == Some(port),
        last_attr(a, 7, 0) == Some(mark),
        port.len() >= 2,
        mark.len() >= 4,
    ensures
        ({
            let dev = device_parser(now)(frame);
            &&& dev is Some
            &&& dev->0.peers == peers_of(a, now)
            &&& is_gauge(
                device_samples(dev->0)[0],
                "nft_wireguard_device_info"@,
                no_labels().insert("interface"@, decoded(until_nul(name))).insert(
                    "listen_port"@,
                    dec(u16_ne(port) as nat),
                ).insert("fwmark"@, dec(u32_ne(mark) as nat)),
                GaugeValue::Whole(1),
            )
        }),
{
}

/// No peer of a device is lost.
pub proof fn law_device_holds_peers(dev: WireguardDeviceView, i: int)
    requires
        0 <= i < dev.peers.len(),
    ensures
        holds(device_samples(dev), peer_samples(dev.if_name, dev.peers[i])),
        holds(device_samples(dev), seq![device_info(dev)]),
{
    let all = device_samples(dev);
    let info = seq![device_info(dev)];
    let peers = flat(dev.peers, per_peer(dev.if_name));
    assert(all =~= info + peers + seq![]);
    assert(all =~= seq![] + info + peers);
    lemma_holds(all, seq![], info, peers);
    lemma_holds(all, info, peers, seq![]);
    law_flat_holds_each(dev.peers, i, per_peer(dev.if_name));
    lemma_holds_through(all, peers, peer_samples(dev.if_name, dev.peers[i]));
}

/// The identifier of a key is its 64-bit FNV-1a hash: each byte in turn is mixed
/// into the hash before it is multiplied by the prime.
pub proof fn law_peer_id_hash(key: Seq<u8>, b: u8)
    ensures
        fnv1a(seq![]) == 14695981039346656037,
        fnv1a(key.push(b)) as int == ((fnv1a(key) ^ (b as u64)) * 1099511628211)
            % 18446744073709551616,
        digits_value(peer_id(key), 16) == fnv1a(key),
{
    assert(key.push(b).drop_last() =~= key);
    reveal_with_fuel(pow16, 17);
    law_hex_fixed_round_trip(fnv1a(key) as nat, 16);
}

/// No device is lost: the samples of every frame that names one, with its peers
/// up to the limit, stand in the scrape in one piece.
pub proof fn law_devices_exported(frames: Seq<Vec<u8>>, now: i64, max: nat, i: int)
    requires
        0 <= i < frames.len(),
        frames[i]@.len() >= 4,
    ensures
        device_of(attrs(frames[i]@.skip(4)), now) matches Some(dev) ==> holds(
            flat(parsed(frames, device_parser(now)), per_device(max)),
            device_samples(capped(dev, max)),
        ),
        device_of(attrs(frames[i]@.skip(4)), now) is None ==> device_parser(now)(
            frames[i]@,
        ) is None,
{
    if device_of(attrs(frames[i]@.skip(4)), now) is Some {
        let k = law_parsed_holds_each(frames, i, device_parser(now));
        law_flat_holds_each(parsed(frames, device_parser(now)), k, per_device(max));
    }
}

/// A device without a name is no device; with one, it keeps all its peers.
pub proof fn law_device_named(a: Seq<Attr>, now: i64, name: Seq<u8>)
    requires
        last_attr(a, 2, 0) == Some(name),
    ensures
        device_of(a, now) is Some <==> until_nul(name).len() > 0,
        device_of(a, now) matches Some(dev) ==> dev.if_name == decoded(until_nul(name))
            && dev.peers == peers_of(a, now),
{
}

/// Whether a peer has an endpoint is known from the attribute alone.
pub proof fn law_endpoint_presence(a: Seq<Attr>, now: i64)
    requires
        last_attr(a, 1, 0) is Some,
    ensures
        peer_of(a, now)->0.endpoint_present <==> last_attr(a, 4, 0) is Some,
{
}

/// A port and a mark that are missing read as zero.
pub proof fn law_device_defaults(a: Seq<Attr>, now: i64)
    requires
        device_of(a, now) is Some,
    ensures
        last_attr(a, 6, 0) is None ==> device_of(a, now)->0.listen_port == 0,
        last_attr(a, 7, 0) is None ==> device_of(a, now)->0.fwmark == 0,
{
}

/// A frame without a whole header stands for no device.
pub proof fn law_short_frames_skipped(frame: Seq<u8>, now: i64)
    requires
        frame.len() < 4,
    ensures
        device_parser(now)(frame) is None,
{
}

} // verus!
