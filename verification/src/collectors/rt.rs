//! `NETLINK_ROUTE` collector: link statistics and counts of addresses, routes
//! and neighbours.
//!
//! Frames start with a fixed header (`ifinfomsg` of 16 bytes, `ifaddrmsg` of 8,
//! `rtmsg` and `ndmsg` of 12); attributes follow.
use crate::labels::{no_labels, Labels};
use crate::metric::{
    counter_view, counts, flag, flag_value, flat, gauge_view, holds, is_counter, is_gauge,
    law_flat_holds_each, law_parsed_joins, law_parsed_single, lemma_holds, lemma_holds_through,
    opt_view, parsed, push_counter, push_gauge, reads, views, whole, GaugeValue, MetricSample,
    SampleView,
};
use crate::tally::{
    law_tally_counts, law_tally_total, lemma_entry, occurrences, pair_gauges, push_pair_gauges,
    tally, total, Key, Tally,
};
use crate::text::utf8_text;
use crate::wire::{
    attrs, cut_at_nul, find_first, find_last, first_attr, last_attr, read_u16, read_u32, read_u64,
    read_u8, u16_ne, u32_ne, u64_ne, until_nul, Attr,
};
use vstd::prelude::*;
use vstd::slice::slice_subrange;
use vstd::utf8::*;

verus! {

/// `NETLINK_ROUTE` protocol number.
pub const NETLINK_ROUTE: i32 = 0;

/// Message types.
pub const RTM_GETLINK: u16 = 18;
pub const RTM_GETADDR: u16 = 22;
pub const RTM_GETROUTE: u16 = 26;
pub const RTM_GETNEIGH: u16 = 30;

/// Address family of bridge entries, which are not counted.
pub const AF_BRIDGE: u8 = 7;

/// Interface flags.
pub const IFF_UP: u32 = 0x1;
pub const IFF_RUNNING: u32 = 0x40;

/// Link attributes.
pub const IFLA_IFNAME: u16 = 3;
pub const IFLA_OPERSTATE: u16 = 16;
pub const IFLA_STATS64: u16 = 23;

/// `IFLA_OPERSTATE` of a link that is up.
pub const OPERSTATE_UP: u8 = 6;

/// Length of `IFLA_STATS64` up to the last field that is read.
pub const STATS64_MIN: usize = 64;

/// Offsets in `rtnl_link_stats64`.
pub const STATS64_RX_PACKETS: usize = 0;
pub const STATS64_TX_PACKETS: usize = 8;
pub const STATS64_RX_BYTES: usize = 16;
pub const STATS64_TX_BYTES: usize = 24;
pub const STATS64_RX_ERRORS: usize = 32;
pub const STATS64_TX_ERRORS: usize = 40;
pub const STATS64_RX_DROPPED: usize = 48;
pub const STATS64_TX_DROPPED: usize = 56;

/// Neighbour states.
pub const NUD_INCOMPLETE: u16 = 0x01;
pub const NUD_REACHABLE: u16 = 0x02;
pub const NUD_STALE: u16 = 0x04;
pub const NUD_DELAY: u16 = 0x08;
pub const NUD_PROBE: u16 = 0x10;
pub const NUD_FAILED: u16 = 0x20;
pub const NUD_NOARP: u16 = 0x40;
pub const NUD_PERMANENT: u16 = 0x80;

/// Route attribute that overrides the table of the header.
pub const RTA_TABLE: u16 = 15;

// ---------------------------------------------------------------------------
// Labels of numeric codes
// ---------------------------------------------------------------------------

pub open spec fn family_text(family: u8) -> Seq<char> {
    match family {
        2 => "inet"@,
        10 => "inet6"@,
        _ => "other"@,
    }
}

/// Name of an address family.
pub fn family_label(family: u8) -> (r: &'static str)
    ensures
        r@ == family_text(family),
{
    match family {
        2 => "inet",
        10 => "inet6",
        _ => "other",
    }
}

pub open spec fn nud_state_text(state: u16) -> Seq<char> {
    if state & NUD_PERMANENT != 0 {
        "permanent"@
    } else if state & NUD_REACHABLE != 0 {
        "reachable"@
    } else if state & NUD_STALE != 0 {
        "stale"@
    } else if state & NUD_DELAY != 0 {
        "delay"@
    } else if state & NUD_PROBE != 0 {
        "probe"@
    } else if state & NUD_FAILED != 0 {
        "failed"@
    } else if state & NUD_NOARP != 0 {
        "noarp"@
    } else if state & NUD_INCOMPLETE != 0 {
        "incomplete"@
    } else {
        "unknown"@
    }
}

/// Name of a neighbour state, of which one bit is set at a time.
pub fn nud_state_label(state: u16) -> (r: &'static str)
    ensures
        r@ == nud_state_text(state),
{
    if state & NUD_PERMANENT != 0 {
        "permanent"
    } else if state & NUD_REACHABLE != 0 {
        "reachable"
    } else if state & NUD_STALE != 0 {
        "stale"
    } else if state & NUD_DELAY != 0 {
        "delay"
    } else if state & NUD_PROBE != 0 {
        "probe"
    } else if state & NUD_FAILED != 0 {
        "failed"
    } else if state & NUD_NOARP != 0 {
        "noarp"
    } else if state & NUD_INCOMPLETE != 0 {
        "incomplete"
    } else {
        "unknown"
    }
}

pub open spec fn table_text(id: u32) -> Seq<char> {
    match id {
        0 => "unspec"@,
        253 => "default"@,
        254 => "main"@,
        255 => "local"@,
        _ => "other"@,
    }
}

/// Name of a routing table.  All but the well-known tables share one name, so
/// that the number of labels is bounded.
pub fn table_label(id: u32) -> (r: &'static str)
    ensures
        r@ == table_text(id),
{
    match id {
        0 => "unspec",
        253 => "default",
        254 => "main",
        255 => "local",
        _ => "other",
    }
}

/// The interface name in a payload: the text before the first NUL, if that is
/// valid UTF-8.
pub open spec fn ifname_of(payload: Seq<u8>) -> Option<Seq<char>> {
    if valid_utf8(until_nul(payload)) {
        Some(decode_utf8(until_nul(payload)))
    } else {
        None
    }
}

/// Decodes a NUL-terminated interface name.
pub fn decode_ifname(payload: &[u8]) -> (r: Option<String>)
    ensures
        r is Some <==> ifname_of(payload@) is Some,
        r matches Some(name) ==> ifname_of(payload@) == Some(name@),
{
    match utf8_text(cut_at_nul(payload)) {
        Some(text) => Some(text.to_owned()),
        None => None,
    }
}

// ---------------------------------------------------------------------------
// Request headers
// ---------------------------------------------------------------------------

/// Header of a request for all links.
pub fn ifinfomsg_payload() -> (r: [u8; 16])
    ensures
        r@ == Seq::new(16, |i: int| 0u8),
{
    let r = [0u8; 16];
    proof {
        assert(r@ =~= Seq::new(16, |i: int| 0u8));
    }
    r
}

/// Header of a request for all addresses.
pub fn ifaddrmsg_payload() -> (r: [u8; 8])
    ensures
        r@ == Seq::new(8, |i: int| 0u8),
{
    let r = [0u8; 8];
    proof {
        assert(r@ =~= Seq::new(8, |i: int| 0u8));
    }
    r
}

/// Header of a request for all routes.
pub fn rtmsg_payload() -> (r: [u8; 12])
    ensures
        r@ == Seq::new(12, |i: int| 0u8),
{
    let r = [0u8; 12];
    proof {
        assert(r@ =~= Seq::new(12, |i: int| 0u8));
    }
    r
}

/// Header of a request for all neighbours.
pub fn ndmsg_payload() -> (r: [u8; 12])
    ensures
        r@ == Seq::new(12, |i: int| 0u8),
{
    let r = [0u8; 12];
    proof {
        assert(r@ =~= Seq::new(12, |i: int| 0u8));
    }
    r
}

// ---------------------------------------------------------------------------
// Links
// ---------------------------------------------------------------------------

/// Statistics of one link.
#[derive(Debug)]
pub struct LinkStats {
    /// Interface name.
    pub name: String,
    /// Whether the link is up.
    pub up: bool,
    /// Received bytes.
    pub rx_bytes: u64,
    /// Transmitted bytes.
    pub tx_bytes: u64,
    /// Received packets.
    pub rx_packets: u64,
    /// Transmitted packets.
    pub tx_packets: u64,
    /// Receive errors.
    pub rx_errors: u64,
    /// Transmit errors.
    pub tx_errors: u64,
    /// Dropped received packets.
    pub rx_dropped: u64,
    /// Dropped packets to transmit.
    pub tx_dropped: u64,
}

/// The mathematical content of [`LinkStats`].
pub struct LinkStatsView {
    pub name: Seq<char>,
    pub up: bool,
    pub rx_bytes: u64,
    pub tx_bytes: u64,
    pub rx_packets: u64,
    pub tx_packets: u64,
    pub rx_errors: u64,
    pub tx_errors: u64,
    pub rx_dropped: u64,
    pub tx_dropped: u64,
}

impl View for LinkStats {
    type V = LinkStatsView;

    open spec fn view(&self) -> LinkStatsView {
        LinkStatsView {
            name: self.name@,
            up: self.up,
            rx_bytes: self.rx_bytes,
            tx_bytes: self.tx_bytes,
            rx_packets: self.rx_packets,
            tx_packets: self.tx_packets,
            rx_errors: self.rx_errors,
            tx_errors: self.tx_errors,
            rx_dropped: self.rx_dropped,
            tx_dropped: self.tx_dropped,
        }
    }
}

/// Whether a link is up: the kernel must say so in `IFLA_OPERSTATE`, where that
/// is present, and both interface flags must be set.
pub open spec fn link_up(flags: u32, a: Seq<Attr>) -> bool {
    &&& flags & IFF_UP != 0
    &&& flags & IFF_RUNNING != 0
    &&& match last_attr(a, IFLA_OPERSTATE, 0) {
        Some(p) if p.len() >= 1 => p[0] == OPERSTATE_UP,
        _ => true,
    }
}

/// One field of the statistics attribute; zero without a long enough attribute.
pub open spec fn stat_at(a: Seq<Attr>, offset: nat) -> u64 {
    match last_attr(a, IFLA_STATS64, STATS64_MIN as nat) {
        Some(p) => u64_ne(p.skip(offset as int)),
        None => 0,
    }
}

/// The link that a frame describes.
pub open spec fn link_of(frame: Seq<u8>) -> Option<LinkStatsView> {
    let a = attrs(frame.skip(16));
    let name = match last_attr(a, IFLA_IFNAME, 0) {
        Some(p) => ifname_of(p),
        None => None,
    };
    if frame.len() < 16 {
        None
    } else {
        match name {
            Some(name) => Some(
                LinkStatsView {
                    name,
                    up: link_up(u32_ne(frame.skip(8)), a),
                    rx_bytes: stat_at(a, STATS64_RX_BYTES as nat),
                    tx_bytes: stat_at(a, STATS64_TX_BYTES as nat),
                    rx_packets: stat_at(a, STATS64_RX_PACKETS as nat),
                    tx_packets: stat_at(a, STATS64_TX_PACKETS as nat),
                    rx_errors: stat_at(a, STATS64_RX_ERRORS as nat),
                    tx_errors: stat_at(a, STATS64_TX_ERRORS as nat),
                    rx_dropped: stat_at(a, STATS64_RX_DROPPED as nat),
                    tx_dropped: stat_at(a, STATS64_TX_DROPPED as nat),
                },
            ),
            None => None,
        }
    }
}

proof fn lemma_stats_len(a: Seq<Attr>)
    ensures
        last_attr(a, IFLA_STATS64, STATS64_MIN as nat) matches Some(p) ==> p.len() >= STATS64_MIN,
    decreases a.len(),
{
    if a.len() > 0 {
        lemma_stats_len(a.drop_last());
    }
}

fn read_stat(stats: Option<&[u8]>, offset: usize, Ghost(a): Ghost<Seq<Attr>>) -> (r: u64)
    requires
        crate::wire::payload_view(stats) == last_attr(a, IFLA_STATS64, STATS64_MIN as nat),
        offset + 8 <= STATS64_MIN,
    ensures
        r == stat_at(a, offset as nat),
{
    proof {
        lemma_stats_len(a);
    }
    match stats {
        Some(p) => {
            let field = slice_subrange(p, offset, p.len());
            proof {
                assert(field@ =~= p@.skip(offset as int));
            }
            read_u64(field).unwrap_or(0)
        },
        None => 0,
    }
}

/// Parses one `RTM_NEWLINK` frame; `None` when it is too short or has no valid
/// interface name.
pub fn parse_link_frame(payload: &[u8]) -> (r: Option<LinkStats>)
    ensures
        opt_view(r) == link_of(payload@),
{
    if payload.len() < 16 {
        return None;
    }
    let flags_at = slice_subrange(payload, 8, payload.len());
    let flags: u32 = read_u32(flags_at).unwrap_or(0);
    let buf = slice_subrange(payload, 16, payload.len());
    proof {
        assert(flags_at@ =~= payload@.skip(8));
        assert(buf@ =~= payload@.skip(16));
    }
    let ghost a = attrs(buf@);
    let name = match find_last(buf, IFLA_IFNAME, 0) {
        Some(p) => match decode_ifname(p) {
            Some(name) => name,
            None => {
                return None;
            },
        },
        None => {
            return None;
        },
    };
    let operstate_up = match find_last(buf, IFLA_OPERSTATE, 0) {
        Some(p) => match read_u8(p) {
            Some(state) => state == OPERSTATE_UP,
            None => true,
        },
        None => true,
    };
    let up = operstate_up && flags & IFF_UP != 0 && flags & IFF_RUNNING != 0;
    let stats = find_last(buf, IFLA_STATS64, STATS64_MIN);
    Some(
        LinkStats {
            name,
            up,
            rx_bytes: read_stat(stats, STATS64_RX_BYTES, Ghost(a)),
            tx_bytes: read_stat(stats, STATS64_TX_BYTES, Ghost(a)),
            rx_packets: read_stat(stats, STATS64_RX_PACKETS, Ghost(a)),
            tx_packets: read_stat(stats, STATS64_TX_PACKETS, Ghost(a)),
            rx_errors: read_stat(stats, STATS64_RX_ERRORS, Ghost(a)),
            tx_errors: read_stat(stats, STATS64_TX_ERRORS, Ghost(a)),
            rx_dropped: read_stat(stats, STATS64_RX_DROPPED, Ghost(a)),
            tx_dropped: read_stat(stats, STATS64_TX_DROPPED, Ghost(a)),
        },
    )
}

/// The samples of one link.
pub open spec fn link_samples(v: LinkStatsView) -> Seq<SampleView> {
    let labels = no_labels().insert("device"@, v.name);
    seq![
        counter_view(
            "nft_link_receive_bytes_total"@,
            "Total bytes received on the interface."@,
            labels,
            v.rx_bytes,
        ),
        counter_view(
            "nft_link_transmit_bytes_total"@,
            "Total bytes transmitted on the interface."@,
            labels,
            v.tx_bytes,
        ),
        counter_view(
            "nft_link_receive_packets_total"@,
            "Total packets received on the interface."@,
            labels,
            v.rx_packets,
        ),
        counter_view(
            "nft_link_transmit_packets_total"@,
            "Total packets transmitted on the interface."@,
            labels,
            v.tx_packets,
        ),
        counter_view(
            "nft_link_receive_errors_total"@,
            "Total receive errors on the interface."@,
            labels,
            v.rx_errors,
        ),
        counter_view(
            "nft_link_transmit_errors_total"@,
            "Total transmit errors on the interface."@,
            labels,
            v.tx_errors,
        ),
        counter_view(
            "nft_link_receive_drops_total"@,
            "Total receive drops on the interface."@,
            labels,
            v.rx_dropped,
        ),
        counter_view(
            "nft_link_transmit_drops_total"@,
            "Total transmit drops on the interface."@,
            labels,
            v.tx_dropped,
        ),
        gauge_view(
            "nft_link_up"@,
            "1 if the interface is operationally up, 0 otherwise."@,
            labels,
            flag(v.up),
        ),
    ]
}

/// Appends the samples of one link.
pub fn emit_link_metrics(stats: &LinkStats, out: &mut Vec<MetricSample>)
    ensures
        views(final(out)@) == views(old(out)@) + link_samples(stats@),
{
    let ghost start = views(out@);
    let labels = Labels::new().with("device", stats.name.as_str());
    push_counter(
        out,
        "nft_link_receive_bytes_total",
        "Total bytes received on the interface.",
        &labels,
        stats.rx_bytes,
    );
    push_counter(
        out,
        "nft_link_transmit_bytes_total",
        "Total bytes transmitted on the interface.",
        &labels,
        stats.tx_bytes,
    );
    push_counter(
        out,
        "nft_link_receive_packets_total",
        "Total packets received on the interface.",
        &labels,
        stats.rx_packets,
    );
    push_counter(
        out,
        "nft_link_transmit_packets_total",
        "Total packets transmitted on the interface.",
        &labels,
        stats.tx_packets,
    );
    push_counter(
        out,
        "nft_link_receive_errors_total",
        "Total receive errors on the interface.",
        &labels,
        stats.rx_errors,
    );
    push_counter(
        out,
        "nft_link_transmit_errors_total",
        "Total transmit errors on the interface.",
        &labels,
        stats.tx_errors,
    );
    push_counter(
        out,
        "nft_link_receive_drops_total",
        "Total receive drops on the interface.",
        &labels,
        stats.rx_dropped,
    );
    push_counter(
        out,
        "nft_link_transmit_drops_total",
        "Total transmit drops on the interface.",
        &labels,
        stats.tx_dropped,
    );
    push_gauge(
        out,
        "nft_link_up",
        "1 if the interface is operationally up, 0 otherwise.",
        &labels,
        flag_value(stats.up),
    );
    proof {
        assert(views(out@) =~= start + link_samples(stats@));
    }
}

pub open spec fn link_parser() -> spec_fn(Seq<u8>) -> Option<LinkStatsView> {
    |frame: Seq<u8>| link_of(frame)
}

pub open spec fn per_link() -> spec_fn(LinkStatsView) -> Seq<SampleView> {
    |v: LinkStatsView| link_samples(v)
}

fn emit_links(frames: &[Vec<u8>], out: &mut Vec<MetricSample>)
    ensures
        views(final(out)@) == views(old(out)@) + flat(parsed(frames@, link_parser()), per_link()),
{
    let ghost start = views(out@);
    let mut i: usize = 0;
    proof {
        assert(start + flat(parsed(frames@.take(0), link_parser()), per_link()) =~= start);
    }
    while i < frames.len()
        invariant
            i <= frames.len(),
            views(out@) == start + flat(parsed(frames@.take(i as int), link_parser()), per_link()),
        decreases frames.len() - i,
    {
        let ghost done = parsed(frames@.take(i as int), link_parser());
        proof {
            assert(frames@.take(i as int + 1).drop_last() =~= frames@.take(i as int));
        }
        if let Some(stats) = parse_link_frame(frames[i].as_slice()) {
            emit_link_metrics(&stats, out);
            proof {
                assert(done.push(stats@).drop_last() =~= done);
                assert(start + (flat(done, per_link()) + link_samples(stats@)) =~= (start + flat(
                    done,
                    per_link(),
                )) + link_samples(stats@));
            }
        }
        i += 1;
    }
    proof {
        assert(frames@.take(i as int) =~= frames@);
    }
}

// ---------------------------------------------------------------------------
// Counts
// ---------------------------------------------------------------------------

/// The family of each address, without empty frames.
pub open spec fn address_keys(frames: Seq<Vec<u8>>) -> Seq<Key>
    decreases frames.len(),
{
    if frames.len() == 0 {
        seq![]
    } else {
        let f = frames.last()@;
        let rest = address_keys(frames.drop_last());
        if f.len() == 0 {
            rest
        } else {
            rest.push((family_text(f[0]), ""@))
        }
    }
}

/// Counts addresses by family.  The second label of each entry is empty.
pub fn count_addresses(frames: &[Vec<u8>]) -> (r: Tally)
    ensures
        r@ == tally(address_keys(frames@)),
{
    let mut t = Tally::new();
    let mut i: usize = 0;
    proof {
        assert(frames@.take(0) =~= seq![]);
    }
    while i < frames.len()
        invariant
            i <= frames.len(),
            t@ == tally(address_keys(frames@.take(i as int))),
            address_keys(frames@.take(i as int)).len() <= i,
        decreases frames.len() - i,
    {
        let f = &frames[i];
        proof {
            assert(frames@.take(i as int + 1).drop_last() =~= frames@.take(i as int));
            law_tally_total(address_keys(frames@.take(i as int)));
        }
        if f.len() > 0 {
            let family = family_label(f[0]);
            t.add(family, "");
            proof {
                let keys = address_keys(frames@.take(i as int));
                assert(keys.push((family@, ""@)).drop_last() =~= keys);
            }
        }
        i += 1;
    }
    proof {
        assert(frames@.take(i as int) =~= frames@);
    }
    t
}

/// The routing table of a route: that of the first `RTA_TABLE` attribute, if it
/// is long enough, and else that of the header.
pub open spec fn route_table(frame: Seq<u8>) -> u32 {
    match first_attr(attrs(frame.skip(12)), RTA_TABLE) {
        Some(p) if p.len() >= 4 => u32_ne(p),
        _ => frame[4] as u32,
    }
}

/// The family and table of each route, without short frames.
pub open spec fn route_keys(frames: Seq<Vec<u8>>) -> Seq<Key>
    decreases frames.len(),
{
    if frames.len() == 0 {
        seq![]
    } else {
        let f = frames.last()@;
        let rest = route_keys(frames.drop_last());
        if f.len() < 12 {
            rest
        } else {
            rest.push((family_text(f[0]), table_text(route_table(f))))
        }
    }
}

/// Counts routes by family and table.
pub fn count_routes(frames: &[Vec<u8>]) -> (r: Tally)
    ensures
        r@ == tally(route_keys(frames@)),
{
    let mut t = Tally::new();
    let mut i: usize = 0;
    proof {
        assert(frames@.take(0) =~= seq![]);
    }
    while i < frames.len()
        invariant
            i <= frames.len(),
            t@ == tally(route_keys(frames@.take(i as int))),
            route_keys(frames@.take(i as int)).len() <= i,
        decreases frames.len() - i,
    {
        let f = &frames[i];
        proof {
            assert(frames@.take(i as int + 1).drop_last() =~= frames@.take(i as int));
            law_tally_total(route_keys(frames@.take(i as int)));
        }
        if f.len() >= 12 {
            let family = family_label(f[0]);
            let buf = slice_subrange(f.as_slice(), 12, f.len());
            proof {
                assert(buf@ =~= f@.skip(12));
            }
            let id: u32 = match find_first(buf, RTA_TABLE) {
                Some(p) => read_u32(p).unwrap_or(f[4] as u32),
                None => f[4] as u32,
            };
            let table = table_label(id);
            t.add(family, table);
            proof {
                let keys = route_keys(frames@.take(i as int));
                assert(keys.push((family@, table@)).drop_last() =~= keys);
            }
        }
        i += 1;
    }
    proof {
        assert(frames@.take(i as int) =~= frames@);
    }
    t
}

/// The family and state of each neighbour, without short frames and bridge entries.
pub open spec fn neighbour_keys(frames: Seq<Vec<u8>>) -> Seq<Key>
    decreases frames.len(),
{
    if frames.len() == 0 {
        seq![]
    } else {
        let f = frames.last()@;
        let rest = neighbour_keys(frames.drop_last());
        if f.len() < 12 || f[0] == AF_BRIDGE {
            rest
        } else {
            rest.push((family_text(f[0]), nud_state_text(u16_ne(f.skip(8)))))
        }
    }
}

/// Counts neighbours by family and state; bridge entries are skipped.
pub fn count_neighbours(frames: &[Vec<u8>]) -> (r: Tally)
    ensures
        r@ == tally(neighbour_keys(frames@)),
{
    let mut t = Tally::new();
    let mut i: usize = 0;
    proof {
        assert(frames@.take(0) =~= seq![]);
    }
    while i < frames.len()
        invariant
            i <= frames.len(),
            t@ == tally(neighbour_keys(frames@.take(i as int))),
            neighbour_keys(frames@.take(i as int)).len() <= i,
        decreases frames.len() - i,
    {
        let f = &frames[i];
        proof {
            assert(frames@.take(i as int + 1).drop_last() =~= frames@.take(i as int));
            law_tally_total(neighbour_keys(frames@.take(i as int)));
        }
        if f.len() >= 12 && f[0] != AF_BRIDGE {
            let family = family_label(f[0]);
            let state_at = slice_subrange(f.as_slice(), 8, f.len());
            proof {
                assert(state_at@ =~= f@.skip(8));
            }
            let state = nud_state_label(read_u16(state_at).unwrap_or(0));
            t.add(family, state);
            proof {
                let keys = neighbour_keys(frames@.take(i as int));
                assert(keys.push((family@, state@)).drop_last() =~= keys);
            }
        }
        i += 1;
    }
    proof {
        assert(frames@.take(i as int) =~= frames@);
    }
    t
}

/// One gauge for each family.
pub open spec fn address_gauges(t: Seq<(Key, nat)>) -> Seq<SampleView> {
    t.map_values(
        |e: (Key, nat)|
            gauge_view(
                "nft_address_count"@,
                "Number of IP addresses assigned by address family."@,
                no_labels().insert("family"@, e.0.0),
                whole(e.1 as int),
            ),
    )
}

fn push_address_gauges(out: &mut Vec<MetricSample>, t: &Tally)
    ensures
        views(final(out)@) == views(old(out)@) + address_gauges(t@),
{
    let ghost start = views(out@);
    let ghost all = address_gauges(t@);
    let mut i: usize = 0;
    proof {
        assert(start + all.take(0) =~= start);
    }
    while i < t.entries.len()
        invariant
            i <= t.entries.len(),
            all == address_gauges(t@),
            views(out@) == start + all.take(i as int),
        decreases t.entries.len() - i,
    {
        let c = &t.entries[i];
        let labels = Labels::new().with("family", c.first.as_str());
        push_gauge(
            out,
            "nft_address_count",
            "Number of IP addresses assigned by address family.",
            &labels,
            GaugeValue::Whole(c.count as i128),
        );
        proof {
            assert(t@[i as int] == (c.key(), c.count as nat));
            assert(start + all.take(i as int + 1) =~= (start + all.take(i as int)).push(all[i as int]));
        }
        i += 1;
    }
    proof {
        assert(all.take(i as int) =~= all);
    }
}

// ---------------------------------------------------------------------------
// Collector
// ---------------------------------------------------------------------------

/// All samples of the collector, in order.
pub open spec fn rt_samples(
    links: Seq<Vec<u8>>,
    addresses: Seq<Vec<u8>>,
    routes: Seq<Vec<u8>>,
    neighbours: Seq<Vec<u8>>,
) -> Seq<SampleView> {
    flat(parsed(links, link_parser()), per_link()) + address_gauges(tally(address_keys(addresses)))
        + pair_gauges(
        tally(route_keys(routes)),
        "nft_route_count"@,
        "Number of routes by address family and routing table."@,
        "family"@,
        "table"@,
    ) + pair_gauges(
        tally(neighbour_keys(neighbours)),
        "nft_neighbor_count"@,
        "Number of neighbour (ARP/NDP) entries by family and state."@,
        "family"@,
        "state"@,
    )
}

/// Collector for links, addresses, routes and neighbours.
pub struct RtCollector;

impl RtCollector {
    /// Name of the collector.
    pub fn name(&self) -> (r: &'static str)
        ensures
            r@ == "rtnetlink"@,
    {
        "rtnetlink"
    }

    /// Turns the frames of the four dumps into samples.
    pub fn collect(
        &self,
        links: &[Vec<u8>],
        addresses: &[Vec<u8>],
        routes: &[Vec<u8>],
        neighbours: &[Vec<u8>],
    ) -> (r: Vec<MetricSample>)
        ensures
            views(r@) == rt_samples(links@, addresses@, routes@, neighbours@),
    {
        let mut out: Vec<MetricSample> = Vec::new();
        emit_links(links, &mut out);
        proof {
            assert(views(out@) =~= flat(parsed(links@, link_parser()), per_link()));
        }
        let counted = count_addresses(addresses);
        push_address_gauges(&mut out, &counted);
        let counted = count_routes(routes);
        push_pair_gauges(
            &mut out,
            &counted,
            "nft_route_count",
            "Number of routes by address family and routing table.",
            "family",
            "table",
        );
        let counted = count_neighbours(neighbours);
        push_pair_gauges(
            &mut out,
            &counted,
            "nft_neighbor_count",
            "Number of neighbour (ARP/NDP) entries by family and state.",
            "family",
            "state",
        );
        out
    }
}

// ---------------------------------------------------------------------------
// Laws
// ---------------------------------------------------------------------------

/// The routing table label is one of five: the well-known tables keep their
/// names, and every other table has the same label.
pub proof fn law_table_labels_bounded(id: u32)
    ensures
        table_text(id) == "unspec"@ || table_text(id) == "default"@ || table_text(id) == "main"@
            || table_text(id) == "local"@ || table_text(id) == "other"@,
        id != 0 && id != 253 && id != 254 && id != 255 ==> table_text(id) == "other"@,
{
}

/// A link is reported up only when both interface flags are set.
pub proof fn law_link_up_needs_flags(frame: Seq<u8>)
    ensures
        link_of(frame) matches Some(link) ==> (link.up ==> u32_ne(frame.skip(8)) & IFF_UP != 0
            && u32_ne(frame.skip(8)) & IFF_RUNNING != 0),
{
}

/// Bridge entries are never counted: leaving them out changes nothing.
pub proof fn law_bridge_entries_ignored(frames: Seq<Vec<u8>>)
    ensures
        neighbour_keys(frames) == neighbour_keys(
            frames.filter(|f: Vec<u8>| f@.len() < 12 || f@[0] != AF_BRIDGE),
        ),
    decreases frames.len(),
{
    reveal(Seq::filter);
    let keep = |f: Vec<u8>| f@.len() < 12 || f@[0] != AF_BRIDGE;
    if frames.len() > 0 {
        law_bridge_entries_ignored(frames.drop_last());
        let rest = frames.drop_last().filter(keep);
        if keep(frames.last()) {
            assert(rest.push(frames.last()).drop_last() =~= rest);
        }
    }
}

/// Every address is counted once: the counts add up to the number of frames
/// that are not empty.
pub proof fn law_addresses_counted(frames: Seq<Vec<u8>>)
    ensures
        total(tally(address_keys(frames))) == frames.filter(|f: Vec<u8>| f@.len() > 0).len(),
    decreases frames.len(),
{
    law_tally_total(address_keys(frames));
    reveal(Seq::filter);
    if frames.len() > 0 {
        law_addresses_counted(frames.drop_last());
        law_tally_total(address_keys(frames.drop_last()));
    }
}

/// Every route is counted once: the counts add up to the number of frames with
/// a whole header.
pub proof fn law_routes_counted(frames: Seq<Vec<u8>>)
    ensures
        total(tally(route_keys(frames))) == frames.filter(|f: Vec<u8>| f@.len() >= 12).len(),
    decreases frames.len(),
{
    law_tally_total(route_keys(frames));
    reveal(Seq::filter);
    if frames.len() > 0 {
        law_routes_counted(frames.drop_last());
        law_tally_total(route_keys(frames.drop_last()));
    }
}

/// Every neighbour is counted once: the counts add up to the number of frames
/// with a whole header that are no bridge entries.
pub proof fn law_neighbours_counted(frames: Seq<Vec<u8>>)
    ensures
        total(tally(neighbour_keys(frames))) == frames.filter(
            |f: Vec<u8>| f@.len() >= 12 && f@[0] != AF_BRIDGE,
        ).len(),
    decreases frames.len(),
{
    law_tally_total(neighbour_keys(frames));
    reveal(Seq::filter);
    if frames.len() > 0 {
        law_neighbours_counted(frames.drop_last());
        law_tally_total(neighbour_keys(frames.drop_last()));
    }
}

/// A number depends on its own eight bytes alone.
proof fn lemma_own_bytes(p: Seq<u8>, offset: int)
    requires
        0 <= offset,
        offset + 8 <= p.len(),
    ensures
        u64_ne(p.skip(offset)) == u64_ne(p.subrange(offset, offset + 8)),
{
    let s = p.skip(offset);
    let t = p.subrange(offset, offset + 8);
    assert(s[0] == t[0] && s[1] == t[1] && s[2] == t[2] && s[3] == t[3]);
    assert(s.skip(4)[0] == t.skip(4)[0] && s.skip(4)[1] == t.skip(4)[1]);
    assert(s.skip(4)[2] == t.skip(4)[2] && s.skip(4)[3] == t.skip(4)[3]);
}

/// Every statistic of a link goes out under its own name: the sample of a name
/// carries the eight bytes that `rtnl_link_stats64` keeps for it, counted from
/// the start of the attribute, however much follows them.
pub proof fn law_link_statistics_named(
    frame: Seq<u8>,
    p: Seq<u8>,
    labels: Map<Seq<char>, Seq<char>>,
    s: Seq<SampleView>,
)
    requires
        link_of(frame) is Some,
        last_attr(attrs(frame.skip(16)), 23, 64) == Some(p),
        labels == no_labels().insert("device"@, link_of(frame)->0.name),
        s == link_samples(link_of(frame)->0),
    ensures
        s.len() == 9,
        counts(s, "nft_link_receive_packets_total"@, labels, u64_ne(p.subrange(0, 8))),
        counts(s, "nft_link_transmit_packets_total"@, labels, u64_ne(p.subrange(8, 16))),
        counts(s, "nft_link_receive_bytes_total"@, labels, u64_ne(p.subrange(16, 24))),
        counts(s, "nft_link_transmit_bytes_total"@, labels, u64_ne(p.subrange(24, 32))),
        counts(s, "nft_link_receive_errors_total"@, labels, u64_ne(p.subrange(32, 40))),
        counts(s, "nft_link_transmit_errors_total"@, labels, u64_ne(p.subrange(40, 48))),
        counts(s, "nft_link_receive_drops_total"@, labels, u64_ne(p.subrange(48, 56))),
        counts(s, "nft_link_transmit_drops_total"@, labels, u64_ne(p.subrange(56, 64))),
        reads(
            s,
            "nft_link_up"@,
            labels,
            GaugeValue::Whole(if link_of(frame)->0.up { 1 } else { 0 }),
        ),
{
    lemma_stats_len(attrs(frame.skip(16)));
    lemma_own_bytes(p, 0);
    lemma_own_bytes(p, 8);
    lemma_own_bytes(p, 16);
    lemma_own_bytes(p, 24);
    lemma_own_bytes(p, 32);
    lemma_own_bytes(p, 40);
    lemma_own_bytes(p, 48);
    lemma_own_bytes(p, 56);
    assert(is_counter(s[2], "nft_link_receive_packets_total"@, labels, u64_ne(p.subrange(0, 8))));
    assert(is_counter(s[3], "nft_link_transmit_packets_total"@, labels, u64_ne(p.subrange(8, 16))));
    assert(is_counter(s[0], "nft_link_receive_bytes_total"@, labels, u64_ne(p.subrange(16, 24))));
    assert(is_counter(s[1], "nft_link_transmit_bytes_total"@, labels, u64_ne(p.subrange(24, 32))));
    assert(is_counter(s[4], "nft_link_receive_errors_total"@, labels, u64_ne(p.subrange(32, 40))));
    assert(is_counter(s[5], "nft_link_transmit_errors_total"@, labels, u64_ne(p.subrange(40, 48))));
    assert(is_counter(s[6], "nft_link_receive_drops_total"@, labels, u64_ne(p.subrange(48, 56))));
    assert(is_counter(s[7], "nft_link_transmit_drops_total"@, labels, u64_ne(p.subrange(56, 64))));
    assert(is_gauge(
        s[8],
        "nft_link_up"@,
        labels,
        GaugeValue::Whole(if link_of(frame)->0.up { 1 } else { 0 }),
    ));
}

/// A link without statistics has only zeros.
pub proof fn law_no_statistics_no_numbers(frame: Seq<u8>)
    requires
        last_attr(attrs(frame.skip(16)), 23, 64) is None,
    ensures
        link_of(frame) matches Some(v) ==> v.rx_bytes == 0 && v.tx_bytes == 0 && v.rx_packets == 0
            && v.tx_packets == 0 && v.rx_errors == 0 && v.tx_errors == 0 && v.rx_dropped == 0
            && v.tx_dropped == 0,
{
}

/// A link is read exactly when its frame has a whole header and a name in valid
/// UTF-8, and it bears that name.
pub proof fn law_link_named(frame: Seq<u8>, p: Seq<u8>)
    requires
        frame.len() >= 16,
        last_attr(attrs(frame.skip(16)), 3, 0) == Some(p),
    ensures
        link_of(frame) is Some <==> valid_utf8(until_nul(p)),
        link_of(frame) matches Some(v) ==> v.name == decode_utf8(until_nul(p)),
{
}

/// A link is up when both interface flags are set and the kernel reports no
/// other operational state than up.
pub proof fn law_link_up_exactly(frame: Seq<u8>, flags: u32)
    requires
        link_of(frame) is Some,
        flags == u32_ne(frame.subrange(8, 12)),
    ensures
        link_of(frame)->0.up <==> {
            &&& flags & 1 != 0
            &&& flags & 0x40 != 0
            &&& match last_attr(attrs(frame.skip(16)), 16, 0) {
                Some(state) => state.len() == 0 || state[0] == 6,
                None => true,
            }
        },
{
    let s = frame.skip(8);
    let t = frame.subrange(8, 12);
    assert(s[0] == t[0] && s[1] == t[1] && s[2] == t[2] && s[3] == t[3]);
}

/// The two internet families go by their own names, every other family by a
/// third one.
pub proof fn law_families_told_apart(family: u8)
    ensures
        family_text(family) == "inet"@ <==> family == 2,
        family_text(family) == "inet6"@ <==> family == 10,
        family != 2 && family != 10 ==> family_text(family) == "other"@,
{
    reveal_strlit("inet");
    reveal_strlit("inet6");
    reveal_strlit("other");
    assert("inet"@.len() == 4 && "inet6"@.len() == 5 && "other"@.len() == 5);
    assert("inet6"@[0] == 'i' && "other"@[0] == 'o');
}

/// A route belongs to the table that its first table attribute names, and else
/// to that of its header.
pub proof fn law_route_table_overridden(frame: Seq<u8>)
    ensures
        (match first_attr(attrs(frame.skip(12)), 15) {
            Some(p) => p.len() >= 4 ==> route_table(frame) == u32_ne(p),
            None => route_table(frame) == frame[4],
        }),
{
}

/// Every address counts for its own family, with the frames around it unchanged.
pub proof fn law_address_counts_once(frames: Seq<Vec<u8>>, frame: Vec<u8>, k: Key)
    ensures
        occurrences(address_keys(frames.push(frame)), k) == occurrences(address_keys(frames), k)
            + if frame@.len() > 0 && k == (family_text(frame@[0]), ""@) {
            1nat
        } else {
            0nat
        },
{
    assert(frames.push(frame).drop_last() =~= frames);
    let rest = address_keys(frames);
    assert(rest.push((family_text(frame@[0]), ""@)).drop_last() =~= rest);
}

/// Every route counts for its own family and table.
pub proof fn law_route_counts_once(frames: Seq<Vec<u8>>, frame: Vec<u8>, k: Key)
    ensures
        occurrences(route_keys(frames.push(frame)), k) == occurrences(route_keys(frames), k)
            + if frame@.len() >= 12 && k == (
            family_text(frame@[0]),
            table_text(route_table(frame@)),
        ) {
            1nat
        } else {
            0nat
        },
{
    assert(frames.push(frame).drop_last() =~= frames);
    let rest = route_keys(frames);
    let key = (family_text(frame@[0]), table_text(route_table(frame@)));
    assert(rest.push(key).drop_last() =~= rest);
}

/// Every neighbour counts for its own family and state; the state is the native
/// number at byte eight of its frame.
pub proof fn law_neighbour_counts_once(frames: Seq<Vec<u8>>, frame: Vec<u8>, k: Key)
    ensures
        occurrences(neighbour_keys(frames.push(frame)), k) == occurrences(
            neighbour_keys(frames),
            k,
        ) + if frame@.len() >= 12 && frame@[0] != 7 && k == (
            family_text(frame@[0]),
            nud_state_text(u16_ne(frame@.subrange(8, 10))),
        ) {
            1nat
        } else {
            0nat
        },
{
    assert(frames.push(frame).drop_last() =~= frames);
    let rest = neighbour_keys(frames);
    let f = frame@;
    if f.len() >= 12 {
        assert(f.skip(8)[0] == f.subrange(8, 10)[0]);
        assert(f.skip(8)[1] == f.subrange(8, 10)[1]);
    }
    let key = (family_text(f[0]), nud_state_text(u16_ne(f.skip(8))));
    assert(rest.push(key).drop_last() =~= rest);
}

/// Nothing is left out of a scrape: the samples of every link that is read stand
/// in it in one piece, and so do those of the three tallies.
pub proof fn law_all_parts_exported(
    links: Seq<Vec<u8>>,
    addresses: Seq<Vec<u8>>,
    routes: Seq<Vec<u8>>,
    neighbours: Seq<Vec<u8>>,
    i: int,
)
    requires
        0 <= i < links.len(),
    ensures
        link_of(links[i]@) matches Some(v) ==> holds(
            rt_samples(links, addresses, routes, neighbours),
            link_samples(v),
        ),
{
    let one = seq![links[i]];
    assert(links =~= links.take(i) + one + links.skip(i + 1));
    law_parsed_joins(links.take(i) + one, links.skip(i + 1), link_parser());
    law_parsed_joins(links.take(i), one, link_parser());
    law_parsed_single(links[i], link_parser());
    let all = rt_samples(links, addresses, routes, neighbours);
    let models = parsed(links, link_parser());
    let k = parsed(links.take(i), link_parser()).len() as int;
    match link_of(links[i]@) {
        Some(v) => {
            assert(models[k] == v);
            law_flat_holds_each(models, k, per_link());
            let head = flat(models, per_link());
            let tail = all.skip(head.len() as int);
            assert(all =~= seq![] + head + tail);
            lemma_holds(all, seq![], head, tail);
            lemma_holds_through(all, head, link_samples(v));
        },
        None => {},
    }
}

/// The well-known routing tables go by their own names.
pub proof fn law_tables_told_apart(code: u32)
    ensures
        table_text(code) == "unspec"@ <==> code == 0,
        table_text(code) == "default"@ <==> code == 253,
        table_text(code) == "main"@ <==> code == 254,
        table_text(code) == "local"@ <==> code == 255,
        (code != 0 && code != 253 && code != 254 && code != 255) ==> table_text(code) == "other"@,
{
    reveal_strlit("unspec");
    reveal_strlit("default");
    reveal_strlit("main");
    reveal_strlit("local");
    reveal_strlit("other");
    assert("unspec"@.len() == 6);
    assert("default"@.len() == 7);
    assert("main"@.len() == 4);
    assert("local"@.len() == 5);
    assert("other"@.len() == 5);
    assert("local"@[0] == 'l' && "other"@[0] == 'o');
}

/// A neighbour state with one bit set goes by the name of that bit, and one
/// without any is unknown.
pub proof fn law_neighbour_states_named(state: u16)
    ensures
        state == 0 ==> nud_state_text(state) == "unknown"@,
        state == 0x80 ==> nud_state_text(state) == "permanent"@,
        state == 0x2 ==> nud_state_text(state) == "reachable"@,
        state == 0x4 ==> nud_state_text(state) == "stale"@,
        state == 0x8 ==> nud_state_text(state) == "delay"@,
        state == 0x10 ==> nud_state_text(state) == "probe"@,
        state == 0x20 ==> nud_state_text(state) == "failed"@,
        state == 0x40 ==> nud_state_text(state) == "noarp"@,
        state == 0x1 ==> nud_state_text(state) == "incomplete"@,
{
    lemma_single_bits();
}

proof fn lemma_single_bits()
    ensures
        forall|m: u16| #[trigger] (0u16 & m) == 0,
        0x80u16 & 0x80u16 != 0,
        0x80u16 & 0x2u16 == 0,
        0x80u16 & 0x4u16 == 0,
        0x80u16 & 0x8u16 == 0,
        0x80u16 & 0x10u16 == 0,
        0x80u16 & 0x20u16 == 0,
        0x80u16 & 0x40u16 == 0,
        0x80u16 & 0x1u16 == 0,
        0x2u16 & 0x80u16 == 0,
        0x2u16 & 0x2u16 != 0,
        0x2u16 & 0x4u16 == 0,
        0x2u16 & 0x8u16 == 0,
        0x2u16 & 0x10u16 == 0,
        0x2u16 & 0x20u16 == 0,
        0x2u16 & 0x40u16 == 0,
        0x2u16 & 0x1u16 == 0,
        0x4u16 & 0x80u16 == 0,
        0x4u16 & 0x2u16 == 0,
        0x4u16 & 0x4u16 != 0,
        0x4u16 & 0x8u16 == 0,
        0x4u16 & 0x10u16 == 0,
        0x4u16 & 0x20u16 == 0,
        0x4u16 & 0x40u16 == 0,
        0x4u16 & 0x1u16 == 0,
        0x8u16 & 0x80u16 == 0,
        0x8u16 & 0x2u16 == 0,
        0x8u16 & 0x4u16 == 0,
        0x8u16 & 0x8u16 != 0,
        0x8u16 & 0x10u16 == 0,
        0x8u16 & 0x20u16 == 0,
        0x8u16 & 0x40u16 == 0,
        0x8u16 & 0x1u16 == 0,
        0x10u16 & 0x80u16 == 0,
        0x10u16 & 0x2u16 == 0,
        0x10u16 & 0x4u16 == 0,
        0x10u16 & 0x8u16 == 0,
        0x10u16 & 0x10u16 != 0,
        0x10u16 & 0x20u16 == 0,
        0x10u16 & 0x40u16 == 0,
        0x10u16 & 0x1u16 == 0,
        0x20u16 & 0x80u16 == 0,
        0x20u16 & 0x2u16 == 0,
        0x20u16 & 0x4u16 == 0,
        0x20u16 & 0x8u16 == 0,
        0x20u16 & 0x10u16 == 0,
        0x20u16 & 0x20u16 != 0,
        0x20u16 & 0x40u16 == 0,
        0x20u16 & 0x1u16 == 0,
        0x40u16 & 0x80u16 == 0,
        0x40u16 & 0x2u16 == 0,
        0x40u16 & 0x4u16 == 0,
        0x40u16 & 0x8u16 == 0,
        0x40u16 & 0x10u16 == 0,
        0x40u16 & 0x20u16 == 0,
        0x40u16 & 0x40u16 != 0,
        0x40u16 & 0x1u16 == 0,
        0x1u16 & 0x80u16 == 0,
        0x1u16 & 0x2u16 == 0,
        0x1u16 & 0x4u16 == 0,
        0x1u16 & 0x8u16 == 0,
        0x1u16 & 0x10u16 == 0,
        0x1u16 & 0x20u16 == 0,
        0x1u16 & 0x40u16 == 0,
        0x1u16 & 0x1u16 != 0,
{
    assert(forall|m: u16| #[trigger] (0u16 & m) == 0) by (bit_vector);
    assert({
        &&& 0x80u16 & 0x80u16 != 0
        &&& 0x80u16 & 0x2u16 == 0
        &&& 0x80u16 & 0x4u16 == 0
        &&& 0x80u16 & 0x8u16 == 0
        &&& 0x80u16 & 0x10u16 == 0
        &&& 0x80u16 & 0x20u16 == 0
        &&& 0x80u16 & 0x40u16 == 0
        &&& 0x80u16 & 0x1u16 == 0
        &&& 0x2u16 & 0x80u16 == 0
        &&& 0x2u16 & 0x2u16 != 0
        &&& 0x2u16 & 0x4u16 == 0
        &&& 0x2u16 & 0x8u16 == 0
        &&& 0x2u16 & 0x10u16 == 0
        &&& 0x2u16 & 0x20u16 == 0
        &&& 0x2u16 & 0x40u16 == 0
        &&& 0x2u16 & 0x1u16 == 0
        &&& 0x4u16 & 0x80u16 == 0
        &&& 0x4u16 & 0x2u16 == 0
        &&& 0x4u16 & 0x4u16 != 0
        &&& 0x4u16 & 0x8u16 == 0
        &&& 0x4u16 & 0x10u16 == 0
        &&& 0x4u16 & 0x20u16 == 0
        &&& 0x4u16 & 0x40u16 == 0
        &&& 0x4u16 & 0x1u16 == 0
        &&& 0x8u16 & 0x80u16 == 0
        &&& 0x8u16 & 0x2u16 == 0
        &&& 0x8u16 & 0x4u16 == 0
        &&& 0x8u16 & 0x8u16 != 0
        &&& 0x8u16 & 0x10u16 == 0
        &&& 0x8u16 & 0x20u16 == 0
        &&& 0x8u16 & 0x40u16 == 0
        &&& 0x8u16 & 0x1u16 == 0
        &&& 0x10u16 & 0x80u16 == 0
        &&& 0x10u16 & 0x2u16 == 0
        &&& 0x10u16 & 0x4u16 == 0
        &&& 0x10u16 & 0x8u16 == 0
        &&& 0x10u16 & 0x10u16 != 0
        &&& 0x10u16 & 0x20u16 == 0
        &&& 0x10u16 & 0x40u16 == 0
        &&& 0x10u16 & 0x1u16 == 0
        &&& 0x20u16 & 0x80u16 == 0
        &&& 0x20u16 & 0x2u16 == 0
        &&& 0x20u16 & 0x4u16 == 0
        &&& 0x20u16 & 0x8u16 == 0
        &&& 0x20u16 & 0x10u16 == 0
        &&& 0x20u16 & 0x20u16 != 0
        &&& 0x20u16 & 0x40u16 == 0
        &&& 0x20u16 & 0x1u16 == 0
        &&& 0x40u16 & 0x80u16 == 0
        &&& 0x40u16 & 0x2u16 == 0
        &&& 0x40u16 & 0x4u16 == 0
        &&& 0x40u16 & 0x8u16 == 0
        &&& 0x40u16 & 0x10u16 == 0
        &&& 0x40u16 & 0x20u16 == 0
        &&& 0x40u16 & 0x40u16 != 0
        &&& 0x40u16 & 0x1u16 == 0
        &&& 0x1u16 & 0x80u16 == 0
        &&& 0x1u16 & 0x2u16 == 0
        &&& 0x1u16 & 0x4u16 == 0
        &&& 0x1u16 & 0x8u16 == 0
        &&& 0x1u16 & 0x10u16 == 0
        &&& 0x1u16 & 0x20u16 == 0
        &&& 0x1u16 & 0x40u16 == 0
        &&& 0x1u16 & 0x1u16 != 0
    }) by (bit_vector);
}

/// The counts go out under the labels of what was counted, each under its own
/// name.
pub proof fn law_counts_exported(
    links: Seq<Vec<u8>>,
    addresses: Seq<Vec<u8>>,
    routes: Seq<Vec<u8>>,
    neighbours: Seq<Vec<u8>>,
    k: Key,
)
    ensures
        ({
            let s = rt_samples(links, addresses, routes, neighbours);
            &&& occurrences(address_keys(addresses), k) > 0 ==> reads(
                s,
                "nft_address_count"@,
                no_labels().insert("family"@, k.0),
                GaugeValue::Whole(occurrences(address_keys(addresses), k) as i128),
            )
            &&& occurrences(route_keys(routes), k) > 0 ==> reads(
                s,
                "nft_route_count"@,
                no_labels().insert("family"@, k.0).insert("table"@, k.1),
                GaugeValue::Whole(occurrences(route_keys(routes), k) as i128),
            )
            &&& occurrences(neighbour_keys(neighbours), k) > 0 ==> reads(
                s,
                "nft_neighbor_count"@,
                no_labels().insert("family"@, k.0).insert("state"@, k.1),
                GaugeValue::Whole(occurrences(neighbour_keys(neighbours), k) as i128),
            )
        }),
{
    let s = rt_samples(links, addresses, routes, neighbours);
    let p0 = flat(parsed(links, link_parser()), per_link());
    let p1 = address_gauges(tally(address_keys(addresses)));
    let p2 = pair_gauges(
        tally(route_keys(routes)),
        "nft_route_count"@,
        "Number of routes by address family and routing table."@,
        "family"@,
        "table"@,
    );
    let p3 = pair_gauges(
        tally(neighbour_keys(neighbours)),
        "nft_neighbor_count"@,
        "Number of neighbour (ARP/NDP) entries by family and state."@,
        "family"@,
        "state"@,
    );
    assert(s =~= p0 + p1 + p2 + p3);
    if occurrences(address_keys(addresses), k) > 0 {
        law_tally_counts(address_keys(addresses), k);
        let i = lemma_entry(tally(address_keys(addresses)), k);
        assert(s[p0.len() + i] == p1[i]);
        assert(is_gauge(
            s[p0.len() + i],
            "nft_address_count"@,
            no_labels().insert("family"@, k.0),
            GaugeValue::Whole(occurrences(address_keys(addresses), k) as i128),
        ));
    }
    if occurrences(route_keys(routes), k) > 0 {
        law_tally_counts(route_keys(routes), k);
        let i = lemma_entry(tally(route_keys(routes)), k);
        assert(s[p0.len() + p1.len() + i] == p2[i]);
        assert(is_gauge(
            s[p0.len() + p1.len() + i],
            "nft_route_count"@,
            no_labels().insert("family"@, k.0).insert("table"@, k.1),
            GaugeValue::Whole(occurrences(route_keys(routes), k) as i128),
        ));
    }
    if occurrences(neighbour_keys(neighbours), k) > 0 {
        law_tally_counts(neighbour_keys(neighbours), k);
        let i = lemma_entry(tally(neighbour_keys(neighbours)), k);
        assert(s[p0.len() + p1.len() + p2.len() + i] == p3[i]);
        assert(is_gauge(
            s[p0.len() + p1.len() + p2.len() + i],
            "nft_neighbor_count"@,
            no_labels().insert("family"@, k.0).insert("state"@, k.1),
            GaugeValue::Whole(occurrences(neighbour_keys(neighbours), k) as i128),
        ));
    }
}

/// A link without a whole header or without a name is none.
pub proof fn law_nameless_link_skipped(frame: Seq<u8>)
    requires
        frame.len() < 16 || last_attr(attrs(frame.skip(16)), 3, 0) is None,
    ensures
        link_of(frame) is None,
{
}

} // verus!
