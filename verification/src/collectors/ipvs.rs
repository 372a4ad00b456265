//! IPVS collector: generic netlink family `IPVS`.
//!
//! Services are dumped first, then the destinations of each service.  The
//! numbers of services and of destinations are capped.
use crate::address::{addr_to_str, address_text, AF_INET, AF_INET6};
use crate::error::{DomainError, TransportError};
use crate::labels::{no_labels, Labels};
use crate::metric::{
    counter_view, counts, gauge_view, holds, is_counter, is_gauge, lemma_holds,
    lemma_holds_through, model_views, opt_view, parsed, push_counter, push_gauge, reads, views,
    whole, GaugeValue, MetricSample, SampleView,
};
use crate::model::ipvs::{IpvsDestination, IpvsDestinationView, IpvsService, IpvsServiceView};
use crate::text::{
    chars_of, dec, dec_text, decoded, hex, parse_unsigned, parsed_unsigned, push_hex, str_eq,
    utf8_lossy,
};
use crate::wire::{
    attr_bytes, attrs, cut_at_nul, find_last, last_attr, native_u16, push_nlattr, read_u16_be, read_u16_or,
    read_u32_or_zero, read_u64_or_zero, u16_be, u16_bytes, u16_ne, u16_or, u32_ne,
    u32_or_zero, u64_ne, u64_or_zero, until_nul, Attr,
};
use vstd::prelude::*;
use vstd::slice::slice_subrange;
use vstd::string::*;

verus! {

/// Generic netlink protocol number.
pub const NETLINK_GENERIC: i32 = 16;

/// Commands and version.
pub const IPVS_CMD_GET_SERVICE: u8 = 4;
pub const IPVS_CMD_GET_DEST: u8 = 8;
pub const IPVS_GENL_VERSION: u8 = 1;

/// Service attributes.
pub const IPVS_SVC_ATTR_AF: u16 = 1;
pub const IPVS_SVC_ATTR_PROTOCOL: u16 = 2;
pub const IPVS_SVC_ATTR_ADDR: u16 = 3;
pub const IPVS_SVC_ATTR_PORT: u16 = 4;
pub const IPVS_SVC_ATTR_FWMARK: u16 = 5;
pub const IPVS_SVC_ATTR_SCHED_NAME: u16 = 6;
pub const IPVS_SVC_ATTR_STATS64: u16 = 11;

/// Destination attributes.
pub const IPVS_DEST_ATTR_ADDR: u16 = 1;
pub const IPVS_DEST_ATTR_PORT: u16 = 2;
pub const IPVS_DEST_ATTR_ACTIVE_CONNS: u16 = 7;
pub const IPVS_DEST_ATTR_INACT_CONNS: u16 = 8;
pub const IPVS_DEST_ATTR_STATS64: u16 = 12;

/// Statistics attributes.
pub const IPVS_STATS_ATTR_CONNS: u16 = 1;
pub const IPVS_STATS_ATTR_INPKTS: u16 = 2;
pub const IPVS_STATS_ATTR_OUTPKTS: u16 = 3;
pub const IPVS_STATS_ATTR_INBYTES: u16 = 4;
pub const IPVS_STATS_ATTR_OUTBYTES: u16 = 5;
pub const IPVS_STATS_ATTR_CPS: u16 = 6;
pub const IPVS_STATS_ATTR_INPPS: u16 = 7;
pub const IPVS_STATS_ATTR_OUTPPS: u16 = 8;
pub const IPVS_STATS_ATTR_INBPS: u16 = 9;
pub const IPVS_STATS_ATTR_OUTBPS: u16 = 10;

/// Most services that are exported.
pub const IPVS_MAX_SERVICES: usize = 512;

/// Most destinations that are exported for one service.
pub const IPVS_MAX_DESTS: usize = 256;

// ---------------------------------------------------------------------------
// Requests
// ---------------------------------------------------------------------------

/// Builds a request that consists of its header alone.
pub fn build_genl_payload(cmd: u8) -> (r: Vec<u8>)
    ensures
        r@ == seq![cmd, IPVS_GENL_VERSION, 0u8, 0u8],
{
    let mut r: Vec<u8> = Vec::new();
    r.push(cmd);
    r.push(IPVS_GENL_VERSION);
    r.push(0);
    r.push(0);
    proof {
        assert(r@ =~= seq![cmd, IPVS_GENL_VERSION, 0u8, 0u8]);
    }
    r
}

/// The protocol number of a protocol name; zero for an unknown name.
pub open spec fn proto_number(proto: Seq<char>) -> u16 {
    if proto == "tcp"@ {
        6
    } else if proto == "udp"@ {
        17
    } else if proto == "sctp"@ {
        132
    } else {
        0
    }
}

/// The address family that an address text belongs to.
pub open spec fn family_of(vip: Seq<char>) -> u16 {
    if vip.contains(':') {
        AF_INET6
    } else {
        AF_INET
    }
}

/// The address attribute of a request; absent without an address.
pub open spec fn addr_attr(octets: Seq<u8>) -> Seq<u8> {
    if octets.len() == 0 {
        seq![]
    } else {
        attr_bytes(IPVS_SVC_ATTR_ADDR, octets)
    }
}

/// The port attribute of a request, in network byte order; absent when the text
/// is no port number.
pub open spec fn port_attr(port: Seq<char>) -> Seq<u8> {
    match parsed_unsigned(port, 10, 0xffff) {
        Some(n) => attr_bytes(IPVS_SVC_ATTR_PORT, seq![(n / 0x100) as u8, (n % 0x100) as u8]),
        None => seq![],
    }
}

/// The attributes of a request for the destinations of a service.
pub open spec fn dest_request_attrs(svc: IpvsServiceView, octets: Seq<u8>) -> Seq<u8> {
    attr_bytes(IPVS_SVC_ATTR_AF, u16_bytes(family_of(svc.vip) as nat)) + attr_bytes(
        IPVS_SVC_ATTR_PROTOCOL,
        u16_bytes(proto_number(svc.proto) as nat),
    ) + addr_attr(octets) + port_attr(svc.port)
}

fn contains_colon(s: &str) -> (r: bool)
    ensures
        r == s@.contains(':'),
{
    let c = chars_of(s);
    let mut i: usize = 0;
    while i < c.len()
        invariant
            i <= c.len(),
            c@ == s@,
            forall|j: int| 0 <= j < i ==> c@[j] != ':',
        decreases c.len() - i,
    {
        if c[i] == ':' {
            proof {
                assert(s@[i as int] == ':');
            }
            return true;
        }
        i += 1;
    }
    false
}

fn proto_from(proto: &str) -> (r: u16)
    ensures
        r == proto_number(proto@),
{
    if str_eq(proto, "tcp") {
        6
    } else if str_eq(proto, "udp") {
        17
    } else if str_eq(proto, "sctp") {
        132
    } else {
        0
    }
}

fn family_from(vip: &str) -> (r: u16)
    ensures
        r == family_of(vip@),
{
    if contains_colon(vip) {
        AF_INET6
    } else {
        AF_INET
    }
}

/// Builds a request for the destinations of a virtual service.
///
/// `vip_octets` are the octets of the address that the service's `vip` writes,
/// in network byte order; empty when it writes none.
pub fn build_dest_request(svc: &IpvsService, vip_octets: &[u8]) -> (r: Vec<u8>)
    requires
        vip_octets@.len() <= 16,
    ensures
        r@ == seq![IPVS_CMD_GET_DEST, IPVS_GENL_VERSION, 0u8, 0u8] + dest_request_attrs(
            svc@,
            vip_octets@,
        ),
{
    let mut buf = build_genl_payload(IPVS_CMD_GET_DEST);
    let ghost head = buf@;
    let af: u16 = family_from(svc.vip.as_str());
    let af_bytes = native_u16(af);
    let proto: u16 = proto_from(svc.proto.as_str());
    let proto_bytes = native_u16(proto);
    push_nlattr(&mut buf, IPVS_SVC_ATTR_AF, af_bytes.as_slice());
    push_nlattr(&mut buf, IPVS_SVC_ATTR_PROTOCOL, proto_bytes.as_slice());
    if vip_octets.len() > 0 {
        push_nlattr(&mut buf, IPVS_SVC_ATTR_ADDR, vip_octets);
    }
    let port = chars_of(svc.port.as_str());
    if let Some(n) = parse_unsigned(port.as_slice(), 10) {
        if n <= 0xffff {
            let port_bytes: [u8; 2] = [(n / 0x100) as u8, (n % 0x100) as u8];
            proof {
                assert(port_bytes@ =~= seq![(n as nat / 0x100) as u8, (n as nat % 0x100) as u8]);
            }
            push_nlattr(&mut buf, IPVS_SVC_ATTR_PORT, port_bytes.as_slice());
        }
    }
    proof {
        assert(buf@ =~= head + dest_request_attrs(svc@, vip_octets@));
    }
    buf
}

// ---------------------------------------------------------------------------
// Replies
// ---------------------------------------------------------------------------

/// 64-bit statistics of a service or destination.
#[derive(Clone, Copy, Debug, PartialEq, Eq)]
pub struct Stats64 {
    /// Connections.
    pub conns: u64,
    /// Incoming packets.
    pub in_pkts: u64,
    /// Outgoing packets.
    pub out_pkts: u64,
    /// Incoming bytes.
    pub in_bytes: u64,
    /// Outgoing bytes.
    pub out_bytes: u64,
    /// Connections per second.
    pub cps: u64,
    /// Incoming packets per second.
    pub in_pps: u64,
    /// Outgoing packets per second.
    pub out_pps: u64,
    /// Incoming bytes per second.
    pub in_bps: u64,
    /// Outgoing bytes per second.
    pub out_bps: u64,
}

/// The statistics in a payload; all zeros without one.
pub open spec fn stats_of(payload: Option<Seq<u8>>) -> Stats64 {
    let a = match payload {
        Some(p) => attrs(p),
        None => seq![],
    };
    Stats64 {
        conns: u64_or_zero(last_attr(a, IPVS_STATS_ATTR_CONNS, 0)),
        in_pkts: u64_or_zero(last_attr(a, IPVS_STATS_ATTR_INPKTS, 0)),
        out_pkts: u64_or_zero(last_attr(a, IPVS_STATS_ATTR_OUTPKTS, 0)),
        in_bytes: u64_or_zero(last_attr(a, IPVS_STATS_ATTR_INBYTES, 0)),
        out_bytes: u64_or_zero(last_attr(a, IPVS_STATS_ATTR_OUTBYTES, 0)),
        cps: u64_or_zero(last_attr(a, IPVS_STATS_ATTR_CPS, 0)),
        in_pps: u64_or_zero(last_attr(a, IPVS_STATS_ATTR_INPPS, 0)),
        out_pps: u64_or_zero(last_attr(a, IPVS_STATS_ATTR_OUTPPS, 0)),
        in_bps: u64_or_zero(last_attr(a, IPVS_STATS_ATTR_INBPS, 0)),
        out_bps: u64_or_zero(last_attr(a, IPVS_STATS_ATTR_OUTBPS, 0)),
    }
}

/// Parses the payload of a statistics attribute.
pub fn parse_stats64(payload: &[u8]) -> (r: Stats64)
    ensures
        r == stats_of(Some(payload@)),
{
    Stats64 {
        conns: read_u64_or_zero(payload, IPVS_STATS_ATTR_CONNS),
        in_pkts: read_u64_or_zero(payload, IPVS_STATS_ATTR_INPKTS),
        out_pkts: read_u64_or_zero(payload, IPVS_STATS_ATTR_OUTPKTS),
        in_bytes: read_u64_or_zero(payload, IPVS_STATS_ATTR_INBYTES),
        out_bytes: read_u64_or_zero(payload, IPVS_STATS_ATTR_OUTBYTES),
        cps: read_u64_or_zero(payload, IPVS_STATS_ATTR_CPS),
        in_pps: read_u64_or_zero(payload, IPVS_STATS_ATTR_INPPS),
        out_pps: read_u64_or_zero(payload, IPVS_STATS_ATTR_OUTPPS),
        in_bps: read_u64_or_zero(payload, IPVS_STATS_ATTR_INBPS),
        out_bps: read_u64_or_zero(payload, IPVS_STATS_ATTR_OUTBPS),
    }
}

fn read_stats(buf: &[u8], ty: u16) -> (r: Stats64)
    ensures
        r == stats_of(last_attr(attrs(buf@), ty, 0)),
{
    match find_last(buf, ty, 0) {
        Some(p) => parse_stats64(p),
        None => Stats64 {
            conns: 0,
            in_pkts: 0,
            out_pkts: 0,
            in_bytes: 0,
            out_bytes: 0,
            cps: 0,
            in_pps: 0,
            out_pps: 0,
            in_bps: 0,
            out_bps: 0,
        },
    }
}

/// The name of a protocol number.
pub open spec fn proto_text(proto: u16) -> Seq<char> {
    match proto {
        6 => "tcp"@,
        17 => "udp"@,
        132 => "sctp"@,
        _ => "unknown"@,
    }
}

/// The port in a payload, in network byte order; zero without a long enough payload.
pub open spec fn port_of(p: Option<Seq<u8>>) -> u16 {
    match p {
        Some(p) if p.len() >= 2 => u16_be(p),
        _ => 0,
    }
}

/// The bytes of a payload; none without one.
pub open spec fn bytes_or_none(p: Option<Seq<u8>>) -> Seq<u8> {
    match p {
        Some(p) => p,
        None => seq![],
    }
}

/// The virtual service that a buffer of attributes describes.  A service with a
/// firewall mark has no address, and the mark in place of a port.
pub open spec fn service_of(buf: Seq<u8>) -> IpvsServiceView {
    let a = attrs(buf);
    let fwmark = u32_or_zero(last_attr(a, IPVS_SVC_ATTR_FWMARK, 0));
    let stats = stats_of(last_attr(a, IPVS_SVC_ATTR_STATS64, 0));
    IpvsServiceView {
        proto: proto_text(u16_or(last_attr(a, IPVS_SVC_ATTR_PROTOCOL, 0), 0)),
        vip: if fwmark != 0 {
            Seq::empty()
        } else {
            address_text(
                u16_or(last_attr(a, IPVS_SVC_ATTR_AF, 0), AF_INET),
                bytes_or_none(last_attr(a, IPVS_SVC_ATTR_ADDR, 0)),
            )
        },
        port: if fwmark != 0 {
            "0x"@ + hex(fwmark as nat)
        } else {
            dec(port_of(last_attr(a, IPVS_SVC_ATTR_PORT, 0)) as nat)
        },
        sched: match last_attr(a, IPVS_SVC_ATTR_SCHED_NAME, 0) {
            Some(p) => decoded(until_nul(p)),
            None => "unknown"@,
        },
        conns: stats.conns,
        in_pkts: stats.in_pkts,
        out_pkts: stats.out_pkts,
        in_bytes: stats.in_bytes,
        out_bytes: stats.out_bytes,
        cps: stats.cps,
        in_pps: stats.in_pps,
        out_pps: stats.out_pps,
        in_bps: stats.in_bps,
        out_bps: stats.out_bps,
    }
}

fn proto_label(proto: u16) -> (r: &'static str)
    ensures
        r@ == proto_text(proto),
{
    match proto {
        6 => "tcp",
        17 => "udp",
        132 => "sctp",
        _ => "unknown",
    }
}

fn read_port(buf: &[u8], ty: u16) -> (r: u16)
    ensures
        r == port_of(last_attr(attrs(buf@), ty, 0)),
{
    match find_last(buf, ty, 0) {
        Some(p) => read_u16_be(p).unwrap_or(0),
        None => 0,
    }
}

fn read_address(buf: &[u8], ty: u16, af: u16) -> (r: String)
    ensures
        r@ == address_text(af, bytes_or_none(last_attr(attrs(buf@), ty, 0))),
{
    match find_last(buf, ty, 0) {
        Some(p) => addr_to_str(af, p),
        None => String::new(),
    }
}

/// Parses the attributes of one virtual service.
pub fn parse_service(attrs_buf: &[u8]) -> (r: Option<IpvsService>)
    ensures
        opt_view(r) == Some(service_of(attrs_buf@)),
{
    let fwmark: u32 = read_u32_or_zero(attrs_buf, IPVS_SVC_ATTR_FWMARK);
    let stats = read_stats(attrs_buf, IPVS_SVC_ATTR_STATS64);
    let proto: u16 = read_u16_or(attrs_buf, IPVS_SVC_ATTR_PROTOCOL, 0);
    let sched = match find_last(attrs_buf, IPVS_SVC_ATTR_SCHED_NAME, 0) {
        Some(p) => utf8_lossy(cut_at_nul(p)),
        None => "unknown".to_owned(),
    };
    let (vip, port) = if fwmark != 0 {
        let mut port = "0x".to_owned();
        push_hex(&mut port, fwmark as u64);
        (String::new(), port)
    } else {
        let af: u16 = read_u16_or(attrs_buf, IPVS_SVC_ATTR_AF, AF_INET);
        (
            read_address(attrs_buf, IPVS_SVC_ATTR_ADDR, af),
            dec_text(read_port(attrs_buf, IPVS_SVC_ATTR_PORT) as u64),
        )
    };
    Some(
        IpvsService {
            proto: proto_label(proto).to_owned(),
            vip,
            port,
            sched,
            conns: stats.conns,
            in_pkts: stats.in_pkts,
            out_pkts: stats.out_pkts,
            in_bytes: stats.in_bytes,
            out_bytes: stats.out_bytes,
            cps: stats.cps,
            in_pps: stats.in_pps,
            out_pps: stats.out_pps,
            in_bps: stats.in_bps,
            out_bps: stats.out_bps,
        },
    )
}

/// The destination of `svc` that a buffer of attributes describes.
pub open spec fn destination_of(buf: Seq<u8>, svc: IpvsServiceView) -> IpvsDestinationView {
    let a = attrs(buf);
    let stats = stats_of(last_attr(a, IPVS_DEST_ATTR_STATS64, 0));
    IpvsDestinationView {
        svc_proto: svc.proto,
        svc_vip: svc.vip,
        svc_port: svc.port,
        rip: address_text(
            family_of(svc.vip),
            bytes_or_none(last_attr(a, IPVS_DEST_ATTR_ADDR, 0)),
        ),
        rport: dec(port_of(last_attr(a, IPVS_DEST_ATTR_PORT, 0)) as nat),
        active_conns: u32_or_zero(last_attr(a, IPVS_DEST_ATTR_ACTIVE_CONNS, 0)),
        inactive_conns: u32_or_zero(last_attr(a, IPVS_DEST_ATTR_INACT_CONNS, 0)),
        conns: stats.conns,
        in_bytes: stats.in_bytes,
        out_bytes: stats.out_bytes,
    }
}

/// Parses the attributes of one destination of `svc`.
pub fn parse_destination(attrs_buf: &[u8], svc: &IpvsService) -> (r: Option<IpvsDestination>)
    ensures
        opt_view(r) == Some(destination_of(attrs_buf@, svc@)),
{
    let stats = read_stats(attrs_buf, IPVS_DEST_ATTR_STATS64);
    let af: u16 = family_from(svc.vip.as_str());
    Some(
        IpvsDestination {
            svc_proto: svc.proto.clone(),
            svc_vip: svc.vip.clone(),
            svc_port: svc.port.clone(),
            rip: read_address(attrs_buf, IPVS_DEST_ATTR_ADDR, af),
            rport: dec_text(read_port(attrs_buf, IPVS_DEST_ATTR_PORT) as u64),
            active_conns: read_u32_or_zero(attrs_buf, IPVS_DEST_ATTR_ACTIVE_CONNS),
            inactive_conns: read_u32_or_zero(attrs_buf, IPVS_DEST_ATTR_INACT_CONNS),
            conns: stats.conns,
            in_bytes: stats.in_bytes,
            out_bytes: stats.out_bytes,
        },
    )
}

/// What a whole frame describes: its attributes follow a 4-byte header.
pub open spec fn service_parser() -> spec_fn(Seq<u8>) -> Option<IpvsServiceView> {
    |frame: Seq<u8>|
        if frame.len() < 4 {
            None
        } else {
            Some(service_of(frame.skip(4)))
        }
}

/// What a whole frame describes of the destinations of `svc`.
pub open spec fn destination_parser(svc: IpvsServiceView) -> spec_fn(Seq<u8>) -> Option<
    IpvsDestinationView,
> {
    |frame: Seq<u8>|
        if frame.len() < 4 {
            None
        } else {
            Some(destination_of(frame.skip(4), svc))
        }
}

/// Parses the frames of a service dump; frames without a header are skipped.
pub fn parse_services(frames: &[Vec<u8>]) -> (r: Vec<IpvsService>)
    ensures
        model_views(r@) == parsed(frames@, service_parser()),
{
    let mut r: Vec<IpvsService> = Vec::new();
    let mut i: usize = 0;
    proof {
        assert(model_views(r@) =~= parsed(frames@.take(0), service_parser()));
    }
    while i < frames.len()
        invariant
            i <= frames.len(),
            model_views(r@) == parsed(frames@.take(i as int), service_parser()),
        decreases frames.len() - i,
    {
        let ghost done = r@;
        proof {
            assert(frames@.take(i as int + 1).drop_last() =~= frames@.take(i as int));
        }
        let frame = frames[i].as_slice();
        if frame.len() >= 4 {
            let body = slice_subrange(frame, 4, frame.len());
            proof {
                assert(body@ =~= frame@.skip(4));
            }
            if let Some(svc) = parse_service(body) {
                r.push(svc);
                proof {
                    assert(model_views(r@) =~= model_views(done).push(svc@));
                }
            }
        }
        i += 1;
    }
    proof {
        assert(frames@.take(i as int) =~= frames@);
    }
    r
}

/// Parses the frames of a destination dump; frames without a header are skipped.
pub fn parse_destinations(frames: &[Vec<u8>], svc: &IpvsService) -> (r: Vec<IpvsDestination>)
    ensures
        model_views(r@) == parsed(frames@, destination_parser(svc@)),
{
    let mut r: Vec<IpvsDestination> = Vec::new();
    let mut i: usize = 0;
    proof {
        assert(model_views(r@) =~= parsed(frames@.take(0), destination_parser(svc@)));
    }
    while i < frames.len()
        invariant
            i <= frames.len(),
            model_views(r@) == parsed(frames@.take(i as int), destination_parser(svc@)),
        decreases frames.len() - i,
    {
        let ghost done = r@;
        proof {
            assert(frames@.take(i as int + 1).drop_last() =~= frames@.take(i as int));
        }
        let frame = frames[i].as_slice();
        if frame.len() >= 4 {
            let body = slice_subrange(frame, 4, frame.len());
            proof {
                assert(body@ =~= frame@.skip(4));
            }
            if let Some(dest) = parse_destination(body, svc) {
                r.push(dest);
                proof {
                    assert(model_views(r@) =~= model_views(done).push(dest@));
                }
            }
        }
        i += 1;
    }
    proof {
        assert(frames@.take(i as int) =~= frames@);
    }
    r
}

// ---------------------------------------------------------------------------
// Samples
// ---------------------------------------------------------------------------

/// The labels of a service.
pub open spec fn service_labels(svc: IpvsServiceView) -> Map<Seq<char>, Seq<char>> {
    no_labels().insert("proto"@, svc.proto).insert("vip"@, svc.vip).insert("port"@, svc.port)
}

/// The labels of a service.
pub fn svc_labels(svc: &IpvsService) -> (r: Labels)
    ensures
        r@ == service_labels(svc@),
{
    Labels::new().with("proto", svc.proto.as_str()).with("vip", svc.vip.as_str()).with(
        "port",
        svc.port.as_str(),
    )
}

/// The samples of a service with the given labels.
pub open spec fn svc_samples(
    svc: IpvsServiceView,
    labels: Map<Seq<char>, Seq<char>>,
) -> Seq<SampleView> {
    seq![
        counter_view(
            "nft_ipvs_connections_total"@,
            "IPVS virtual service total connections."@,
            labels,
            svc.conns,
        ),
        counter_view(
            "nft_ipvs_incoming_packets_total"@,
            "IPVS virtual service incoming packets."@,
            labels,
            svc.in_pkts,
        ),
        counter_view(
            "nft_ipvs_outgoing_packets_total"@,
            "IPVS virtual service outgoing packets."@,
            labels,
            svc.out_pkts,
        ),
        counter_view(
            "nft_ipvs_incoming_bytes_total"@,
            "IPVS virtual service incoming bytes."@,
            labels,
            svc.in_bytes,
        ),
        counter_view(
            "nft_ipvs_outgoing_bytes_total"@,
            "IPVS virtual service outgoing bytes."@,
            labels,
            svc.out_bytes,
        ),
        gauge_view(
            "nft_ipvs_connections_per_second"@,
            "IPVS virtual service EMA connections per second."@,
            labels,
            whole(svc.cps as int),
        ),
        gauge_view(
            "nft_ipvs_incoming_packets_per_second"@,
            "IPVS virtual service EMA incoming packets per second."@,
            labels,
            whole(svc.in_pps as int),
        ),
        gauge_view(
            "nft_ipvs_outgoing_packets_per_second"@,
            "IPVS virtual service EMA outgoing packets per second."@,
            labels,
            whole(svc.out_pps as int),
        ),
        gauge_view(
            "nft_ipvs_incoming_bytes_per_second"@,
            "IPVS virtual service EMA incoming bytes per second."@,
            labels,
            whole(svc.in_bps as int),
        ),
        gauge_view(
            "nft_ipvs_outgoing_bytes_per_second"@,
            "IPVS virtual service EMA outgoing bytes per second."@,
            labels,
            whole(svc.out_bps as int),
        ),
    ]
}

/// Appends the samples of a service.
pub fn push_svc_metrics(out: &mut Vec<MetricSample>, svc: &IpvsService, labels: &Labels)
    ensures
        views(final(out)@) == views(old(out)@) + svc_samples(svc@, labels@),
{
    let ghost start = views(out@);
    push_counter(
        out,
        "nft_ipvs_connections_total",
        "IPVS virtual service total connections.",
        labels,
        svc.conns,
    );
    push_counter(
        out,
        "nft_ipvs_incoming_packets_total",
        "IPVS virtual service incoming packets.",
        labels,
        svc.in_pkts,
    );
    push_counter(
        out,
        "nft_ipvs_outgoing_packets_total",
        "IPVS virtual service outgoing packets.",
        labels,
        svc.out_pkts,
    );
    push_counter(
        out,
        "nft_ipvs_incoming_bytes_total",
        "IPVS virtual service incoming bytes.",
        labels,
        svc.in_bytes,
    );
    push_counter(
        out,
        "nft_ipvs_outgoing_bytes_total",
        "IPVS virtual service outgoing bytes.",
        labels,
        svc.out_bytes,
    );
    push_gauge(
        out,
        "nft_ipvs_connections_per_second",
        "IPVS virtual service EMA connections per second.",
        labels,
        GaugeValue::Whole(svc.cps as i128),
    );
    push_gauge(
        out,
        "nft_ipvs_incoming_packets_per_second",
        "IPVS virtual service EMA incoming packets per second.",
        labels,
        GaugeValue::Whole(svc.in_pps as i128),
    );
    push_gauge(
        out,
        "nft_ipvs_outgoing_packets_per_second",
        "IPVS virtual service EMA outgoing packets per second.",
        labels,
        GaugeValue::Whole(svc.out_pps as i128),
    );
    push_gauge(
        out,
        "nft_ipvs_incoming_bytes_per_second",
        "IPVS virtual service EMA incoming bytes per second.",
        labels,
        GaugeValue::Whole(svc.in_bps as i128),
    );
    push_gauge(
        out,
        "nft_ipvs_outgoing_bytes_per_second",
        "IPVS virtual service EMA outgoing bytes per second.",
        labels,
        GaugeValue::Whole(svc.out_bps as i128),
    );
    proof {
        assert(views(out@) =~= start + svc_samples(svc@, labels@));
    }
}

/// The samples of a destination of `svc`.
pub open spec fn dest_samples(svc: IpvsServiceView, dest: IpvsDestinationView) -> Seq<SampleView> {
    let labels = service_labels(svc).insert("rip"@, dest.rip).insert("rport"@, dest.rport);
    seq![
        gauge_view(
            "nft_ipvs_dest_active_connections"@,
            "IPVS destination current active connections."@,
            labels,
            whole(dest.active_conns as int),
        ),
        gauge_view(
            "nft_ipvs_dest_inactive_connections"@,
            "IPVS destination current inactive connections."@,
            labels,
            whole(dest.inactive_conns as int),
        ),
        counter_view(
            "nft_ipvs_dest_connections_total"@,
            "IPVS destination total connections."@,
            labels,
            dest.conns,
        ),
        counter_view(
            "nft_ipvs_dest_incoming_bytes_total"@,
            "IPVS destination total incoming bytes."@,
            labels,
            dest.in_bytes,
        ),
        counter_view(
            "nft_ipvs_dest_outgoing_bytes_total"@,
            "IPVS destination total outgoing bytes."@,
            labels,
            dest.out_bytes,
        ),
    ]
}

/// Appends the samples of a destination of `svc`.
pub fn push_dest_metrics(out: &mut Vec<MetricSample>, svc: &IpvsService, dest: &IpvsDestination)
    ensures
        views(final(out)@) == views(old(out)@) + dest_samples(svc@, dest@),
{
    let ghost start = views(out@);
    let labels = svc_labels(svc).with("rip", dest.rip.as_str()).with("rport", dest.rport.as_str());
    push_gauge(
        out,
        "nft_ipvs_dest_active_connections",
        "IPVS destination current active connections.",
        &labels,
        GaugeValue::Whole(dest.active_conns as i128),
    );
    push_gauge(
        out,
        "nft_ipvs_dest_inactive_connections",
        "IPVS destination current inactive connections.",
        &labels,
        GaugeValue::Whole(dest.inactive_conns as i128),
    );
    push_counter(
        out,
        "nft_ipvs_dest_connections_total",
        "IPVS destination total connections.",
        &labels,
        dest.conns,
    );
    push_counter(
        out,
        "nft_ipvs_dest_incoming_bytes_total",
        "IPVS destination total incoming bytes.",
        &labels,
        dest.in_bytes,
    );
    push_counter(
        out,
        "nft_ipvs_dest_outgoing_bytes_total",
        "IPVS destination total outgoing bytes.",
        &labels,
        dest.out_bytes,
    );
    proof {
        assert(views(out@) =~= start + dest_samples(svc@, dest@));
    }
}

/// The samples of the first `n` destinations of `svc`.
pub open spec fn dests_samples(
    svc: IpvsServiceView,
    dests: Seq<IpvsDestinationView>,
    n: nat,
) -> Seq<SampleView>
    decreases n,
{
    if n == 0 {
        seq![]
    } else {
        dests_samples(svc, dests, (n - 1) as nat) + dest_samples(svc, dests[n - 1])
    }
}

/// At most `cap` of `n`.
pub open spec fn capped(n: nat, cap: nat) -> nat {
    if n <= cap {
        n
    } else {
        cap
    }
}

/// The samples of the first `n` services, each followed by those of its
/// destinations.
pub open spec fn ipvs_samples(
    services: Seq<IpvsServiceView>,
    dests: Seq<Seq<IpvsDestinationView>>,
    n: nat,
) -> Seq<SampleView>
    decreases n,
{
    if n == 0 {
        seq![]
    } else {
        let svc = services[n - 1];
        let own = dests[n - 1];
        ipvs_samples(services, dests, (n - 1) as nat) + svc_samples(svc, service_labels(svc))
            + dests_samples(svc, own, capped(own.len(), IPVS_MAX_DESTS as nat))
    }
}

/// The views of the destinations of several services.
pub open spec fn dest_views(v: Seq<Vec<IpvsDestination>>) -> Seq<Seq<IpvsDestinationView>> {
    v.map_values(|d: Vec<IpvsDestination>| model_views(d@))
}

fn push_dests(out: &mut Vec<MetricSample>, svc: &IpvsService, dests: &Vec<IpvsDestination>)
    ensures
        views(final(out)@) == views(old(out)@) + dests_samples(
            svc@,
            model_views(dests@),
            capped(dests@.len(), IPVS_MAX_DESTS as nat),
        ),
{
    let ghost start = views(out@);
    let limit: usize = if dests.len() <= IPVS_MAX_DESTS {
        dests.len()
    } else {
        IPVS_MAX_DESTS
    };
    let mut i: usize = 0;
    proof {
        assert(start + dests_samples(svc@, model_views(dests@), 0) =~= start);
    }
    while i < limit
        invariant
            i <= limit <= dests@.len(),
            views(out@) == start + dests_samples(svc@, model_views(dests@), i as nat),
        decreases limit - i,
    {
        push_dest_metrics(out, svc, &dests[i]);
        proof {
            let done = dests_samples(svc@, model_views(dests@), i as nat);
            let own = dest_samples(svc@, dests@[i as int]@);
            assert(model_views(dests@)[i as int] == dests@[i as int]@);
            assert(start + (done + own) =~= (start + done) + own);
        }
        i += 1;
    }
}

/// Collector for IPVS services and destinations.
pub struct IpvsCollector;

impl IpvsCollector {
    /// Name of the collector.
    pub fn name(&self) -> (r: &'static str)
        ensures
            r@ == "ipvs"@,
    {
        "ipvs"
    }

    /// Number of services whose destinations are asked for, of `n` services.
    pub fn queried(&self, n: usize) -> (r: usize)
        ensures
            r == capped(n as nat, IPVS_MAX_SERVICES as nat),
    {
        if n <= IPVS_MAX_SERVICES {
            n
        } else {
            IPVS_MAX_SERVICES
        }
    }

    /// Turns services and the destinations of each into samples.  Services and
    /// destinations beyond the caps are left out.
    pub fn collect(&self, services: &[IpvsService], dests: &[Vec<IpvsDestination>]) -> (r: Vec<
        MetricSample,
    >)
        requires
            dests@.len() >= capped(services@.len(), IPVS_MAX_SERVICES as nat),
        ensures
            views(r@) == ipvs_samples(
                model_views(services@),
                dest_views(dests@),
                capped(services@.len(), IPVS_MAX_SERVICES as nat),
            ),
    {
        let limit: usize = self.queried(services.len());
        let mut out: Vec<MetricSample> = Vec::new();
        let mut i: usize = 0;
        proof {
            assert(views(out@) =~= ipvs_samples(model_views(services@), dest_views(dests@), 0));
        }
        while i < limit
            invariant
                i <= limit <= services@.len(),
                limit <= dests@.len(),
                views(out@) == ipvs_samples(
                    model_views(services@),
                    dest_views(dests@),
                    i as nat,
                ),
            decreases limit - i,
        {
            let svc = &services[i];
            let labels = svc_labels(svc);
            push_svc_metrics(&mut out, svc, &labels);
            push_dests(&mut out, svc, &dests[i]);
            proof {
                assert(model_views(services@)[i as int] == svc@);
                assert(dest_views(dests@)[i as int] == model_views(dests@[i as int]@));
            }
            i += 1;
        }
        out
    }
}

/// The text of the error for a failed service dump.
pub open spec fn dump_error_text(e: TransportError) -> Seq<char> {
    match e {
        TransportError::DumpIntr => "IPVS service dump interrupted"@,
        _ => e.text(),
    }
}

/// The error for a failed service dump.
pub fn dump_error(e: TransportError) -> (r: DomainError)
    ensures
        r matches DomainError::Collector(message) && message@ == dump_error_text(e),
{
    match e {
        TransportError::DumpIntr => DomainError::Collector(
            "IPVS service dump interrupted".to_owned(),
        ),
        other => DomainError::Collector(other.message()),
    }
}

// ---------------------------------------------------------------------------
// Laws
// ---------------------------------------------------------------------------

/// The caps hold whatever the kernel reports: ten samples for each of at most
/// 512 services, and five for each of at most 256 destinations of a service.
pub proof fn law_samples_bounded(
    services: Seq<IpvsServiceView>,
    dests: Seq<Seq<IpvsDestinationView>>,
)
    ensures
        ipvs_samples(services, dests, capped(services.len(), IPVS_MAX_SERVICES as nat)).len()
            <= IPVS_MAX_SERVICES * (10 + 5 * IPVS_MAX_DESTS),
{
    lemma_samples_len(services, dests, capped(services.len(), IPVS_MAX_SERVICES as nat));
}

proof fn lemma_samples_len(
    services: Seq<IpvsServiceView>,
    dests: Seq<Seq<IpvsDestinationView>>,
    n: nat,
)
    ensures
        ipvs_samples(services, dests, n).len() <= n * 1290,
    decreases n,
{
    if n > 0 {
        lemma_samples_len(services, dests, (n - 1) as nat);
        let own = dests[n - 1];
        lemma_dests_len(services[n - 1], own, capped(own.len(), IPVS_MAX_DESTS as nat));
    }
}

proof fn lemma_dests_len(svc: IpvsServiceView, dests: Seq<IpvsDestinationView>, n: nat)
    ensures
        dests_samples(svc, dests, n).len() == 5 * n,
    decreases n,
{
    if n > 0 {
        lemma_dests_len(svc, dests, (n - 1) as nat);
    }
}

/// A request names the service it asks about: it parses back to the address
/// family and the protocol, and to the address and the port where the service
/// has them.
pub proof fn law_request_names_service(svc: IpvsServiceView, octets: Seq<u8>)
    requires
        octets.len() <= 16,
    ensures
        attrs(dest_request_attrs(svc, octets)) == seq![
            (IPVS_SVC_ATTR_AF, u16_bytes(family_of(svc.vip) as nat)),
            (IPVS_SVC_ATTR_PROTOCOL, u16_bytes(proto_number(svc.proto) as nat)),
        ] + (if octets.len() == 0 {
            seq![]
        } else {
            seq![(IPVS_SVC_ATTR_ADDR, octets)]
        }) + (match parsed_unsigned(svc.port, 10, 0xffff) {
            Some(n) => seq![
                (IPVS_SVC_ATTR_PORT, seq![(n / 0x100) as u8, (n % 0x100) as u8]),
            ],
            None => seq![],
        }),
{
    let af = u16_bytes(family_of(svc.vip) as nat);
    let proto = u16_bytes(proto_number(svc.proto) as nat);
    let port = port_attr(svc.port);
    let addr = addr_attr(octets);
    let tail2 = addr + port;
    let tail1 = attr_bytes(IPVS_SVC_ATTR_PROTOCOL, proto) + tail2;
    let whole_request = dest_request_attrs(svc, octets);
    assert(whole_request =~= attr_bytes(IPVS_SVC_ATTR_AF, af) + tail1);
    crate::wire::law_attr_round_trip(IPVS_SVC_ATTR_AF, af, tail1);
    crate::wire::law_attr_round_trip(IPVS_SVC_ATTR_PROTOCOL, proto, tail2);
    assert(attrs(seq![]) =~= seq![]);
    let ports: Seq<Attr> = match parsed_unsigned(svc.port, 10, 0xffff) {
        Some(n) => seq![(IPVS_SVC_ATTR_PORT, seq![(n / 0x100) as u8, (n % 0x100) as u8])],
        None => seq![],
    };
    match parsed_unsigned(svc.port, 10, 0xffff) {
        Some(n) => {
            let bytes = seq![(n / 0x100) as u8, (n % 0x100) as u8];
            crate::wire::law_attr_round_trip(IPVS_SVC_ATTR_PORT, bytes, seq![]);
            assert(port + seq![] =~= port);
        },
        None => {},
    }
    assert(attrs(port) =~= ports);
    let addrs: Seq<Attr> = if octets.len() == 0 {
        seq![]
    } else {
        seq![(IPVS_SVC_ATTR_ADDR, octets)]
    };
    if octets.len() > 0 {
        crate::wire::law_attr_round_trip(IPVS_SVC_ATTR_ADDR, octets, port);
        assert(attrs(tail2) =~= addrs + ports);
    } else {
        assert(tail2 =~= port);
        assert(attrs(tail2) =~= addrs + ports);
    }
    assert(attrs(whole_request) =~= seq![(IPVS_SVC_ATTR_AF, af), (IPVS_SVC_ATTR_PROTOCOL, proto)]
        + addrs + ports);
}

/// The destinations of a service are read in the family of the service: the
/// family that is told from the address text is the one the service reported.
pub proof fn law_family_recovered(octets: Seq<u8>)
    ensures
        octets.len() >= 4 ==> family_of(address_text(AF_INET, octets)) == AF_INET,
        octets.len() >= 16 ==> family_of(address_text(AF_INET6, octets)) == AF_INET6,
{
    crate::address::law_colon_means_ipv6(octets);
}

/// The last attribute of a type in a sequence of two parts.
proof fn lemma_last_in_parts(a: Seq<Attr>, b: Seq<Attr>, ty: u16)
    ensures
        last_attr(a + b, ty, 0) == match last_attr(b, ty, 0) {
            Some(p) => Some(p),
            None => last_attr(a, ty, 0),
        },
    decreases b.len(),
{
    if b.len() == 0 {
        assert(a + b =~= a);
    } else {
        assert((a + b).drop_last() =~= a + b.drop_last());
        lemma_last_in_parts(a, b.drop_last(), ty);
    }
}

/// A request asks about the very service it was built for: where the octets are
/// those that the service's address writes, its attributes parse back to the
/// protocol, the address and the port of the service.
pub proof fn law_request_round_trip(
    svc: IpvsServiceView,
    af: u16,
    octets: Seq<u8>,
    proto: u16,
    port: u16,
)
    requires
        (af == AF_INET && octets.len() == 4) || (af == AF_INET6 && octets.len() == 16),
        svc.vip == address_text(af, octets),
        svc.proto == proto_text(proto),
        svc.port == dec(port as nat),
    ensures
        service_of(dest_request_attrs(svc, octets)).vip == svc.vip,
        service_of(dest_request_attrs(svc, octets)).proto == svc.proto,
        service_of(dest_request_attrs(svc, octets)).port == svc.port,
{
    law_request_names_service(svc, octets);
    law_family_recovered(octets);
    crate::text::law_unsigned_round_trip(port as u64);
    reveal_strlit("tcp");
    reveal_strlit("udp");
    reveal_strlit("sctp");
    reveal_strlit("unknown");
    assert("tcp"@[0] != "udp"@[0]);
    assert("tcp"@.len() != "sctp"@.len());
    assert("udp"@.len() != "sctp"@.len());
    assert("unknown"@.len() != "tcp"@.len());
    assert("unknown"@.len() != "udp"@.len());
    assert("unknown"@.len() != "sctp"@.len());
    let a = attrs(dest_request_attrs(svc, octets));
    let family = u16_bytes(family_of(svc.vip) as nat);
    let protocol = u16_bytes(proto_number(svc.proto) as nat);
    let ports = seq![(port as nat / 0x100) as u8, (port as nat % 0x100) as u8];
    let one = seq![(IPVS_SVC_ATTR_AF, family)];
    let two = seq![(IPVS_SVC_ATTR_PROTOCOL, protocol)];
    let three = seq![(IPVS_SVC_ATTR_ADDR, octets)];
    let four = seq![(IPVS_SVC_ATTR_PORT, ports)];
    assert(a =~= one + two + three + four);
    assert forall|ty: u16|
        last_attr(a, ty, 0) == if ty == IPVS_SVC_ATTR_PORT {
            Some(ports)
        } else if ty == IPVS_SVC_ATTR_ADDR {
            Some(octets)
        } else if ty == IPVS_SVC_ATTR_PROTOCOL {
            Some(protocol)
        } else if ty == IPVS_SVC_ATTR_AF {
            Some(family)
        } else {
            None
        } by {
        lemma_last_in_parts(one + two + three, four, ty);
        lemma_last_in_parts(one + two, three, ty);
        lemma_last_in_parts(one, two, ty);
        lemma_single(one[0], ty);
        lemma_single(two[0], ty);
        lemma_single(three[0], ty);
        lemma_single(four[0], ty);
    }
}

proof fn lemma_single(x: Attr, ty: u16)
    ensures
        last_attr(seq![x], ty, 0) == if x.0 == ty {
            Some(x.1)
        } else {
            None
        },
{
    assert(seq![x].drop_last() =~= seq![]);
    assert(last_attr(seq![x].drop_last(), ty, 0) is None);
}

/// The number in the last attribute `ty`; zero where it is missing or short.
pub open spec fn number_at(a: Seq<Attr>, ty: u16) -> u64 {
    match last_attr(a, ty, 0) {
        Some(p) => if p.len() >= 8 {
            u64_ne(p)
        } else {
            0
        },
        None => 0,
    }
}

/// The short number in the last attribute `ty`; zero where it is missing or
/// short.
pub open spec fn small_at(a: Seq<Attr>, ty: u16) -> u32 {
    match last_attr(a, ty, 0) {
        Some(p) => if p.len() >= 4 {
            u32_ne(p)
        } else {
            0
        },
        None => 0,
    }
}

/// Every statistic of a service goes out under its own name: the sample of a
/// name carries the number of the attribute that the kernel keeps for it, from
/// the frame to the sample.
pub proof fn law_service_statistics_named(
    buf: Seq<u8>,
    payload: Seq<u8>,
    labels: Map<Seq<char>, Seq<char>>,
    stats: Seq<Attr>,
    s: Seq<SampleView>,
)
    requires
        last_attr(attrs(buf), 11, 0) == Some(payload),
        stats == attrs(payload),
        s == svc_samples(service_of(buf), labels),
    ensures
        s.len() == 10,
        counts(s, "nft_ipvs_connections_total"@, labels, number_at(stats, 1)),
        counts(s, "nft_ipvs_incoming_packets_total"@, labels, number_at(stats, 2)),
        counts(s, "nft_ipvs_outgoing_packets_total"@, labels, number_at(stats, 3)),
        counts(s, "nft_ipvs_incoming_bytes_total"@, labels, number_at(stats, 4)),
        counts(s, "nft_ipvs_outgoing_bytes_total"@, labels, number_at(stats, 5)),
        reads(
            s,
            "nft_ipvs_connections_per_second"@,
            labels,
            GaugeValue::Whole(number_at(stats, 6) as i128),
        ),
        reads(
            s,
            "nft_ipvs_incoming_packets_per_second"@,
            labels,
            GaugeValue::Whole(number_at(stats, 7) as i128),
        ),
        reads(
            s,
            "nft_ipvs_outgoing_packets_per_second"@,
            labels,
            GaugeValue::Whole(number_at(stats, 8) as i128),
        ),
        reads(
            s,
            "nft_ipvs_incoming_bytes_per_second"@,
            labels,
            GaugeValue::Whole(number_at(stats, 9) as i128),
        ),
        reads(
            s,
            "nft_ipvs_outgoing_bytes_per_second"@,
            labels,
            GaugeValue::Whole(number_at(stats, 10) as i128),
        ),
{
    assert(is_counter(s[0], "nft_ipvs_connections_total"@, labels, number_at(stats, 1)));
    assert(is_counter(s[1], "nft_ipvs_incoming_packets_total"@, labels, number_at(stats, 2)));
    assert(is_counter(s[2], "nft_ipvs_outgoing_packets_total"@, labels, number_at(stats, 3)));
    assert(is_counter(s[3], "nft_ipvs_incoming_bytes_total"@, labels, number_at(stats, 4)));
    assert(is_counter(s[4], "nft_ipvs_outgoing_bytes_total"@, labels, number_at(stats, 5)));
    assert(is_gauge(
        s[5],
        "nft_ipvs_connections_per_second"@,
        labels,
        GaugeValue::Whole(number_at(stats, 6) as i128),
    ));
    assert(is_gauge(
        s[6],
        "nft_ipvs_incoming_packets_per_second"@,
        labels,
        GaugeValue::Whole(number_at(stats, 7) as i128),
    ));
    assert(is_gauge(
        s[7],
        "nft_ipvs_outgoing_packets_per_second"@,
        labels,
        GaugeValue::Whole(number_at(stats, 8) as i128),
    ));
    assert(is_gauge(
        s[8],
        "nft_ipvs_incoming_bytes_per_second"@,
        labels,
        GaugeValue::Whole(number_at(stats, 9) as i128),
    ));
    assert(is_gauge(
        s[9],
        "nft_ipvs_outgoing_bytes_per_second"@,
        labels,
        GaugeValue::Whole(number_at(stats, 10) as i128),
    ));
}

/// A service without statistics has only zeros.
pub proof fn law_no_statistics_no_numbers(buf: Seq<u8>)
    requires
        last_attr(attrs(buf), 11, 0) is None,
    ensures
        ({
            let v = service_of(buf);
            &&& v.conns == 0 && v.in_pkts == 0 && v.out_pkts == 0 && v.in_bytes == 0
            &&& v.out_bytes == 0 && v.cps == 0 && v.in_pps == 0 && v.out_pps == 0
            &&& v.in_bps == 0 && v.out_bps == 0
        }),
{
}

/// A service is told apart by its own protocol, address and port: each label
/// carries the attribute that it is named after.
pub proof fn law_service_labels_named(
    buf: Seq<u8>,
    af: Seq<u8>,
    proto: Seq<u8>,
    addr: Seq<u8>,
    port: Seq<u8>,
)
    requires
        last_attr(attrs(buf), 1, 0) == Some(af),
        last_attr(attrs(buf), 2, 0) == Some(proto),
        last_attr(attrs(buf), 3, 0) == Some(addr),
        last_attr(attrs(buf), 4, 0) == Some(port),
        small_at(attrs(buf), 5) == 0,
        af.len() >= 2,
        proto.len() >= 2,
        port.len() >= 2,
    ensures
        ({
            let l = service_labels(service_of(buf));
            &&& l["vip"@] == address_text(u16_ne(af), addr)
            &&& l["port"@] == dec((port[0] * 0x100 + port[1]) as nat)
            &&& u16_ne(proto) == 6 ==> l["proto"@] == "tcp"@
            &&& u16_ne(proto) == 17 ==> l["proto"@] == "udp"@
            &&& u16_ne(proto) == 132 ==> l["proto"@] == "sctp"@
        }),
{
    reveal_strlit("proto");
    reveal_strlit("vip");
    reveal_strlit("port");
    assert("proto"@.len() == 5 && "vip"@.len() == 3 && "port"@.len() == 4);
}

/// A service with a firewall mark has the mark in place of its port, and no
/// address.
pub proof fn law_firewall_mark_shown(buf: Seq<u8>, mark: Seq<u8>)
    requires
        last_attr(attrs(buf), 5, 0) == Some(mark),
        mark.len() >= 4,
        u32_ne(mark) != 0,
    ensures
        service_of(buf).vip.len() == 0,
        service_of(buf).port == seq!['0', 'x'] + hex(u32_ne(mark) as nat),
        last_attr(attrs(buf), 2, 0) matches Some(proto) ==> proto.len() >= 2 ==> service_of(
            buf,
        ).proto == proto_text(u16_ne(proto)),
{
    reveal_strlit("0x");
    assert("0x"@ =~= seq!['0', 'x']);
}

/// A destination without statistics has only zeros in their place.
pub proof fn law_destination_without_statistics(buf: Seq<u8>, svc: IpvsServiceView)
    requires
        last_attr(attrs(buf), 12, 0) is None,
    ensures
        destination_of(buf, svc).conns == 0,
        destination_of(buf, svc).in_bytes == 0,
        destination_of(buf, svc).out_bytes == 0,
{
}

/// Every number of a destination goes out under its own name, with the labels of
/// its service and its own address and port.
pub proof fn law_destination_statistics_named(
    buf: Seq<u8>,
    svc: IpvsServiceView,
    payload: Seq<u8>,
    a: Seq<Attr>,
    stats: Seq<Attr>,
    labels: Map<Seq<char>, Seq<char>>,
    s: Seq<SampleView>,
)
    requires
        a == attrs(buf),
        last_attr(a, 12, 0) == Some(payload),
        stats == attrs(payload),
        labels == service_labels(svc).insert("rip"@, destination_of(buf, svc).rip).insert(
            "rport"@,
            destination_of(buf, svc).rport,
        ),
        s == dest_samples(svc, destination_of(buf, svc)),
    ensures
        s.len() == 5,
        reads(
            s,
            "nft_ipvs_dest_active_connections"@,
            labels,
            GaugeValue::Whole(small_at(a, 7) as i128),
        ),
        reads(
            s,
            "nft_ipvs_dest_inactive_connections"@,
            labels,
            GaugeValue::Whole(small_at(a, 8) as i128),
        ),
        counts(s, "nft_ipvs_dest_connections_total"@, labels, number_at(stats, 1)),
        counts(s, "nft_ipvs_dest_incoming_bytes_total"@, labels, number_at(stats, 4)),
        counts(s, "nft_ipvs_dest_outgoing_bytes_total"@, labels, number_at(stats, 5)),
{
    assert(is_gauge(
        s[0],
        "nft_ipvs_dest_active_connections"@,
        labels,
        GaugeValue::Whole(small_at(a, 7) as i128),
    ));
    assert(is_gauge(
        s[1],
        "nft_ipvs_dest_inactive_connections"@,
        labels,
        GaugeValue::Whole(small_at(a, 8) as i128),
    ));
    assert(is_counter(s[2], "nft_ipvs_dest_connections_total"@, labels, number_at(stats, 1)));
    assert(is_counter(s[3], "nft_ipvs_dest_incoming_bytes_total"@, labels, number_at(stats, 4)));
    assert(is_counter(s[4], "nft_ipvs_dest_outgoing_bytes_total"@, labels, number_at(stats, 5)));
}

/// A destination is told apart by the address and the port that it reports.
pub proof fn law_destination_address(
    buf: Seq<u8>,
    svc: IpvsServiceView,
    addr: Seq<u8>,
    port: Seq<u8>,
)
    requires
        last_attr(attrs(buf), 1, 0) == Some(addr),
        last_attr(attrs(buf), 2, 0) == Some(port),
        port.len() >= 2,
    ensures
        destination_of(buf, svc).rport == dec((port[0] * 0x100 + port[1]) as nat),
        !svc.vip.contains(':') ==> destination_of(buf, svc).rip == address_text(2, addr),
        svc.vip.contains(':') ==> destination_of(buf, svc).rip == address_text(10, addr),
{
}

/// Within the caps no service and no destination is lost: the samples of each
/// stand among all in one piece.
pub proof fn law_services_exported(
    services: Seq<IpvsServiceView>,
    dests: Seq<Seq<IpvsDestinationView>>,
    n: nat,
    i: int,
)
    requires
        0 <= i < n <= services.len(),
        n <= dests.len(),
    ensures
        holds(
            ipvs_samples(services, dests, n),
            svc_samples(services[i], service_labels(services[i])),
        ),
        forall|j: int|
            0 <= j < dests[i].len() && j < 256 ==> holds(
                ipvs_samples(services, dests, n),
                #[trigger] dest_samples(services[i], dests[i][j]),
            ),
    decreases n,
{
    let all = ipvs_samples(services, dests, n);
    let before = ipvs_samples(services, dests, (n - 1) as nat);
    let svc = services[n - 1];
    let own = svc_samples(svc, service_labels(svc));
    let cap = capped(dests[n - 1].len(), IPVS_MAX_DESTS as nat);
    let rest = dests_samples(svc, dests[n - 1], cap);
    if i == n - 1 {
        lemma_holds(all, before, own, rest);
        assert(before + own + rest + seq![] =~= all);
        lemma_holds(all, before + own, rest, seq![]);
        assert forall|j: int| 0 <= j < dests[i].len() && j < 256 implies holds(
            all,
            #[trigger] dest_samples(services[i], dests[i][j]),
        ) by {
            lemma_dest_held(svc, dests[i], cap, j);
            lemma_holds_through(all, rest, dest_samples(svc, dests[i][j]));
        }
    } else {
        law_services_exported(services, dests, (n - 1) as nat, i);
        assert(all =~= seq![] + before + (own + rest));
        lemma_holds(all, seq![], before, own + rest);
        lemma_holds_through(all, before, svc_samples(services[i], service_labels(services[i])));
        assert forall|j: int| 0 <= j < dests[i].len() && j < 256 implies holds(
            all,
            #[trigger] dest_samples(services[i], dests[i][j]),
        ) by {
            lemma_holds_through(all, before, dest_samples(services[i], dests[i][j]));
        }
    }
}

proof fn lemma_dest_held(svc: IpvsServiceView, dests: Seq<IpvsDestinationView>, n: nat, j: int)
    requires
        0 <= j < n,
    ensures
        holds(dests_samples(svc, dests, n), dest_samples(svc, dests[j])),
    decreases n,
{
    let all = dests_samples(svc, dests, n);
    let before = dests_samples(svc, dests, (n - 1) as nat);
    let last = dest_samples(svc, dests[n - 1]);
    if j == n - 1 {
        assert(all =~= before + last + seq![]);
        lemma_holds(all, before, last, seq![]);
    } else {
        lemma_dest_held(svc, dests, (n - 1) as nat, j);
        assert(all =~= seq![] + before + last);
        lemma_holds(all, seq![], before, last);
        lemma_holds_through(all, before, dest_samples(svc, dests[j]));
    }
}

/// Every frame with a whole header stands for a service, or for a destination of
/// the service that was asked for; its attributes follow the header.
pub proof fn law_frames_read(frame: Seq<u8>, svc: IpvsServiceView)
    ensures
        frame.len() >= 4 ==> service_parser()(frame) == Some(service_of(frame.skip(4))),
        frame.len() < 4 ==> service_parser()(frame) is None,
        frame.len() >= 4 ==> destination_parser(svc)(frame) == Some(
            destination_of(frame.skip(4), svc),
        ),
        frame.len() < 4 ==> destination_parser(svc)(frame) is None,
{
}

/// The scheduler is the text of its attribute, and unknown without one.
pub proof fn law_scheduler_named(buf: Seq<u8>)
    ensures
        (match last_attr(attrs(buf), 6, 0) {
            Some(p) => service_of(buf).sched == decoded(until_nul(p)),
            None => service_of(buf).sched == "unknown"@,
        }),
{
}

/// A destination belongs to the service that was asked for.
pub proof fn law_destination_of_service(buf: Seq<u8>, svc: IpvsServiceView)
    ensures
        destination_of(buf, svc).svc_proto == svc.proto,
        destination_of(buf, svc).svc_vip == svc.vip,
        destination_of(buf, svc).svc_port == svc.port,
{
}

/// What is missing reads as zero: the port, and the family as version 4.
pub proof fn law_missing_parts(buf: Seq<u8>, svc: IpvsServiceView, addr: Seq<u8>)
    requires
        small_at(attrs(buf), 5) == 0,
    ensures
        last_attr(attrs(buf), 4, 0) is None ==> service_of(buf).port == dec(0),
        last_attr(attrs(buf), 1, 0) is None && last_attr(attrs(buf), 3, 0) == Some(addr)
            ==> service_of(buf).vip == address_text(2, addr),
        last_attr(attrs(buf), 2, 0) is None ==> destination_of(buf, svc).rport == dec(0),
        last_attr(attrs(buf), 2, 0) is None ==> service_of(buf).proto == "unknown"@,
{
}

/// A cap lets everything through up to its number.
pub proof fn law_cap(n: nat)
    ensures
        n <= 512 ==> capped(n, IPVS_MAX_SERVICES as nat) == n,
        n > 512 ==> capped(n, IPVS_MAX_SERVICES as nat) == 512,
        n <= 256 ==> capped(n, IPVS_MAX_DESTS as nat) == n,
        n > 256 ==> capped(n, IPVS_MAX_DESTS as nat) == 256,
{
}

/// Every protocol goes by its own name.
pub proof fn law_protocols_told_apart(code: u16)
    ensures
        proto_text(code) == "tcp"@ <==> code == 6,
        proto_text(code) == "udp"@ <==> code == 17,
        proto_text(code) == "sctp"@ <==> code == 132,
        (code != 6 && code != 17 && code != 132) ==> proto_text(code) == "unknown"@,
{
    reveal_strlit("tcp");
    reveal_strlit("udp");
    reveal_strlit("sctp");
    reveal_strlit("unknown");
    assert("tcp"@.len() == 3);
    assert("udp"@.len() == 3);
    assert("sctp"@.len() == 4);
    assert("unknown"@.len() == 7);
    assert("tcp"@[0] == 't' && "udp"@[0] == 'u');
}

} // verus!
