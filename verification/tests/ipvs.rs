//! IPVS services and destinations.
use netlink_exporter::collectors::ipvs::{
    build_dest_request, build_genl_payload, dump_error, parse_destination, parse_destinations,
    parse_service, parse_services, parse_stats64, svc_labels, IPVS_CMD_GET_SERVICE,
    IPVS_DEST_ATTR_ACTIVE_CONNS, IPVS_DEST_ATTR_ADDR, IPVS_DEST_ATTR_INACT_CONNS,
    IPVS_DEST_ATTR_PORT, IPVS_DEST_ATTR_STATS64, IPVS_MAX_DESTS, IPVS_MAX_SERVICES,
    IPVS_SVC_ATTR_ADDR, IPVS_SVC_ATTR_AF, IPVS_SVC_ATTR_FWMARK, IPVS_SVC_ATTR_PORT,
    IPVS_SVC_ATTR_PROTOCOL, IPVS_SVC_ATTR_SCHED_NAME, IPVS_SVC_ATTR_STATS64, IpvsCollector,
    Stats64,
};
use netlink_exporter::error::{DomainError, TransportError};
use netlink_exporter::labels::Labels;
use netlink_exporter::metric::{GaugeValue, MetricValue};
use netlink_exporter::model::ipvs::IpvsService;
use netlink_exporter::wire::{parse_attrs, push_nlattr};

/// Statistics whose attribute `n` holds `base + n`.
fn stats(base: u64) -> Vec<u8> {
    let mut b = Vec::new();
    for ty in 1..=10u16 {
        push_nlattr(&mut b, ty, &(base + u64::from(ty)).to_ne_bytes());
    }
    b
}

fn service_attrs(af: u16, proto: u16, addr: &[u8], port: u16) -> Vec<u8> {
    let mut b = Vec::new();
    push_nlattr(&mut b, IPVS_SVC_ATTR_AF, &af.to_ne_bytes());
    push_nlattr(&mut b, IPVS_SVC_ATTR_PROTOCOL, &proto.to_ne_bytes());
    push_nlattr(&mut b, IPVS_SVC_ATTR_ADDR, addr);
    push_nlattr(&mut b, IPVS_SVC_ATTR_PORT, &port.to_be_bytes());
    push_nlattr(&mut b, IPVS_SVC_ATTR_SCHED_NAME, b"wlc\0");
    push_nlattr(&mut b, IPVS_SVC_ATTR_STATS64, &stats(100));
    b
}

fn tcp_service() -> IpvsService {
    parse_service(&service_attrs(2, 6, &[192, 0, 2, 1], 80)).unwrap()
}

fn dest_attrs(addr: &[u8], port: u16) -> Vec<u8> {
    let mut b = Vec::new();
    push_nlattr(&mut b, IPVS_DEST_ATTR_ADDR, addr);
    push_nlattr(&mut b, IPVS_DEST_ATTR_PORT, &port.to_be_bytes());
    push_nlattr(&mut b, IPVS_DEST_ATTR_ACTIVE_CONNS, &3u32.to_ne_bytes());
    push_nlattr(&mut b, IPVS_DEST_ATTR_INACT_CONNS, &4u32.to_ne_bytes());
    push_nlattr(&mut b, IPVS_DEST_ATTR_STATS64, &stats(200));
    b
}

fn frame(body: &[u8]) -> Vec<u8> {
    let mut f = vec![1, 1, 0, 0];
    f.extend_from_slice(body);
    f
}

#[test]
fn header_of_a_request() {
    assert_eq!(build_genl_payload(IPVS_CMD_GET_SERVICE), vec![4, 1, 0, 0]);
}

#[test]
fn statistics_are_read_by_type() {
    let s = parse_stats64(&stats(0));
    assert_eq!(
        s,
        Stats64 {
            conns: 1,
            in_pkts: 2,
            out_pkts: 3,
            in_bytes: 4,
            out_bytes: 5,
            cps: 6,
            in_pps: 7,
            out_pps: 8,
            in_bps: 9,
            out_bps: 10,
        }
    );
    assert_eq!(parse_stats64(&[]).conns, 0);
}

#[test]
fn service_fields() {
    let s = tcp_service();
    assert_eq!(s.proto, "tcp");
    assert_eq!(s.vip, "192.0.2.1");
    assert_eq!(s.port, "80");
    assert_eq!(s.sched, "wlc");
    assert_eq!((s.conns, s.in_pkts, s.out_pkts), (101, 102, 103));
    assert_eq!((s.in_bytes, s.out_bytes, s.cps), (104, 105, 106));
    assert_eq!((s.in_pps, s.out_pps, s.in_bps, s.out_bps), (107, 108, 109, 110));
}

#[test]
fn protocols_have_names() {
    let name = |proto| parse_service(&service_attrs(2, proto, &[1, 2, 3, 4], 1)).unwrap().proto;
    assert_eq!(name(17), "udp");
    assert_eq!(name(132), "sctp");
    assert_eq!(name(1), "unknown");
}

/// A firewall mark takes the place of address and port.
#[test]
fn firewall_mark_service() {
    let mut b = service_attrs(2, 6, &[192, 0, 2, 1], 80);
    push_nlattr(&mut b, IPVS_SVC_ATTR_FWMARK, &0x2au32.to_ne_bytes());
    let s = parse_service(&b).unwrap();
    assert_eq!(s.vip, "");
    assert_eq!(s.port, "0x2a");
}

#[test]
fn empty_service_has_defaults() {
    let s = parse_service(&[]).unwrap();
    assert_eq!(s.proto, "unknown");
    assert_eq!(s.vip, "");
    assert_eq!(s.port, "0");
    assert_eq!(s.sched, "unknown");
    assert_eq!(s.conns, 0);
}

#[test]
fn destination_fields() {
    let d = parse_destination(&dest_attrs(&[10, 0, 0, 7], 8080), &tcp_service()).unwrap();
    assert_eq!(d.svc_proto, "tcp");
    assert_eq!(d.svc_vip, "192.0.2.1");
    assert_eq!(d.svc_port, "80");
    assert_eq!(d.rip, "10.0.0.7");
    assert_eq!(d.rport, "8080");
    assert_eq!((d.active_conns, d.inactive_conns), (3, 4));
    assert_eq!((d.conns, d.in_bytes, d.out_bytes), (201, 204, 205));
}

/// Destinations are read in the address family of their service.
#[test]
fn destination_in_the_family_of_its_service() {
    let mut octets = [0u8; 16];
    octets[0] = 0x20;
    octets[1] = 0x01;
    octets[15] = 1;
    let svc = parse_service(&service_attrs(10, 6, &octets, 80)).unwrap();
    assert_eq!(svc.vip, "2001::1");
    octets[15] = 2;
    let d = parse_destination(&dest_attrs(&octets, 80), &svc).unwrap();
    assert_eq!(d.rip, "2001::2");
}

#[test]
fn frames_without_a_header_are_skipped() {
    let frames = vec![vec![1, 1, 0], frame(&service_attrs(2, 6, &[192, 0, 2, 1], 80))];
    assert_eq!(parse_services(&frames), vec![tcp_service()]);
    let frames = vec![vec![], frame(&dest_attrs(&[10, 0, 0, 7], 1))];
    assert_eq!(parse_destinations(&frames, &tcp_service()).len(), 1);
}

/// A request for destinations names the service it asks about.
#[test]
fn destination_request_bytes() {
    let r = build_dest_request(&tcp_service(), &[192, 0, 2, 1]);
    let mut expected = vec![8, 1, 0, 0];
    let mut attr = |ty: u16, payload: &[u8], padding: usize| {
        let len = u16::try_from(4 + payload.len()).unwrap();
        expected.extend_from_slice(&len.to_ne_bytes());
        expected.extend_from_slice(&ty.to_ne_bytes());
        expected.extend_from_slice(payload);
        expected.resize(expected.len() + padding, 0);
    };
    attr(1, &2u16.to_ne_bytes(), 2);
    attr(2, &6u16.to_ne_bytes(), 2);
    attr(3, &[192, 0, 2, 1], 0);
    attr(4, &80u16.to_be_bytes(), 2);
    assert_eq!(r, expected);
    assert_eq!(parse_attrs(&r[4..]).collect().len(), 4);
}

/// Neither address nor port are sent for a service with a firewall mark.
#[test]
fn destination_request_without_address() {
    let mut svc = tcp_service();
    svc.vip = String::new();
    svc.port = "0x2a".to_owned();
    svc.proto = "unknown".to_owned();
    let mut expected = vec![8, 1, 0, 0];
    push_nlattr(&mut expected, IPVS_SVC_ATTR_AF, &2u16.to_ne_bytes());
    push_nlattr(&mut expected, IPVS_SVC_ATTR_PROTOCOL, &0u16.to_ne_bytes());
    assert_eq!(build_dest_request(&svc, &[]), expected);
    svc.port = "65536".to_owned();
    assert_eq!(build_dest_request(&svc, &[]).len(), 20);
}

#[test]
fn samples_of_services_and_destinations() {
    let svc = tcp_service();
    let dest = parse_destination(&dest_attrs(&[10, 0, 0, 7], 8080), &svc).unwrap();
    let out = IpvsCollector.collect(&[svc.clone()], &[vec![dest]]);
    assert_eq!(out.len(), 15);
    assert_eq!(out[0].name, "nft_ipvs_connections_total");
    assert_eq!(out[0].value, MetricValue::U64(101));
    assert_eq!(out[0].labels, svc_labels(&svc));
    assert_eq!(out[9].name, "nft_ipvs_outgoing_bytes_per_second");
    assert_eq!(out[9].value, MetricValue::F64(GaugeValue::Whole(110)));
    assert_eq!(out[10].name, "nft_ipvs_dest_active_connections");
    assert_eq!(
        out[10].labels,
        Labels::new()
            .with("proto", "tcp")
            .with("vip", "192.0.2.1")
            .with("port", "80")
            .with("rip", "10.0.0.7")
            .with("rport", "8080")
    );
    assert_eq!(out[14].value, MetricValue::U64(205));
    assert_eq!(IpvsCollector.name(), "ipvs");
}

/// Services and destinations beyond the caps are left out.
#[test]
fn caps_hold() {
    let svc = tcp_service();
    let dest = parse_destination(&dest_attrs(&[10, 0, 0, 7], 1), &svc).unwrap();
    let out = IpvsCollector.collect(&[svc.clone()], &[vec![dest; IPVS_MAX_DESTS + 1]]);
    assert_eq!(out.len(), 10 + 5 * IPVS_MAX_DESTS);
    let n = IPVS_MAX_SERVICES + 1;
    assert_eq!(IpvsCollector.queried(n), IPVS_MAX_SERVICES);
    assert_eq!(IpvsCollector.queried(3), 3);
    let out = IpvsCollector.collect(&vec![svc; n], &vec![vec![]; IPVS_MAX_SERVICES]);
    assert_eq!(out.len(), 10 * IPVS_MAX_SERVICES);
}

#[test]
fn failed_service_dump() {
    assert_eq!(
        dump_error(TransportError::DumpIntr),
        DomainError::Collector("IPVS service dump interrupted".to_owned())
    );
    assert_eq!(
        dump_error(TransportError::Send("x".to_owned())),
        DomainError::Collector("sendmsg error: x".to_owned())
    );
}

/// The attributes of a request parse back to the service it was built for.
#[test]
fn destination_request_reads_back() {
    let mut v6 = [0u8; 16];
    v6[0] = 0xfd;
    v6[15] = 9;
    for (af, octets) in [(2, vec![192, 0, 2, 1]), (10, v6.to_vec())] {
        for proto in [6, 17, 132, 1] {
            let svc = parse_service(&service_attrs(af, proto, &octets, 8443)).unwrap();
            let request = build_dest_request(&svc, &octets);
            let read = parse_service(&request[4..]).unwrap();
            assert_eq!(read.vip, svc.vip);
            assert_eq!(read.proto, svc.proto);
            assert_eq!(read.port, "8443");
        }
    }
}
