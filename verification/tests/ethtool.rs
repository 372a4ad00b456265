//! NIC statistics.
use netlink_exporter::collectors::ethtool::{
    build_stats_get_payload, dump_error, parse_frame, parse_stats_attrs, parse_stats_reply,
    ETHTOOL_A_HEADER_DEV_NAME, ETHTOOL_A_STATS_GRP, ETHTOOL_A_STATS_GRP_STAT,
    ETHTOOL_A_STATS_GRP_STAT_NAME, ETHTOOL_A_STATS_GRP_STAT_VALUE, ETHTOOL_A_STATS_HEADER,
    EthtoolCollector, MAX_STAT_NAMES,
};
use netlink_exporter::error::{DomainError, TransportError};
use netlink_exporter::labels::Labels;
use netlink_exporter::metric::{GaugeValue, MetricValue};
use netlink_exporter::wire::push_nlattr;

fn header(name: &[u8]) -> Vec<u8> {
    let mut inner = Vec::new();
    push_nlattr(&mut inner, ETHTOOL_A_HEADER_DEV_NAME, name);
    let mut b = Vec::new();
    push_nlattr(&mut b, ETHTOOL_A_STATS_HEADER | 0x8000, &inner);
    b
}

fn group(stats: &[(&str, u64)]) -> Vec<u8> {
    let mut inner = Vec::new();
    for (name, value) in stats {
        let mut stat = Vec::new();
        push_nlattr(&mut stat, ETHTOOL_A_STATS_GRP_STAT_NAME, name.as_bytes());
        push_nlattr(&mut stat, ETHTOOL_A_STATS_GRP_STAT_VALUE, &value.to_ne_bytes());
        push_nlattr(&mut inner, ETHTOOL_A_STATS_GRP_STAT | 0x8000, &stat);
    }
    let mut b = Vec::new();
    push_nlattr(&mut b, ETHTOOL_A_STATS_GRP | 0x8000, &inner);
    b
}

fn frame(parts: &[Vec<u8>]) -> Vec<u8> {
    let mut f = vec![38, 1, 0, 0];
    for p in parts {
        f.extend_from_slice(p);
    }
    f
}

#[test]
fn request_asks_for_all_groups() {
    let mut expected = vec![37, 1, 0, 0];
    expected.extend_from_slice(&8u16.to_ne_bytes());
    expected.extend_from_slice(&3u16.to_ne_bytes());
    expected.extend_from_slice(&0x0fu32.to_ne_bytes());
    assert_eq!(build_stats_get_payload(), expected);
}

/// Statistics of all groups come out sorted by name, the last value of a name
/// counting.
#[test]
fn statistics_are_sorted() {
    let f = frame(&[
        header(b"eth0\0"),
        group(&[("rx_ok\0", 3), ("collisions", 1)]),
        group(&[("rx_ok", 5), ("", 9)]),
    ]);
    let (name, stats) = parse_frame(&f).unwrap();
    assert_eq!(name, "eth0");
    assert_eq!(
        stats,
        vec![("collisions".to_owned(), 1), ("rx_ok".to_owned(), 5)]
    );
    assert_eq!(parse_stats_attrs(&f[4..]), Some((name, stats)));
}

#[test]
fn reply_without_interface_is_skipped() {
    assert!(parse_stats_attrs(&group(&[("a", 1)])).is_none());
    assert!(parse_frame(&frame(&[header(b"\0"), group(&[("a", 1)])])).is_none());
    assert!(parse_frame(&[38, 1, 0]).is_none());
    assert!(parse_stats_reply(&[38, 1, 0]).is_none());
}

#[test]
fn read_model_of_a_reply() {
    let s = parse_stats_reply(&frame(&[header(b"eth0\0"), group(&[("a", 1)])])).unwrap();
    assert_eq!(s.if_name, "eth0");
    assert_eq!(s.stats, vec![("a".to_owned(), 1)]);
    assert_eq!(s.speed_mbps, None);
    assert_eq!((s.duplex.as_str(), s.autoneg.as_str(), s.port.as_str()), ("unknown", "unknown", "unknown"));
    assert_eq!((s.pause_rx_frames, s.pause_tx_frames), (None, None));
    assert!(s.fec_corrected.is_empty());
}

#[test]
fn samples_of_a_reply() {
    let f = frame(&[header(b"eth0\0"), group(&[("b", u64::MAX), ("a", 1)])]);
    let out = EthtoolCollector.collect(&[f, vec![38]]);
    assert_eq!(out.len(), 2);
    assert_eq!(out[0].name, "nft_ethtool_stat");
    assert_eq!(out[0].labels, Labels::new().with("interface", "eth0").with("stat", "a"));
    assert_eq!(out[0].value, MetricValue::F64(GaugeValue::Whole(1)));
    assert_eq!(
        out[1].value,
        MetricValue::F64(GaugeValue::Whole(18_446_744_073_709_551_615))
    );
    assert_eq!(EthtoolCollector.name(), "ethtool");
}

/// At most 128 statistics of an interface are exported.
#[test]
fn statistics_are_capped() {
    let names: Vec<String> = (0..200).map(|i| format!("stat{i:03}")).collect();
    let stats: Vec<(&str, u64)> = names.iter().map(|n| (n.as_str(), 0)).collect();
    let out = EthtoolCollector.collect(&[frame(&[header(b"eth0\0"), group(&stats)])]);
    assert_eq!(out.len(), MAX_STAT_NAMES);
    assert_eq!(out[127].labels.get("stat").map(String::as_str), Some("stat127"));
}

#[test]
fn failed_dump() {
    assert_eq!(
        dump_error(TransportError::DumpIntr),
        DomainError::Collector(
            "ethtool dump interrupted (NLM_F_DUMP_INTR) too many times".to_owned()
        )
    );
    assert_eq!(
        dump_error(TransportError::Recv("x".to_owned())),
        DomainError::Collector("recvmsg error: x".to_owned())
    );
}
