//! Protocol counters.
use netlink_exporter::metric::{GaugeValue, MetricKind, MetricSample, MetricValue};
use netlink_exporter::procfs::netstat::parse_paired_lines;

fn as_f64(v: GaugeValue) -> f64 {
    match v {
        GaugeValue::Whole(n) => n as f64,
        GaugeValue::Thousandths(n) => n as f64 / 1000.0,
        GaugeValue::Infinite => f64::INFINITY,
        GaugeValue::Bits(b) => f64::from_bits(b),
    }
}

/// Minimal realistic excerpt from `/proc/net/snmp` (kernel 6.17 format).
/// Includes `Tcp MaxConn=-1` to exercise the signed-value path.
const SAMPLE_SNMP: &str = "\
Ip: Forwarding DefaultTTL InReceives InHdrErrors InAddrErrors ForwDatagrams InUnknownProtos InDiscards InDelivers OutRequests OutDiscards OutNoRoutes ReasmTimeout ReasmReqds ReasmOKs ReasmFails FragOKs FragFails FragCreates OutTransmits
Ip: 1 64 12345 0 0 0 0 0 12300 9876 5 1 0 0 0 0 0 0 0 9876
Icmp: InMsgs InErrors InCsumErrors InDestUnreachs InTimeExcds InParmProbs InSrcQuenchs InRedirects InEchos InEchoReps InTimestamps InTimestampReps InAddrMasks InAddrMaskReps OutMsgs OutErrors OutRateLimitGlobal OutRateLimitHost OutDestUnreachs OutTimeExcds OutParmProbs OutSrcQuenchs OutRedirects OutEchos OutEchoReps OutTimestamps OutTimestampReps OutAddrMasks OutAddrMaskReps
Icmp: 10 2 0 8 0 0 0 0 0 0 0 0 0 0 9 0 0 0 7 0 0 0 0 0 0 0 0 0 0
Tcp: RtoAlgorithm RtoMin RtoMax MaxConn ActiveOpens PassiveOpens AttemptFails EstabResets CurrEstab InSegs OutSegs RetransSegs InErrs OutRsts InCsumErrors
Tcp: 1 200 120000 -1 42 17 3 1 5 9988 9100 12 0 4 0
Udp: InDatagrams NoPorts InErrors OutDatagrams RcvbufErrors SndbufErrors InCsumErrors IgnoredMulti MemErrors
Udp: 500 3 0 490 0 0 0 2 0
UdpLite: InDatagrams NoPorts InErrors OutDatagrams RcvbufErrors SndbufErrors InCsumErrors IgnoredMulti MemErrors
UdpLite: 0 0 0 0 0 0 0 0 0
";

/// Minimal realistic excerpt from `/proc/net/netstat` (kernel 6.17 format).
/// `TcpExt`/`IpExt` field lists are truncated to a representative subset —
/// the header and data lines have matching column counts (as the real kernel
/// always emits), which is what the paired-line parser requires.
const SAMPLE_NETSTAT: &str = "\
TcpExt: SyncookiesSent SyncookiesRecv DelayedACKs ListenOverflows ListenDrops TCPLostRetransmit TCPTimeouts
TcpExt: 0 0 3400 0 0 8 11
IpExt: InNoRoutes InTruncatedPkts InMcastPkts OutMcastPkts InBcastPkts OutBcastPkts InOctets OutOctets InMcastOctets OutMcastOctets InBcastOctets OutBcastOctets InCsumErrors InNoECTPkts InECT1Pkts InECT0Pkts InCEPkts ReasmOverlaps
IpExt: 1 0 5 3 100 0 1234567 9876543 200 100 4000 0 0 12300 0 0 0 0
";

fn find<'a>(
    samples: &'a [MetricSample],
    protocol: &str,
    field: &str,
) -> Option<&'a MetricSample> {
    samples.iter().find(|m| {
        m.labels.get("protocol").map(String::as_str) == Some(protocol)
            && m.labels.get("field").map(String::as_str) == Some(field)
    })
}

fn gauge_value(s: &MetricSample) -> f64 {
    match s.value {
        MetricValue::F64(f) => as_f64(f),
        MetricValue::U64(u) => u as f64,
    }
}

#[test]
fn parses_ip_field_from_snmp() {
    let mut out = Vec::new();
    parse_paired_lines(SAMPLE_SNMP, &mut out);
    let s = find(&out, "Ip", "InReceives").unwrap();
    assert_eq!(gauge_value(s), 12345.0);
}

#[test]
fn parses_tcp_maxconn_minus_one() {
    let mut out = Vec::new();
    parse_paired_lines(SAMPLE_SNMP, &mut out);
    let s = find(&out, "Tcp", "MaxConn").unwrap();
    assert_eq!(gauge_value(s), -1.0);
}

#[test]
fn parses_tcp_retranse_segs() {
    let mut out = Vec::new();
    parse_paired_lines(SAMPLE_SNMP, &mut out);
    let s = find(&out, "Tcp", "RetransSegs").unwrap();
    assert_eq!(gauge_value(s), 12.0);
}

#[test]
fn parses_udp_indatagrams() {
    let mut out = Vec::new();
    parse_paired_lines(SAMPLE_SNMP, &mut out);
    let s = find(&out, "Udp", "InDatagrams").unwrap();
    assert_eq!(gauge_value(s), 500.0);
}

#[test]
fn parses_udplite_zero_values() {
    let mut out = Vec::new();
    parse_paired_lines(SAMPLE_SNMP, &mut out);
    let s = find(&out, "UdpLite", "InDatagrams").unwrap();
    assert_eq!(gauge_value(s), 0.0);
}

#[test]
fn parses_icmp_inmsgs() {
    let mut out = Vec::new();
    parse_paired_lines(SAMPLE_SNMP, &mut out);
    let s = find(&out, "Icmp", "InMsgs").unwrap();
    assert_eq!(gauge_value(s), 10.0);
}

#[test]
fn parses_tcpext_from_netstat() {
    let mut out = Vec::new();
    parse_paired_lines(SAMPLE_NETSTAT, &mut out);
    let s = find(&out, "TcpExt", "ListenDrops").unwrap();
    assert_eq!(gauge_value(s), 0.0);
}

#[test]
fn parses_ipext_from_netstat() {
    let mut out = Vec::new();
    parse_paired_lines(SAMPLE_NETSTAT, &mut out);
    let s = find(&out, "IpExt", "InOctets").unwrap();
    assert_eq!(gauge_value(s), 1_234_567.0);
}

#[test]
fn netstat_all_samples_are_gauges() {
    let mut out = Vec::new();
    parse_paired_lines(SAMPLE_SNMP, &mut out);
    parse_paired_lines(SAMPLE_NETSTAT, &mut out);
    for s in &out {
        assert_eq!(s.kind, MetricKind::Gauge, "expected gauge for {}", s.name);
    }
}

#[test]
fn all_samples_have_protocol_and_field_labels() {
    let mut out = Vec::new();
    parse_paired_lines(SAMPLE_SNMP, &mut out);
    parse_paired_lines(SAMPLE_NETSTAT, &mut out);
    for s in &out {
        assert!(s.labels.contains_key("protocol"), "missing protocol label");
        assert!(s.labels.contains_key("field"), "missing field label");
    }
}

#[test]
fn metric_name_is_nft_netstat() {
    let mut out = Vec::new();
    parse_paired_lines(SAMPLE_SNMP, &mut out);
    for s in &out {
        assert_eq!(s.name, "nft_netstat");
    }
}

#[test]
fn netstat_empty_input_yields_no_samples() {
    let mut out = Vec::new();
    parse_paired_lines("", &mut out);
    assert!(out.is_empty());
}

#[test]
fn unpaired_header_is_skipped_gracefully() {
    // A header with no following data line (EOF) must not panic.
    let text = "Tcp: RtoAlgorithm RtoMin RtoMax\n";
    let mut out = Vec::new();
    parse_paired_lines(text, &mut out);
    assert!(out.is_empty());
}

#[test]
fn mismatched_proto_on_data_line_is_skipped() {
    let text = "Tcp: RtoAlgorithm RtoMin\nUdp: 1 2\n";
    let mut out = Vec::new();
    parse_paired_lines(text, &mut out);
    // The header is "Tcp:" but the next line is "Udp:" — must be skipped.
    assert!(out.is_empty());
}

#[test]
fn column_count_mismatch_is_skipped_gracefully() {
    let text = "Tcp: FieldA FieldB\nTcp: 1\n";
    let mut out = Vec::new();
    parse_paired_lines(text, &mut out);
    assert!(out.is_empty());
}

#[test]
fn combining_both_files_produces_both_protos() {
    let mut out = Vec::new();
    parse_paired_lines(SAMPLE_SNMP, &mut out);
    parse_paired_lines(SAMPLE_NETSTAT, &mut out);
    let has_tcp = out
        .iter()
        .any(|s| s.labels.get("protocol").map(String::as_str) == Some("Tcp"));
    let has_tcpext = out
        .iter()
        .any(|s| s.labels.get("protocol").map(String::as_str) == Some("TcpExt"));
    assert!(has_tcp, "Tcp proto must be present from snmp");
    assert!(has_tcpext, "TcpExt proto must be present from netstat");
}

#[test]
fn ip_forwarding_field_parsed() {
    // The Ip: header line starts "Ip: Forwarding DefaultTTL …".
    // Forwarding = 1 in the sample data.
    let mut out = Vec::new();
    parse_paired_lines(SAMPLE_SNMP, &mut out);
    let s = find(&out, "Ip", "Forwarding").unwrap();
    assert_eq!(gauge_value(s), 1.0);
}
