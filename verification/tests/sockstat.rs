//! Socket usage.
use netlink_exporter::metric::{GaugeValue, MetricKind, MetricSample, MetricValue};
use netlink_exporter::procfs::sockstat::parse;

fn as_f64(v: GaugeValue) -> f64 {
    match v {
        GaugeValue::Whole(n) => n as f64,
        GaugeValue::Thousandths(n) => n as f64 / 1000.0,
        GaugeValue::Infinite => f64::INFINITY,
        GaugeValue::Bits(b) => f64::from_bits(b),
    }
}

/// Realistic sample matching kernel 6.17 `sockstat_seq_show` output.
const SAMPLE: &str = "\
sockets: used 4867\n\
TCP: inuse 4098 orphan 0 tw 179 alloc 4174 mem 0\n\
UDP: inuse 12 mem 0\n\
UDPLITE: inuse 0\n\
RAW: inuse 4\n\
FRAG: inuse 0 memory 0\n\
";

fn find<'a>(
    samples: &'a [MetricSample],
    protocol: &str,
    key: &str,
) -> Option<&'a MetricSample> {
    samples.iter().find(|m| {
        m.labels.get("protocol").map(String::as_str) == Some(protocol)
            && m.labels.get("key").map(String::as_str) == Some(key)
    })
}

fn gauge_val(s: &MetricSample) -> f64 {
    match s.value {
        MetricValue::F64(v) => as_f64(v),
        MetricValue::U64(v) => v as f64,
    }
}

#[test]
fn parses_all_expected_series() {
    let out = parse(SAMPLE);
    // 1 (sockets) + 5 (tcp) + 2 (udp) + 1 (udplite) + 1 (raw) + 2 (frag) = 12
    assert_eq!(out.len(), 12);
}

#[test]
fn sockstat_all_samples_are_gauges() {
    let out = parse(SAMPLE);
    for s in &out {
        assert_eq!(
            s.kind,
            MetricKind::Gauge,
            "expected gauge for {:?}",
            s.labels
        );
    }
}

#[test]
fn sockets_used_value() {
    let out = parse(SAMPLE);
    let s = find(&out, "sockets", "used").unwrap();
    assert_eq!(gauge_val(s), 4867.0);
}

#[test]
fn tcp_fields_correct() {
    let out = parse(SAMPLE);
    assert_eq!(gauge_val(find(&out, "tcp", "inuse").unwrap()), 4098.0);
    assert_eq!(gauge_val(find(&out, "tcp", "orphan").unwrap()), 0.0);
    assert_eq!(gauge_val(find(&out, "tcp", "tw").unwrap()), 179.0);
    assert_eq!(gauge_val(find(&out, "tcp", "alloc").unwrap()), 4174.0);
    assert_eq!(gauge_val(find(&out, "tcp", "mem").unwrap()), 0.0);
}

#[test]
fn udp_fields_correct() {
    let out = parse(SAMPLE);
    assert_eq!(gauge_val(find(&out, "udp", "inuse").unwrap()), 12.0);
    assert_eq!(gauge_val(find(&out, "udp", "mem").unwrap()), 0.0);
}

#[test]
fn frag_memory_key_parsed() {
    let out = parse(SAMPLE);
    // FRAG uses "memory" not "mem"
    assert!(find(&out, "frag", "memory").is_some());
    assert!(find(&out, "frag", "inuse").is_some());
}

#[test]
fn protocol_names_are_lowercased() {
    let out = parse(SAMPLE);
    // All protocol labels must be lowercase regardless of kernel casing.
    for s in &out {
        let proto = s.labels.get("protocol").unwrap();
        assert_eq!(
            proto,
            &proto.to_ascii_lowercase(),
            "protocol label not lowercase"
        );
    }
}

#[test]
fn malformed_line_without_colon_is_skipped() {
    let out = parse("no colon here\nsockets: used 1\n");
    assert_eq!(out.len(), 1);
}

#[test]
fn non_integer_value_is_skipped() {
    // "bad" is not a valid i64; that pair should be skipped, valid one kept.
    let out = parse("TCP: inuse bad orphan 3\n");
    assert_eq!(out.len(), 1);
    assert_eq!(gauge_val(find(&out, "tcp", "orphan").unwrap()), 3.0);
}

#[test]
fn odd_trailing_token_is_ignored_not_panicked() {
    // "inuse 5 orphan" — odd count, last token has no value.
    let out = parse("TCP: inuse 5 orphan\n");
    assert_eq!(out.len(), 1);
    assert_eq!(gauge_val(find(&out, "tcp", "inuse").unwrap()), 5.0);
}

#[test]
fn sockstat_empty_input_yields_no_samples() {
    assert!(parse("").is_empty());
}

#[test]
fn all_samples_have_metric_name_nft_sockstat() {
    let out = parse(SAMPLE);
    for s in &out {
        assert_eq!(s.name, "nft_sockstat");
    }
}
