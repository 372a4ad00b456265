//! Per-CPU packet backlog.
use netlink_exporter::metric::{GaugeValue, MetricKind, MetricSample, MetricValue};
use netlink_exporter::procfs::softnet::parse;

fn as_f64(v: GaugeValue) -> f64 {
    match v {
        GaugeValue::Whole(n) => n as f64,
        GaugeValue::Thousandths(n) => n as f64 / 1000.0,
        GaugeValue::Infinite => f64::INFINITY,
        GaugeValue::Bits(b) => f64::from_bits(b),
    }
}

/// A real 15-column line (kernel 6.17). cpu id is column 12.
const SAMPLE: &str = "0bce27fa 00000007 00000004 00000000 00000000 00000000 00000000 00000000 00000000 0000000a 00000002 00000005 00000000 00000000 00000000\n089574a9 00000000 00000005 00000000 00000000 00000000 00000000 00000000 00000000 00000000 00000000 00000000 00000001 00000000 00000000\n";

fn find<'a>(s: &'a [MetricSample], name: &str, cpu: &str) -> Option<&'a MetricSample> {
    s.iter()
        .find(|m| m.name == name && m.labels.get("cpu").map(String::as_str) == Some(cpu))
}

#[test]
fn parses_cpu_id_from_column_12_not_line_index() {
    let out = parse(SAMPLE);
    // Line 0 has cpu col=0x00000000 → cpu 0; line 1 has cpu col=0x00000001 → cpu 1.
    assert!(find(&out, "nft_softnet_processed_total", "0").is_some());
    assert!(find(&out, "nft_softnet_processed_total", "1").is_some());
}

#[test]
fn decodes_hex_columns_to_values() {
    let out = parse(SAMPLE);
    // cpu 0: processed=0x0bce27fa, dropped=0x07, time_squeeze=0x04,
    // received_rps=0x0a, flow_limit=0x02, backlog=0x05.
    let v = |name: &str| match find(&out, name, "0").unwrap().value {
        MetricValue::U64(n) => n as f64,
        MetricValue::F64(f) => as_f64(f),
    };
    assert_eq!(v("nft_softnet_processed_total"), 0x0bce_27fa as f64);
    assert_eq!(v("nft_softnet_dropped_total"), 7.0);
    assert_eq!(v("nft_softnet_time_squeeze_total"), 4.0);
    assert_eq!(v("nft_softnet_received_rps_total"), 10.0);
    assert_eq!(v("nft_softnet_flow_limit_count_total"), 2.0);
    assert_eq!(v("nft_softnet_backlog_length"), 5.0);
}

#[test]
fn backlog_is_a_gauge_others_are_counters() {
    let out = parse(SAMPLE);
    assert_eq!(
        find(&out, "nft_softnet_backlog_length", "0").unwrap().kind,
        MetricKind::Gauge
    );
    assert_eq!(
        find(&out, "nft_softnet_processed_total", "0").unwrap().kind,
        MetricKind::Counter
    );
}

#[test]
fn short_lines_are_skipped_not_panicked() {
    let out = parse("dead beef\n00000001 00000002\n");
    assert!(out.is_empty(), "short lines must be skipped");
}

#[test]
fn softnet_empty_input_yields_no_samples() {
    assert!(parse("").is_empty());
}

/// What a line gives does not depend on the lines around it.
#[test]
fn lines_are_independent() {
    let both = parse(SAMPLE);
    let (first, second) = SAMPLE.split_once('\n').unwrap();
    let mut apart = parse(first);
    apart.extend(parse(second));
    assert_eq!(both, apart);
    assert_eq!(both.len(), 12);
}
