//! Network soft interrupts.
use netlink_exporter::metric::{GaugeValue, MetricKind, MetricSample, MetricValue};
use netlink_exporter::procfs::softirq::parse;

fn as_f64(v: GaugeValue) -> f64 {
    match v {
        GaugeValue::Whole(n) => n as f64,
        GaugeValue::Thousandths(n) => n as f64 / 1000.0,
        GaugeValue::Infinite => f64::INFINITY,
        GaugeValue::Bits(b) => f64::from_bits(b),
    }
}

/// Realistic `/proc/softirqs` excerpt with 4 CPUs (ids 0-3).
/// Format mirrors `show_softirqs` in `fs/proc/softirqs.c` (kernel 6.17):
/// 20-space pad + `CPU%-8d` header; `%12s:` + 10-wide decimal columns.
const SAMPLE: &str = "                    CPU0      CPU1      CPU2      CPU3\n          HI:          0         0         0         0\n       TIMER:    1234567    987654    112233    445566\n      NET_TX:       1000      2000      3000      4000\n      NET_RX:      10000     20000     30000     40000\n       BLOCK:       5555      6666      7777      8888\n";

fn find<'a>(samples: &'a [MetricSample], cpu: &str, kind: &str) -> Option<&'a MetricSample> {
    samples.iter().find(|m| {
        m.name == "nft_softirq_total"
            && m.labels.get("cpu").map(String::as_str) == Some(cpu)
            && m.labels.get("kind").map(String::as_str) == Some(kind)
    })
}

#[test]
fn emits_only_net_rx_and_net_tx_rows() {
    let out = parse(SAMPLE);
    // 4 CPUs × 2 kinds = 8 samples; no HI / TIMER / BLOCK.
    assert_eq!(out.len(), 8, "expected exactly 8 samples (4 cpu × 2 kind)");
    for s in &out {
        let kind = s.labels.get("kind").map_or("", String::as_str);
        assert!(
            kind == "net_rx" || kind == "net_tx",
            "unexpected kind label: {kind}"
        );
    }
}

#[test]
fn cpu_ids_come_from_header_not_line_index() {
    let out = parse(SAMPLE);
    // Header has CPU0..CPU3; verify all four ids appear.
    for cpu in ["0", "1", "2", "3"] {
        assert!(
            find(&out, cpu, "net_rx").is_some(),
            "missing net_rx sample for cpu={cpu}"
        );
    }
}

#[test]
fn decodes_decimal_values_correctly() {
    let out = parse(SAMPLE);
    let val = |cpu: &str, kind: &str| match find(&out, cpu, kind).unwrap().value {
        MetricValue::U64(n) => n,
        MetricValue::F64(f) => as_f64(f) as u64,
    };
    assert_eq!(val("0", "net_tx"), 1000);
    assert_eq!(val("1", "net_tx"), 2000);
    assert_eq!(val("2", "net_tx"), 3000);
    assert_eq!(val("3", "net_tx"), 4000);
    assert_eq!(val("0", "net_rx"), 10000);
    assert_eq!(val("3", "net_rx"), 40000);
}

#[test]
fn all_samples_are_counters() {
    let out = parse(SAMPLE);
    for s in &out {
        assert_eq!(
            s.kind,
            MetricKind::Counter,
            "expected Counter for {}",
            s.name
        );
    }
}

#[test]
fn short_row_truncates_defensively() {
    // Row has fewer columns than the header; the extra CPUs are skipped.
    let input = "                    CPU0      CPU1      CPU2      CPU3\n      NET_TX:        42        99\n";
    let out = parse(input);
    assert_eq!(out.len(), 2, "only 2 count columns present → 2 samples");
    assert!(find(&out, "0", "net_tx").is_some());
    assert!(find(&out, "1", "net_tx").is_some());
    assert!(find(&out, "2", "net_tx").is_none());
}

#[test]
fn missing_header_yields_no_samples() {
    let out = parse("");
    assert!(out.is_empty());
}

#[test]
fn header_with_no_cpu_tokens_yields_no_samples() {
    let input = "      (no cpu columns here)\n      NET_TX:   100\n";
    let out = parse(input);
    assert!(
        out.is_empty(),
        "empty cpu_ids must short-circuit to empty result"
    );
}

#[test]
fn non_numeric_count_is_treated_as_zero() {
    let input = "                    CPU0\n      NET_TX:        bad\n";
    let out = parse(input);
    assert_eq!(out.len(), 1);
    assert_eq!(out[0].value, MetricValue::U64(0));
}

#[test]
fn cpu_id_parsed_correctly_for_high_numbered_cpu() {
    // E.g. CPU17 → id "17".
    let input = "                    CPU17\n      NET_RX:      99999\n";
    let out = parse(input);
    assert_eq!(out.len(), 1);
    assert_eq!(out[0].labels.get("cpu").map(String::as_str), Some("17"));
}
