//! PCIe links and error counters.
use netlink_exporter::labels::Labels;
use netlink_exporter::metric::{GaugeValue, MetricKind, MetricSample, MetricValue};
use netlink_exporter::procfs::nic_pcie::{
    collect_aer, link_speed_token, parse_all, should_collect, sum_aer, DeviceReading,
};

/// The number that the link speed file writes.
fn parse_link_speed(text: &str) -> Option<f64> {
    link_speed_token(text).and_then(|word| word.parse::<f64>().ok())
}

fn device(name: &str) -> DeviceReading {
    DeviceReading {
        device: name.to_owned(),
        speed_readable: false,
        is_vf: false,
        link_speed: None,
        link_width: None,
        correctable: None,
        fatal: None,
        nonfatal: None,
    }
}

#[test]
fn parse_link_speed_extracts_leading_float() {
    assert_eq!(parse_link_speed("16.0 GT/s PCIe"), Some(16.0_f64));
    assert_eq!(parse_link_speed("2.5 GT/s PCIe"), Some(2.5_f64));
    assert_eq!(parse_link_speed("32.0 GT/s PCIe"), Some(32.0_f64));
    assert_eq!(parse_link_speed("64.0 GT/s PCIe"), Some(64.0_f64));
}

#[test]
fn parse_link_speed_unknown_returns_none() {
    assert_eq!(parse_link_speed("Unknown"), None);
    assert_eq!(parse_link_speed(""), None);
}

/// What the kernel emits for `aer_dev_correctable`.
/// RxErr(0) + BadTLP(3) + BadDLLP(0) + Rollover(1) + … = 4 bits set.
/// `TOTAL_ERR_COR(4)` must NOT be added to the sum.
const AER_COR_SAMPLE: &str = "\
RxErr 0
BadTLP 3
BadDLLP 0
Rollover 1
Timeout 0
NonFatalErr 0
CorrIntErr 0
HeaderOF 0
TOTAL_ERR_COR 4
";

/// What one error file of `eth0` gives.
fn run_aer(text: &str) -> Vec<MetricSample> {
    let base = {
        let mut m = Labels::new();
        m.insert("device".to_owned(), "eth0".to_owned());
        m
    };
    let mut out = Vec::new();
    collect_aer(
        &Some(text.to_owned()),
        "nft_nic_pcie_aer_correctable_total",
        "help",
        &base,
        &mut out,
    );
    out
}

#[test]
fn aer_emits_exactly_one_sample() {
    let samples = run_aer(AER_COR_SAMPLE);
    assert_eq!(samples.len(), 1, "must emit exactly one aggregated counter");
}

#[test]
fn aer_aggregated_value_equals_bit_sum() {
    // RxErr(0) + BadTLP(3) + BadDLLP(0) + Rollover(1) + rest(0) = 4.
    let samples = run_aer(AER_COR_SAMPLE);
    let s = samples.first().unwrap();
    assert_eq!(
        s.value,
        MetricValue::U64(4),
        "aggregated value must be the sum of per-bit lines"
    );
}

#[test]
fn aer_counter_has_no_kind_label() {
    let samples = run_aer(AER_COR_SAMPLE);
    let s = samples.first().unwrap();
    assert!(
        !s.labels.contains_key("kind"),
        "aggregated counter must not carry a kind label"
    );
}

#[test]
fn aer_counter_has_device_label_only() {
    let samples = run_aer(AER_COR_SAMPLE);
    let s = samples.first().unwrap();
    let labels = &s.labels;
    assert_eq!(labels.len(), 1, "only the device label must be present");
    assert_eq!(
        labels.get("device").map(String::as_str),
        Some("eth0"),
        "device label must match"
    );
}

#[test]
fn aer_counter_is_counter_kind() {
    let samples = run_aer(AER_COR_SAMPLE);
    let s = samples.first().unwrap();
    assert_eq!(
        s.kind,
        MetricKind::Counter,
        "AER sample must be Counter kind"
    );
}

#[test]
fn aer_total_line_not_double_counted() {
    // TOTAL_ERR_COR = 4 (kernel summary). Per-bit sum = 3 + 1 = 4.
    // If TOTAL_ were naively included the sum would be 8 instead of 4.
    let samples = run_aer(AER_COR_SAMPLE);
    let s = samples.first().unwrap();
    assert_eq!(
        s.value,
        MetricValue::U64(4),
        "TOTAL_ summary line must not be added to the sum (would produce 8)"
    );
}

#[test]
fn aer_unparseable_lines_excluded_from_sum() {
    // "RxErr" has no value field; "BadTLP three" is non-numeric.
    // Both lines are skipped — sum stays 0, but one counter is still emitted.
    let bad = "RxErr\nBadTLP three\n";
    let samples = run_aer(bad);
    assert_eq!(samples.len(), 1, "one counter must still be emitted");
    let s = samples.first().unwrap();
    assert_eq!(
        s.value,
        MetricValue::U64(0),
        "unparseable lines contribute 0 to the sum"
    );
}

#[test]
fn parse_all_empty_devlist_yields_no_samples() {
    let out = parse_all(&[]);
    assert!(out.is_empty());
}

/// SR-IOV virtual functions (which expose `device/physfn`) must be skipped:
/// `PCIe` link + AER are physical-function properties, and a VF-heavy host
/// (128 VFs) would otherwise explode cardinality ~30x with redundant data.
#[test]
fn vf_devices_are_skipped() {
    assert!(
        should_collect(true, false),
        "a physical-function PCIe NIC must be collected"
    );
    assert!(
        !should_collect(true, true),
        "an SR-IOV VF (has device/physfn) must be skipped"
    );
    assert!(
        !should_collect(false, false),
        "a non-PCIe interface (no current_link_speed) must be skipped"
    );
}

#[test]
fn parse_all_skips_virtual_interfaces() {
    let devs = vec![device("lo"), device("dummy0")];
    let out = parse_all(&devs);
    assert!(out.is_empty());
}

#[test]
fn link_speed_gauge_is_gauge_kind() {
    let labels = {
        let mut m = Labels::new();
        m.insert("device".to_owned(), "eth0".to_owned());
        m
    };
    let s = MetricSample::gauge("nft_nic_pcie_link_speed_gts", "help", labels, GaugeValue::Whole(16));
    assert_eq!(s.kind, MetricKind::Gauge);
    assert_eq!(s.value, MetricValue::F64(GaugeValue::Whole(16)));
}

#[test]
fn link_width_gauge_is_gauge_kind() {
    let labels = {
        let mut m = Labels::new();
        m.insert("device".to_owned(), "eth0".to_owned());
        m
    };
    let s = MetricSample::gauge("nft_nic_pcie_link_width", "help", labels, GaugeValue::Whole(16));
    assert_eq!(s.kind, MetricKind::Gauge);
    assert_eq!(s.value, MetricValue::F64(GaugeValue::Whole(16)));
}

/// A physical function gives its link speed and width and its error counters,
/// in this order; what could not be read is left out.
#[test]
fn physical_function_gives_every_family() {
    let mut d = device("eth0");
    d.speed_readable = true;
    d.link_speed = Some(GaugeValue::Bits(16.0_f64.to_bits()));
    d.link_width = Some("8\n".to_owned());
    d.correctable = Some(AER_COR_SAMPLE.to_owned());
    d.nonfatal = Some("DLP 2\n".to_owned());
    let out = parse_all(&[d.clone()]);
    let names: Vec<&str> = out.iter().map(|s| s.name).collect();
    assert_eq!(
        names,
        vec![
            "nft_nic_pcie_link_speed_gts",
            "nft_nic_pcie_link_width",
            "nft_nic_pcie_aer_correctable_total",
            "nft_nic_pcie_aer_nonfatal_total",
        ]
    );
    assert_eq!(out[1].value, MetricValue::F64(GaugeValue::Whole(8)));
    assert_eq!(out[3].value, MetricValue::U64(2));

    d.link_width = Some("4294967296\n".to_owned());
    assert_eq!(parse_all(&[d.clone()]).len(), 3, "the width holds 32 bits");

    d.is_vf = true;
    assert!(parse_all(&[d]).is_empty());
}

/// The sum stops at the largest number.
#[test]
fn aer_sum_saturates() {
    assert_eq!(sum_aer("A 18446744073709551615\nB 1\n"), u64::MAX);
    assert_eq!(sum_aer("A  7 \n"), 7, "the value is trimmed");
    assert_eq!(sum_aer(" A 7\n"), 0, "a line without a key counts nothing");
}
