//! Interrupt counters.
use netlink_exporter::metric::{MetricKind, MetricSample, MetricValue};
use netlink_exporter::procfs::irq::parse;

/// Realistic 4-CPU `/proc/interrupts` excerpt.  Columns after the colon:
/// 4 decimal counts, chip name, hwirq, edge/level token, optional `-name`, device.
const SAMPLE: &str = "\
       CPU0       CPU1       CPU2       CPU3\n\
   1:          0          0          0          0   IO-APIC   1-edge      i8042\n\
   8:          0          0          0          1   IO-APIC   8-edge      rtc0\n\
  27:          3          5          2          7   PCI-MSI 524288-edge      xhci_hcd\n\
1471:          0          0          0          1   PCI-MSI 1572864-edge      eth0-TxRx-0\n\
1472:          2          4          0          0   PCI-MSI 1572865-edge      eth0-TxRx-1\n\
 NMI:          0          0          0          0   Non-maskable interrupts\n\
 LOC:    1234567    2345678    3456789    4567890   Local timer interrupts\n\
";

fn find<'a>(samples: &'a [MetricSample], irq: &str) -> Option<&'a MetricSample> {
    samples
        .iter()
        .find(|m| m.labels.get("irq").map(String::as_str) == Some(irq))
}

#[test]
fn numeric_irqs_are_collected() {
    let out = parse(SAMPLE);
    assert!(find(&out, "1").is_some(), "irq 1 must be collected");
    assert!(find(&out, "8").is_some(), "irq 8 must be collected");
    assert!(find(&out, "27").is_some(), "irq 27 must be collected");
    assert!(find(&out, "1471").is_some(), "irq 1471 must be collected");
    assert!(find(&out, "1472").is_some(), "irq 1472 must be collected");
}

#[test]
fn symbolic_irqs_are_skipped() {
    let out = parse(SAMPLE);
    assert!(find(&out, "NMI").is_none(), "NMI must be excluded");
    assert!(find(&out, "LOC").is_none(), "LOC must be excluded");
}

#[test]
fn counts_are_summed_across_cpus() {
    let out = parse(SAMPLE);
    // irq 27: 3+5+2+7 = 17
    let sample = find(&out, "27").unwrap();
    assert_eq!(
        sample.value,
        MetricValue::U64(17),
        "irq 27 counts must sum to 17"
    );
    // irq 1471: 0+0+0+1 = 1
    let sample1471 = find(&out, "1471").unwrap();
    assert_eq!(
        sample1471.value,
        MetricValue::U64(1),
        "irq 1471 counts must sum to 1"
    );
}

#[test]
fn device_label_is_extracted() {
    let out = parse(SAMPLE);
    let s = find(&out, "27").unwrap();
    assert_eq!(
        s.labels.get("device").map(String::as_str),
        Some("xhci_hcd"),
        "device must be extracted after double-space"
    );
    let s1471 = find(&out, "1471").unwrap();
    assert_eq!(
        s1471.labels.get("device").map(String::as_str),
        Some("eth0-TxRx-0"),
    );
}

#[test]
fn irq_label_is_the_numeric_string() {
    let out = parse(SAMPLE);
    let s = find(&out, "1472").unwrap();
    assert_eq!(s.labels.get("irq").map(String::as_str), Some("1472"));
}

#[test]
fn metric_kind_is_counter() {
    let out = parse(SAMPLE);
    let s = find(&out, "8").unwrap();
    assert_eq!(s.kind, MetricKind::Counter, "irq metric must be a counter");
}

#[test]
fn metric_name_is_nft_irq_total() {
    let out = parse(SAMPLE);
    let s = find(&out, "1").unwrap();
    assert_eq!(s.name, "nft_irq_total");
}

#[test]
fn row_with_no_counts_is_skipped() {
    // A line where everything after the colon is non-numeric — defensive.
    let input = "  42:  no-counts-here\n";
    let out = parse(input);
    // The row has no all-digit tokens so it must be skipped.
    assert!(
        find(&out, "42").is_none(),
        "row with no numeric counts must be skipped"
    );
}

#[test]
fn irq_empty_input_yields_no_samples() {
    assert!(parse("").is_empty());
}

#[test]
fn header_line_is_skipped() {
    let out = parse("           CPU0       CPU1\n");
    assert!(out.is_empty(), "header line must produce no samples");
}

#[test]
fn missing_device_yields_empty_string() {
    // A valid row but with no double-space after counts (edge case).
    let input = "  99:          5          3   SomeChip\n";
    let out = parse(input);
    let s = find(&out, "99");
    if let Some(sample) = s {
        assert_eq!(
            sample.labels.get("device").map(String::as_str),
            Some(""),
            "missing device must yield empty string label"
        );
        assert_eq!(sample.value, MetricValue::U64(8));
    }
    // If the row was skipped entirely (zero counts but row present) that is
    // also acceptable — the count is 8 so it must not be skipped.
}

#[test]
fn all_zero_counts_row_is_kept() {
    // irq 1 in SAMPLE has all-zero counts; it must still appear.
    let out = parse(SAMPLE);
    let s = find(&out, "1").unwrap();
    assert_eq!(s.value, MetricValue::U64(0));
}
