//! Byte queue limits.
use netlink_exporter::metric::{GaugeValue, MetricKind, MetricSample, MetricValue};
use netlink_exporter::procfs::nic_bql::{parse_devices, read_u64, DeviceQueues, QueueReading};
use netlink_exporter::procfs::paths::path_allowed;

fn as_f64(v: GaugeValue) -> f64 {
    match v {
        GaugeValue::Whole(n) => n as f64,
        GaugeValue::Thousandths(n) => n as f64 / 1000.0,
        GaugeValue::Infinite => f64::INFINITY,
        GaugeValue::Bits(b) => f64::from_bits(b),
    }
}

/// Find the first sample matching `name` and `device` label value.
fn find<'a>(samples: &'a [MetricSample], name: &str, device: &str) -> Option<&'a MetricSample> {
    samples
        .iter()
        .find(|m| m.name == name && m.labels.get("device").map(String::as_str) == Some(device))
}

fn gauge_value(s: &MetricSample) -> f64 {
    match s.value {
        MetricValue::F64(f) => as_f64(f),
        MetricValue::U64(n) => n as f64,
    }
}

/// A device whose queues could not be listed.
fn absent(device: &str) -> DeviceQueues {
    DeviceQueues {
        device: device.to_owned(),
        queues: None,
    }
}

fn queue(entry: &str, limit: Option<&str>, inflight: Option<&str>) -> QueueReading {
    QueueReading {
        entry: entry.to_owned(),
        limit: limit.map(str::to_owned),
        inflight: inflight.map(str::to_owned),
    }
}

/// A host with one device with two transmit queues, a loopback without limits
/// and a device that cannot be listed.
fn host() -> Vec<DeviceQueues> {
    vec![
        DeviceQueues {
            device: "eth0".to_owned(),
            queues: Some(vec![
                queue("rx-0", None, None),
                queue("tx-0", Some("131072\n"), Some("42\n")),
                queue("tx-1", Some("1000\n"), None),
            ]),
        },
        DeviceQueues {
            device: "lo".to_owned(),
            queues: Some(vec![queue("rx-0", None, None), queue("tx-0", None, None)]),
        },
        absent("ghost0"),
    ]
}

#[test]
fn nic_bql_empty_device_list_yields_no_samples() {
    let out = parse_devices(&[]);
    assert!(out.is_empty(), "no devices → no samples");
}

#[test]
fn nonexistent_device_is_skipped_not_panicked() {
    let devs = vec![absent("not_a_real_iface_xyz")];
    let out = parse_devices(&devs);
    assert!(out.is_empty());
}

#[test]
fn two_nonexistent_devices_both_skipped() {
    let devs = vec![absent("ghost0"), absent("ghost1")];
    let out = parse_devices(&devs);
    assert!(out.is_empty());
}

#[test]
fn read_u64_on_nonexistent_path_returns_none() {
    // The path may be read, but there is no such file.
    assert!(path_allowed(
        "/sys/class/net/__no_such_device__/queues/tx-0/byte_queue_limits/limit"
    ));
    let v = read_u64(&None);
    assert!(v.is_none());
}

#[test]
fn read_u64_rejects_non_numeric_content() {
    let result: Option<u64> = read_u64(&Some("max\n".to_owned()));
    assert!(result.is_none(), "non-numeric content must yield None");
}

#[test]
fn read_u64_parses_decimal_with_trailing_newline() {
    let result: Option<u64> = read_u64(&Some("131072\n".to_owned()));
    assert_eq!(result, Some(131_072_u64));
}

#[test]
fn parse_devices_with_real_sysfs_does_not_panic() {
    let devs = host();
    let out = parse_devices(&devs);

    // Every emitted sample must have a non-empty device label.
    for s in &out {
        let device = s.labels.get("device").map_or("", String::as_str);
        assert!(!device.is_empty(), "device label must be non-empty");
    }
}

#[test]
fn emitted_samples_are_gauges_not_counters() {
    let devs = host();
    let out = parse_devices(&devs);
    for s in &out {
        assert_eq!(
            s.kind,
            MetricKind::Gauge,
            "BQL samples must be gauges, got {:?} for {}",
            s.kind,
            s.name
        );
    }
}

#[test]
fn limit_and_inflight_are_the_only_metric_names() {
    let devs = host();
    let out = parse_devices(&devs);
    let allowed = ["nft_nic_bql_limit_bytes", "nft_nic_bql_inflight_bytes"];
    for s in &out {
        assert!(
            allowed.contains(&s.name),
            "unexpected metric name: {}",
            s.name
        );
    }
}

/// Verify that, for every device appearing in the output, both families are
/// present (we always emit limit + inflight together when a device qualifies).
#[test]
fn both_families_emitted_per_qualifying_device() {
    let devs = host();
    let out = parse_devices(&devs);

    // Collect the unique device names seen in the output.
    let mut seen_devices: std::collections::BTreeSet<&str> = std::collections::BTreeSet::new();
    for s in &out {
        if let Some(d) = s.labels.get("device") {
            seen_devices.insert(d.as_str());
        }
    }

    // Each qualifying device must have exactly one of each family.
    for dev in &seen_devices {
        let limit_count = out
            .iter()
            .filter(|s| {
                s.name == "nft_nic_bql_limit_bytes"
                    && s.labels.get("device").map(String::as_str) == Some(dev)
            })
            .count();
        let inflight_count = out
            .iter()
            .filter(|s| {
                s.name == "nft_nic_bql_inflight_bytes"
                    && s.labels.get("device").map(String::as_str) == Some(dev)
            })
            .count();
        assert_eq!(limit_count, 1, "device {dev}: expected 1 limit sample");
        assert_eq!(
            inflight_count, 1,
            "device {dev}: expected 1 inflight sample"
        );
    }
}

/// Gauge values are non-negative.
#[test]
fn gauge_values_are_non_negative() {
    let devs = host();
    let out = parse_devices(&devs);
    for s in &out {
        let v = gauge_value(s);
        assert!(v >= 0.0, "gauge {} must be non-negative, got {v}", s.name);
    }
}

/// A device that is listed twice gives its series twice.
#[test]
fn duplicate_device_names_do_not_panic() {
    let devs = vec![absent("lo"), absent("lo")];
    assert!(parse_devices(&devs).is_empty());
    let mut twice = host();
    twice.extend(host());
    assert_eq!(parse_devices(&twice).len(), 4);
}

/// Verify that a device is skipped if it has no tx- queues with BQL —
/// confirmed by using a device name that has no queues directory at all.
#[test]
fn device_with_no_tx_queues_produces_no_output() {
    let devs = vec![absent("__phantom_device__")];
    let out = parse_devices(&devs);
    assert!(find(&out, "nft_nic_bql_limit_bytes", "__phantom_device__").is_none());
    assert!(find(&out, "nft_nic_bql_inflight_bytes", "__phantom_device__").is_none());
}

/// Limits and bytes in flight are added up over the transmit queues; receive
/// queues and unreadable files add nothing.
#[test]
fn queue_values_are_summed() {
    let out = parse_devices(&host());
    assert_eq!(out.len(), 2);
    let limit = find(&out, "nft_nic_bql_limit_bytes", "eth0").unwrap();
    assert_eq!(limit.value, MetricValue::F64(GaugeValue::Whole(132_072)));
    let inflight = find(&out, "nft_nic_bql_inflight_bytes", "eth0").unwrap();
    assert_eq!(inflight.value, MetricValue::F64(GaugeValue::Whole(42)));
    assert!(find(&out, "nft_nic_bql_limit_bytes", "lo").is_none());
}

/// The sum stops at the largest number.
#[test]
fn queue_sum_saturates() {
    let max = "18446744073709551615\n";
    let dev = DeviceQueues {
        device: "eth0".to_owned(),
        queues: Some(vec![
            queue("tx-0", Some(max), Some("0\n")),
            queue("tx-1", Some("1\n"), Some("0\n")),
        ]),
    };
    let out = parse_devices(&[dev]);
    let limit = find(&out, "nft_nic_bql_limit_bytes", "eth0").unwrap();
    assert_eq!(
        limit.value,
        MetricValue::F64(GaugeValue::Whole(18_446_744_073_709_551_615))
    );
}
