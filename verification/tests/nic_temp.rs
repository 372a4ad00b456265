//! Temperatures.
use netlink_exporter::labels::Labels;
use netlink_exporter::metric::{GaugeValue, MetricKind, MetricSample, MetricValue};
use netlink_exporter::procfs::nic_temp::{
    collect_all, read_optional_text, sensor_label, SensorReading,
};
use netlink_exporter::procfs::paths::path_allowed;

fn as_f64(v: GaugeValue) -> f64 {
    match v {
        GaugeValue::Whole(n) => n as f64,
        GaugeValue::Thousandths(n) => n as f64 / 1000.0,
        GaugeValue::Infinite => f64::INFINITY,
        GaugeValue::Bits(b) => f64::from_bits(b),
    }
}

fn find<'a>(
    samples: &'a [MetricSample],
    device: &str,
    sensor: &str,
) -> Option<&'a MetricSample> {
    samples.iter().find(|m| {
        m.name == "nft_nic_temperature_celsius"
            && m.labels.get("device").map(String::as_str) == Some(device)
            && m.labels.get("sensor").map(String::as_str) == Some(sensor)
    })
}

fn celsius(sample: &MetricSample) -> f64 {
    match sample.value {
        MetricValue::F64(f) => as_f64(f),
        MetricValue::U64(u) => u as f64,
    }
}

fn reading(device: &str, chip: Option<&str>, channel: u32, raw: Option<&str>) -> SensorReading {
    SensorReading {
        device: device.to_owned(),
        chip_name: chip.map(str::to_owned),
        channel,
        raw: raw.map(str::to_owned),
    }
}

/// The temperature that one sensor file gives.
fn temperature(raw: &str) -> f64 {
    let out = collect_all(&[reading("eth0", None, 1, Some(raw))]);
    assert_eq!(out.len(), 1);
    celsius(&out[0])
}

/// `collect_all` with no devices emits no samples.
#[test]
fn nic_temp_empty_device_list_yields_no_samples() {
    let out = collect_all(&[]);
    assert!(out.is_empty());
}

/// `collect_all` skips sensors that could not be read.
#[test]
fn missing_hwmon_dir_is_skipped() {
    let out = collect_all(&[reading("__nonexistent_nic_xyz__", None, 1, None)]);
    assert!(out.is_empty());
}

/// Millidegrees -> Celsius conversion is correct for typical values.
#[test]
fn millidegree_conversion_is_correct() {
    // 54321 md -> 54.321 °C
    let md: i64 = 54_321;
    let celsius = temperature(&format!("{md}\n"));
    assert!((celsius - 54.321_f64).abs() < 1e-9);
}

/// Negative millidegree values (sub-zero ambient) convert correctly.
#[test]
fn negative_millidegree_converts_correctly() {
    let md: i64 = -5_000;
    let celsius = temperature(&format!("{md}\n"));
    assert!((celsius - (-5.0_f64)).abs() < 1e-9);
}

/// Zero millidegrees yields 0.0 °C (edge case — sensor not yet warm).
#[test]
fn zero_millidegrees_yields_zero_celsius() {
    let md: i64 = 0;
    let celsius = temperature(&format!("{md}\n"));
    assert_eq!(celsius, 0.0_f64);
}

/// `read_optional_text` returns `None` for a non-existent path (does not
/// panic, does not return an error, just `None`).
#[test]
fn read_optional_text_returns_none_for_missing_path() {
    // The path may be read, but there is no such file.
    assert!(path_allowed(
        "/sys/class/net/__no_such_nic__/device/hwmon/hwmon0/name"
    ));
    let result = read_optional_text(&None);
    assert!(result.is_none());
}

/// The emitted metric family name, kind, and label keys must be stable.
#[test]
fn emitted_sample_has_correct_kind_and_labels() {
    let mut labels = Labels::new();
    labels.insert("device".to_owned(), "eth0".to_owned());
    labels.insert("sensor".to_owned(), "mlx5_temp1".to_owned());

    let sample = MetricSample::gauge(
        "nft_nic_temperature_celsius",
        "NIC hardware temperature in degrees Celsius (hwmon sysfs, millidegrees / 1000).",
        labels,
        GaugeValue::Thousandths(54_321),
    );

    assert_eq!(sample.kind, MetricKind::Gauge);
    assert_eq!(sample.name, "nft_nic_temperature_celsius");
    assert_eq!(sample.labels.get("device").unwrap(), "eth0");
    assert_eq!(sample.labels.get("sensor").unwrap(), "mlx5_temp1");
}

/// Sensor label uses chip name prefix when chip name is non-empty.
#[test]
fn sensor_label_uses_chip_name_when_present() {
    let chip_name: Option<&str> = Some("mlx5");
    let n: u32 = 2;
    let sensor = sensor_label(chip_name, n);
    assert_eq!(sensor, "mlx5_temp2");
}

/// Sensor label falls back to bare index when chip name is absent.
#[test]
fn sensor_label_falls_back_to_bare_index_when_no_chip_name() {
    let chip_name: Option<&str> = None;
    let n: u32 = 3;
    let sensor = sensor_label(chip_name, n);
    assert_eq!(sensor, "temp3");
}

/// Sensor label falls back when chip name is an empty string (trimmed).
#[test]
fn sensor_label_falls_back_when_chip_name_is_empty_string() {
    let chip_name: Option<&str> = Some("");
    let n: u32 = 1;
    let sensor = sensor_label(chip_name, n);
    assert_eq!(sensor, "temp1");
}

#[test]
fn find_helper_returns_correct_sample() {
    let mut labels = Labels::new();
    labels.insert("device".to_owned(), "enp4s0".to_owned());
    labels.insert("sensor".to_owned(), "coretemp_temp1".to_owned());
    let sample = MetricSample::gauge(
        "nft_nic_temperature_celsius",
        "NIC hardware temperature in degrees Celsius (hwmon sysfs, millidegrees / 1000).",
        labels,
        GaugeValue::Thousandths(72_000),
    );
    let samples = vec![sample];
    let found = find(&samples, "enp4s0", "coretemp_temp1");
    assert!(found.is_some());
    assert!((celsius(found.unwrap()) - 72.0_f64).abs() < 1e-9);
}

#[test]
fn find_helper_returns_none_for_wrong_labels() {
    let mut labels = Labels::new();
    labels.insert("device".to_owned(), "eth0".to_owned());
    labels.insert("sensor".to_owned(), "temp1".to_owned());
    let sample = MetricSample::gauge(
        "nft_nic_temperature_celsius",
        "NIC hardware temperature in degrees Celsius (hwmon sysfs, millidegrees / 1000).",
        labels,
        GaugeValue::Thousandths(45_000),
    );
    let samples = vec![sample];
    assert!(find(&samples, "eth0", "temp2").is_none());
    assert!(find(&samples, "eth1", "temp1").is_none());
}

/// A reading gives one gauge, labelled with its device and sensor.
#[test]
fn reading_gives_a_labelled_gauge() {
    let out = collect_all(&[
        reading("enp4s0", Some("mlx5"), 1, Some("54321\n")),
        reading("enp4s0", Some(""), 2, Some("not a number\n")),
        reading("enp4s0", Some(""), 3, Some("-1\n")),
    ]);
    assert_eq!(out.len(), 2);
    let s = find(&out, "enp4s0", "mlx5_temp1").unwrap();
    assert_eq!(s.kind, MetricKind::Gauge);
    assert_eq!(s.value, MetricValue::F64(GaugeValue::Thousandths(54_321)));
    let s = find(&out, "enp4s0", "temp3").unwrap();
    assert_eq!(s.value, MetricValue::F64(GaugeValue::Thousandths(-1)));
}

/// The text of a file is trimmed.
#[test]
fn optional_text_is_trimmed() {
    assert_eq!(
        read_optional_text(&Some(" mlx5\n".to_owned())),
        Some("mlx5".to_owned())
    );
}

#[test]
fn chips_have_distinct_labels() {
    assert_eq!(sensor_label(Some("mlx5"), 1), "mlx5_temp1");
    assert_eq!(sensor_label(Some("mlx4"), 1), "mlx4_temp1");
    assert_ne!(sensor_label(Some("mlx5"), 1), sensor_label(Some("mlx4"), 1));
}
