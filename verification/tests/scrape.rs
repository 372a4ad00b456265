//! Collector selection and the scrape cycle.
use netlink_exporter::config::ExporterConfig;
use netlink_exporter::labels::Labels;
use netlink_exporter::metric::{GaugeValue, MetricSample, MetricValue};
use netlink_exporter::scrape::{
    flag_name, CollectorKind, CollectorRegistry, CollectorRun, Outcome, ScrapeService,
};

fn run(name: &str, outcome: Outcome) -> CollectorRun {
    CollectorRun {
        name: name.to_owned(),
        outcome,
        duration: GaugeValue::Bits(0.25_f64.to_bits()),
    }
}

fn sample(name: &'static str) -> MetricSample {
    MetricSample::counter(name, "help", Labels::new(), 1)
}

fn value<'a>(out: &'a [MetricSample], name: &str, collector: &str) -> &'a MetricValue {
    let s = out
        .iter()
        .find(|s| {
            s.name == name && s.labels.get("collector").map(String::as_str) == Some(collector)
        })
        .unwrap();
    &s.value
}

#[test]
fn default_configuration_enables_every_netlink_collector() {
    let r = CollectorRegistry::from_config(&ExporterConfig::default());
    let names: Vec<&str> = r.inner.iter().map(|&k| flag_name(k)).collect();
    assert_eq!(
        names,
        vec![
            "rtnetlink",
            "rtnetlink_extended",
            "traffic_control",
            "conntrack",
            "conntrack_expect",
            "nftables",
            "sock_diag",
            "ethtool",
            "ipvs",
            "wireguard",
            "devlink",
            "drop_monitor",
            "xfrm",
        ]
    );
}

/// A collector takes part exactly when its flag is set.
#[test]
fn disabled_collectors_are_left_out() {
    let mut config = ExporterConfig::default();
    config.collectors.rtnetlink = false;
    config.collectors.xfrm = false;
    config.collectors.softnet = true;
    let r = CollectorRegistry::from_config(&config);
    assert_eq!(r.inner.len(), 12);
    assert_eq!(r.inner[0], CollectorKind::RtnetlinkExtended);
    assert_eq!(r.inner[11], CollectorKind::Softnet);
    assert!(!r.inner.contains(&CollectorKind::Xfrm));
}

#[test]
fn samples_of_a_cycle_in_order() {
    let mut s = ScrapeService::new(30_000, vec![("rtnetlink".to_owned(), true)]);
    assert_eq!(s.scrape_timeout_ms, 30_000);
    let runs = vec![
        run("rtnetlink", Outcome::Samples(vec![sample("a"), sample("b")])),
        run("ipvs", Outcome::Failed),
    ];
    let out = s.scrape(runs, "0.1.0");
    let names: Vec<&str> = out.iter().map(|s| s.name).collect();
    assert_eq!(
        names,
        vec![
            "a",
            "b",
            "nft_up",
            "nft_build_info",
            "nft_scrape_collector_available",
            "nft_scrape_collector_success",
            "nft_scrape_collector_duration_seconds",
            "nft_scrape_collector_error_total",
            "nft_scrape_collector_available",
            "nft_scrape_collector_success",
            "nft_scrape_collector_duration_seconds",
            "nft_scrape_collector_error_total",
        ]
    );
    assert_eq!(out[3].labels, Labels::new().with("version", "0.1.0"));
    let one = MetricValue::F64(GaugeValue::Whole(1));
    let zero = MetricValue::F64(GaugeValue::Whole(0));
    assert_eq!(value(&out, "nft_scrape_collector_available", "rtnetlink"), &one);
    assert_eq!(value(&out, "nft_scrape_collector_available", "ipvs"), &zero);
    assert_eq!(value(&out, "nft_scrape_collector_success", "rtnetlink"), &one);
    assert_eq!(value(&out, "nft_scrape_collector_success", "ipvs"), &zero);
    assert_eq!(
        value(&out, "nft_scrape_collector_duration_seconds", "ipvs"),
        &MetricValue::F64(GaugeValue::Bits(0.25_f64.to_bits()))
    );
}

/// Failures and timeouts are counted across cycles, successes are not.
#[test]
fn errors_accumulate() {
    let mut s = ScrapeService::new(1, vec![]);
    s.scrape(vec![run("a", Outcome::Failed), run("b", Outcome::Samples(vec![]))], "v");
    s.scrape(vec![run("a", Outcome::TimedOut), run("b", Outcome::Samples(vec![]))], "v");
    let out = s.scrape(
        vec![run("a", Outcome::Samples(vec![])), run("b", Outcome::Samples(vec![]))],
        "v",
    );
    assert_eq!(value(&out, "nft_scrape_collector_error_total", "a"), &MetricValue::U64(2));
    assert_eq!(value(&out, "nft_scrape_collector_error_total", "b"), &MetricValue::U64(0));
}

/// A failing collector takes nothing away from the others.
#[test]
fn failure_is_isolated() {
    let mut s = ScrapeService::new(1, vec![]);
    let out = s.scrape(
        vec![
            run("a", Outcome::TimedOut),
            run("b", Outcome::Samples(vec![sample("kept")])),
        ],
        "v",
    );
    assert_eq!(out[0].name, "kept");
}

/// A collector whose subsystem is not available is not run, and that is no error.
#[test]
fn unavailable_collector_is_skipped() {
    let mut s = ScrapeService::new(
        1,
        vec![("a".to_owned(), false), ("b".to_owned(), true)],
    );
    assert!(!s.due("a"));
    assert!(s.due("b"));
    assert!(!s.due("c"));
    let out = s.scrape(
        vec![run("a", Outcome::Skipped), run("b", Outcome::Samples(vec![]))],
        "v",
    );
    let zero = MetricValue::F64(GaugeValue::Whole(0));
    assert_eq!(value(&out, "nft_scrape_collector_available", "a"), &zero);
    assert_eq!(value(&out, "nft_scrape_collector_success", "a"), &zero);
    assert_eq!(value(&out, "nft_scrape_collector_error_total", "a"), &MetricValue::U64(0));
}
