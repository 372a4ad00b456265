//! Text exposition.
use netlink_exporter::labels::Labels;
use netlink_exporter::metric::{GaugeValue, MetricKind, MetricSample, MetricValue};
use netlink_exporter::registry::{
    classify, encode_samples, escape_help, escape_label_value, kind_str, write_f64,
    write_sample_line, NumberClass, PrometheusRegistryAdapter,
};

#[test]
fn round_trip_gauge_and_counter() {
    let mut labels = Labels::new();
    labels.insert("collector".to_owned(), "rtnetlink".to_owned());

    let samples = vec![
        MetricSample::gauge(
            "nft_up",
            "Exporter liveness: 1 if up, 0 otherwise.",
            Labels::new(),
            GaugeValue::Whole(1),
        ),
        MetricSample::counter(
            "nft_scrape_collector_error_total",
            "Total scrape errors per collector.",
            labels,
            7,
        ),
    ];

    let numbers = vec!["1".to_owned(), String::new()];
    let text = encode_samples(&samples, &numbers).expect("encode should succeed");
    assert!(text.contains("# HELP nft_up"), "missing HELP for nft_up");
    assert!(text.contains("# TYPE nft_up gauge"), "missing TYPE gauge");
    assert!(text.contains("nft_up 1"), "missing nft_up value");
    assert!(
        text.contains("# TYPE nft_scrape_collector_error_total counter"),
        "missing counter TYPE"
    );
    assert!(
        text.contains(r#"nft_scrape_collector_error_total{collector="rtnetlink"} 7"#),
        "missing labelled counter value"
    );
    assert!(text.ends_with("# EOF\n"), "missing EOF marker");
}

#[test]
fn escape_label_value_special_chars() {
    assert_eq!(escape_label_value(r#"a\"b"#), r#"a\\\"b"#);
    assert_eq!(escape_label_value("a\nb"), r"a\nb");
}

fn gauge(name: &'static str, labels: Labels, value: i128) -> MetricSample {
    MetricSample::gauge(name, "A \\ help\ntext.", labels, GaugeValue::Whole(value))
}

/// The decimal texts of whole gauge readings.
fn numbers(samples: &[MetricSample]) -> Vec<String> {
    samples
        .iter()
        .map(|s| match s.value {
            MetricValue::F64(GaugeValue::Whole(n)) => n.to_string(),
            _ => String::new(),
        })
        .collect()
}

/// Names are grouped in ascending order, and the lines of a group are sorted by
/// their label sets.
#[test]
fn exact_text() {
    let samples = vec![
        gauge("b_metric", Labels::new().with("x", "2"), 1),
        MetricSample::counter("a_total", "Count.", Labels::new(), 18_446_744_073_709_551_615),
        gauge("b_metric", Labels::new().with("x", "1").with("y", "q\"q"), -2),
        gauge("b_metric", Labels::new().with("x", "1"), 3),
        gauge("b_metric", Labels::new(), 4),
        gauge("b_metric", Labels::new().with("x", "2"), 5),
    ];
    let text = encode_samples(&samples, &numbers(&samples)).unwrap();
    assert_eq!(
        text,
        "# HELP a_total Count.\n\
         # TYPE a_total counter\n\
         a_total 18446744073709551615\n\
         # HELP b_metric A \\\\ help\\ntext.\n\
         # TYPE b_metric gauge\n\
         b_metric 4\n\
         b_metric{x=\"1\"} 3\n\
         b_metric{x=\"1\",y=\"q\\\"q\"} -2\n\
         b_metric{x=\"2\"} 1\n\
         b_metric{x=\"2\"} 5\n\
         # EOF\n"
    );
}

#[test]
fn no_samples_give_the_end_marker() {
    assert_eq!(encode_samples(&[], &[]).unwrap(), "# EOF\n");
}

/// The help text and the kind of a group are those of its first sample.
#[test]
fn first_sample_heads_the_group() {
    let samples = vec![
        MetricSample::counter("m", "first", Labels::new().with("z", ""), 1),
        MetricSample::gauge("m", "second", Labels::new(), GaugeValue::Whole(2)),
    ];
    let text = encode_samples(&samples, &numbers(&samples)).unwrap();
    assert_eq!(
        text,
        "# HELP m first\n# TYPE m counter\nm 2\nm{z=\"\"} 1\n# EOF\n"
    );
}

#[test]
fn numbers_are_classified() {
    assert_eq!(classify(GaugeValue::Whole(-1)), NumberClass::Finite);
    assert_eq!(classify(GaugeValue::Thousandths(1)), NumberClass::Finite);
    assert_eq!(classify(GaugeValue::Infinite), NumberClass::PositiveInfinity);
    let of = |f: f64| classify(GaugeValue::Bits(f.to_bits()));
    assert_eq!(of(0.5), NumberClass::Finite);
    assert_eq!(of(-0.0), NumberClass::Finite);
    assert_eq!(of(f64::MAX), NumberClass::Finite);
    assert_eq!(of(f64::MIN_POSITIVE), NumberClass::Finite);
    assert_eq!(of(f64::INFINITY), NumberClass::PositiveInfinity);
    assert_eq!(of(f64::NEG_INFINITY), NumberClass::NegativeInfinity);
    assert_eq!(of(f64::NAN), NumberClass::NotANumber);
    assert_eq!(of(-f64::NAN), NumberClass::NotANumber);
}

#[test]
fn special_numbers_have_names() {
    let text = |v: GaugeValue| {
        let mut s = String::new();
        write_f64(&mut s, v, "0.5");
        s
    };
    assert_eq!(text(GaugeValue::Infinite), "+Inf");
    assert_eq!(text(GaugeValue::Bits(f64::NEG_INFINITY.to_bits())), "-Inf");
    assert_eq!(text(GaugeValue::Bits(f64::NAN.to_bits())), "NaN");
    assert_eq!(text(GaugeValue::Bits(0.5_f64.to_bits())), "0.5");
}

#[test]
fn line_of_a_sample() {
    let mut s = String::from(">");
    let labels = Labels::new().with("b", "x\\y").with("a", "line\nfeed");
    write_sample_line(&mut s, "m", &labels, MetricValue::U64(7), "");
    assert_eq!(s, ">m{a=\"line\\nfeed\",b=\"x\\\\y\"} 7\n");
}

/// Quotes stay as they are in a help text.
#[test]
fn help_text_is_escaped() {
    assert_eq!(escape_help("a\"b\\c\nd"), "a\"b\\\\c\\nd");
}

/// The text can be read back from the escaped one, which holds no line feed and
/// no bare quote.
#[test]
fn escaping_loses_nothing() {
    let s = "\\n\n\"\\\"";
    let t = escape_label_value(s);
    assert_eq!(t, "\\\\n\\n\\\"\\\\\\\"");
    assert!(!t.contains('\n'));
    let mut back = String::new();
    let mut it = t.chars();
    while let Some(c) = it.next() {
        match c {
            '\\' => match it.next() {
                Some('n') => back.push('\n'),
                Some(other) => back.push(other),
                None => panic!("no escape ends the text"),
            },
            '"' => panic!("no bare quote"),
            other => back.push(other),
        }
    }
    assert_eq!(back, s);
}

#[test]
fn kinds_have_names() {
    assert_eq!(kind_str(MetricKind::Counter), "counter");
    assert_eq!(kind_str(MetricKind::Gauge), "gauge");
    assert_eq!(kind_str(MetricKind::Histogram), "histogram");
}

/// Each update replaces the whole body.
#[test]
fn update_replaces_the_body() {
    let mut r = PrometheusRegistryAdapter::new();
    assert_eq!(r.encode_text(), "");
    let samples = vec![MetricSample::counter("m", "h", Labels::new(), 1)];
    r.update_samples(&samples, &numbers(&samples)).unwrap();
    assert_eq!(r.encode_text(), "# HELP m h\n# TYPE m counter\nm 1\n# EOF\n");
    r.update_samples(&[], &[]).unwrap();
    assert_eq!(r.encode_text(), "# EOF\n");
    assert_eq!(PrometheusRegistryAdapter::default().encode_text(), "");
}

#[test]
fn exact_readings_need_no_text() {
    let text = |v: GaugeValue| {
        let mut s = String::new();
        write_f64(&mut s, v, "?");
        s
    };
    assert_eq!(text(GaugeValue::Whole(0)), "0");
    assert_eq!(text(GaugeValue::Whole(-17)), "-17");
    assert_eq!(text(GaugeValue::Whole(9_007_199_254_740_992)), "9007199254740992");
    assert_eq!(text(GaugeValue::Whole(9_007_199_254_740_993)), "?");
    assert_eq!(text(GaugeValue::Thousandths(0)), "0");
    assert_eq!(text(GaugeValue::Thousandths(45_000)), "45");
    assert_eq!(text(GaugeValue::Thousandths(45_500)), "45.5");
    assert_eq!(text(GaugeValue::Thousandths(45_250)), "45.25");
    assert_eq!(text(GaugeValue::Thousandths(45_005)), "45.005");
    assert_eq!(text(GaugeValue::Thousandths(-500)), "-0.5");
    assert_eq!(text(GaugeValue::Thousandths(i64::MAX)), "?");
}

/// Exact readings are written as the floating-point numbers are.
#[test]
fn exact_readings_match_floating_point() {
    let text = |v: GaugeValue| {
        let mut s = String::new();
        write_f64(&mut s, v, "?");
        s
    };
    for n in [0_i64, 1, 9, 10, 99, 100, 101, 110, 999, 1000, 1001, 123_456_789, 999_999_999_999_999] {
        for n in [n, -n] {
            assert_eq!(text(GaugeValue::Whole(i128::from(n))), format!("{}", n as f64 + 0.0));
            assert_eq!(text(GaugeValue::Thousandths(n)), format!("{}", n as f64 / 1000.0));
        }
    }
}
