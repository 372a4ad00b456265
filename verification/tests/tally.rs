//! Counting by a pair of labels.
use netlink_exporter::labels::Labels;
use netlink_exporter::metric::{GaugeValue, MetricValue};
use netlink_exporter::tally::{push_pair_gauges, Tally};

/// Every pair is counted once for each time it was added, and the pairs come
/// out in ascending order.
#[test]
fn pairs_are_counted_in_order() {
    let mut t = Tally::new();
    t.add("inet6", "main");
    t.add("inet", "main");
    t.add("inet6", "main");
    t.add("inet", "local");
    assert_eq!(t.get("inet6", "main"), 2);
    assert_eq!(t.get("inet", "main"), 1);
    assert_eq!(t.get("inet", "other"), 0);
    let order: Vec<(&str, &str, u64)> =
        t.entries.iter().map(|c| (c.first.as_str(), c.second.as_str(), c.count)).collect();
    assert_eq!(
        order,
        vec![("inet", "local", 1), ("inet", "main", 1), ("inet6", "main", 2)]
    );
    let total: u64 = t.entries.iter().map(|c| c.count).sum();
    assert_eq!(total, 4);
}

#[test]
fn every_pair_gives_a_gauge() {
    let mut t = Tally::new();
    t.add("inet", "stale");
    t.add("inet", "stale");
    let mut out = Vec::new();
    push_pair_gauges(&mut out, &t, "nft_neighbours", "Neighbours.", "family", "state");
    assert_eq!(out.len(), 1);
    assert_eq!(out[0].name, "nft_neighbours");
    assert_eq!(out[0].help, "Neighbours.");
    assert_eq!(out[0].labels, Labels::new().with("family", "inet").with("state", "stale"));
    assert_eq!(out[0].value, MetricValue::F64(GaugeValue::Whole(2)));
}
