//! The collector set and the scrape cycle.
use crate::config::{flag_set, law_flags_named, CollectorFlags, ConfigPort, ExporterConfig};
use crate::labels::{no_labels, Labels};
use crate::metric::{
    counter_view, counts, flag, flag_value, gauge_view, holds, is_counter, is_gauge, lemma_holds,
    lemma_holds_through, push_counter, push_gauge, reads, views, whole, GaugeValue, MetricSample,
    SampleView,
};
use crate::text::str_eq;
use vstd::prelude::*;

verus! {

// ---------------------------------------------------------------------------
// Collector set
// ---------------------------------------------------------------------------

/// A collector that can be enabled.
#[derive(Clone, Copy, Debug, PartialEq, Eq, Structural)]
pub enum CollectorKind {
    /// Links, addresses, routes and neighbours.
    Rtnetlink,
    /// Extended link statistics.
    RtnetlinkExtended,
    /// Traffic control.
    TrafficControl,
    /// Connection tracking.
    Conntrack,
    /// Connection tracking expectations.
    ConntrackExpect,
    /// nftables.
    Nftables,
    /// Socket diagnostics.
    SockDiag,
    /// Ethtool statistics.
    Ethtool,
    /// IPVS.
    Ipvs,
    /// WireGuard.
    Wireguard,
    /// Devlink.
    Devlink,
    /// Drop monitor.
    DropMonitor,
    /// XFRM.
    Xfrm,
    /// Per-CPU packet backlog.
    Softnet,
}

/// All collectors, in the order in which they run.
pub open spec fn all_kinds() -> Seq<CollectorKind> {
    seq![
        CollectorKind::Rtnetlink,
        CollectorKind::RtnetlinkExtended,
        CollectorKind::TrafficControl,
        CollectorKind::Conntrack,
        CollectorKind::ConntrackExpect,
        CollectorKind::Nftables,
        CollectorKind::SockDiag,
        CollectorKind::Ethtool,
        CollectorKind::Ipvs,
        CollectorKind::Wireguard,
        CollectorKind::Devlink,
        CollectorKind::DropMonitor,
        CollectorKind::Xfrm,
        CollectorKind::Softnet,
    ]
}

/// The name of the flag that enables a collector.
pub open spec fn flag_text(kind: CollectorKind) -> Seq<char> {
    match kind {
        CollectorKind::Rtnetlink => "rtnetlink"@,
        CollectorKind::RtnetlinkExtended => "rtnetlink_extended"@,
        CollectorKind::TrafficControl => "traffic_control"@,
        CollectorKind::Conntrack => "conntrack"@,
        CollectorKind::ConntrackExpect => "conntrack_expect"@,
        CollectorKind::Nftables => "nftables"@,
        CollectorKind::SockDiag => "sock_diag"@,
        CollectorKind::Ethtool => "ethtool"@,
        CollectorKind::Ipvs => "ipvs"@,
        CollectorKind::Wireguard => "wireguard"@,
        CollectorKind::Devlink => "devlink"@,
        CollectorKind::DropMonitor => "drop_monitor"@,
        CollectorKind::Xfrm => "xfrm"@,
        CollectorKind::Softnet => "softnet"@,
    }
}

/// The name of the flag that enables a collector.
pub fn flag_name(kind: CollectorKind) -> (r: &'static str)
    ensures
        r@ == flag_text(kind),
{
    match kind {
        CollectorKind::Rtnetlink => "rtnetlink",
        CollectorKind::RtnetlinkExtended => "rtnetlink_extended",
        CollectorKind::TrafficControl => "traffic_control",
        CollectorKind::Conntrack => "conntrack",
        CollectorKind::ConntrackExpect => "conntrack_expect",
        CollectorKind::Nftables => "nftables",
        CollectorKind::SockDiag => "sock_diag",
        CollectorKind::Ethtool => "ethtool",
        CollectorKind::Ipvs => "ipvs",
        CollectorKind::Wireguard => "wireguard",
        CollectorKind::Devlink => "devlink",
        CollectorKind::DropMonitor => "drop_monitor",
        CollectorKind::Xfrm => "xfrm",
        CollectorKind::Softnet => "softnet",
    }
}

/// Those of `kinds` whose flag is set, in order.
pub open spec fn enabled_kinds(flags: CollectorFlags, kinds: Seq<CollectorKind>) -> Seq<
    CollectorKind,
>
    decreases kinds.len(),
{
    if kinds.len() == 0 {
        seq![]
    } else {
        let rest = enabled_kinds(flags, kinds.drop_last());
        if flag_set(flags, flag_text(kinds.last())) {
            rest.push(kinds.last())
        } else {
            rest
        }
    }
}

/// Holds the enabled collectors.
#[derive(Clone, Debug)]
pub struct CollectorRegistry {
    /// The enabled collectors, in the order in which they run.
    pub inner: Vec<CollectorKind>,
}

impl CollectorRegistry {
    /// Builds the collector set from the configuration's flags.
    pub fn from_config(config: &ExporterConfig) -> (r: Self)
        ensures
            r.inner@ == enabled_kinds(config.collectors, all_kinds()),
    {
        let kinds: [CollectorKind; 14] = [
            CollectorKind::Rtnetlink,
            CollectorKind::RtnetlinkExtended,
            CollectorKind::TrafficControl,
            CollectorKind::Conntrack,
            CollectorKind::ConntrackExpect,
            CollectorKind::Nftables,
            CollectorKind::SockDiag,
            CollectorKind::Ethtool,
            CollectorKind::Ipvs,
            CollectorKind::Wireguard,
            CollectorKind::Devlink,
            CollectorKind::DropMonitor,
            CollectorKind::Xfrm,
            CollectorKind::Softnet,
        ];
        let mut inner: Vec<CollectorKind> = Vec::new();
        let mut i: usize = 0;
        proof {
            assert(kinds@ =~= all_kinds());
            assert(inner@ =~= enabled_kinds(config.collectors, all_kinds().take(0)));
        }
        while i < 14
            invariant
                i <= 14,
                kinds@ == all_kinds(),
                inner@ == enabled_kinds(config.collectors, all_kinds().take(i as int)),
            decreases 14 - i,
        {
            let kind = kinds[i];
            proof {
                assert(all_kinds().take(i as int + 1).drop_last() =~= all_kinds().take(i as int));
            }
            if config.collector_enabled(flag_name(kind)) {
                inner.push(kind);
            }
            i += 1;
        }
        proof {
            assert(all_kinds().take(14) =~= all_kinds());
        }
        CollectorRegistry { inner }
    }
}

// ---------------------------------------------------------------------------
// Scrape cycle
// ---------------------------------------------------------------------------

/// How a collector's run ended.
#[derive(Debug)]
pub enum Outcome {
    /// It returned these samples.
    Samples(Vec<MetricSample>),
    /// It returned an error.
    Failed,
    /// It did not return in time.
    TimedOut,
    /// It was not run, as its kernel subsystem is not available.
    Skipped,
}

/// The run counts as an error.
pub open spec fn is_error(outcome: Outcome) -> bool {
    outcome is Failed || outcome is TimedOut
}

/// One run of a collector in a scrape cycle.
#[derive(Debug)]
pub struct CollectorRun {
    /// Name of the collector.
    pub name: String,
    /// How the run ended.
    pub outcome: Outcome,
    /// How long it took, in seconds.
    pub duration: GaugeValue,
}

/// The count for `name`, zero when there is none.
pub open spec fn count_for(counts: Seq<(String, u64)>, name: Seq<char>) -> u64
    decreases counts.len(),
{
    if counts.len() == 0 {
        0
    } else if counts[0].0@ == name {
        counts[0].1
    } else {
        count_for(counts.skip(1), name)
    }
}

/// `n` plus one, but at most the largest number.
pub open spec fn saturating_next(n: u64) -> u64 {
    if n < u64::MAX {
        (n + 1) as u64
    } else {
        n
    }
}

/// The count after the failures of `name` among the first `k` runs.
pub open spec fn count_after(start: u64, runs: Seq<CollectorRun>, name: Seq<char>, k: nat) -> u64
    decreases k,
{
    if k == 0 {
        start
    } else {
        let before = count_after(start, runs, name, (k - 1) as nat);
        if runs[k - 1].name@ == name && is_error(runs[k - 1].outcome) {
            saturating_next(before)
        } else {
            before
        }
    }
}

/// Whether `name` was found available; an unknown name was not.
pub open spec fn available_for(list: Seq<(String, bool)>, name: Seq<char>) -> bool
    decreases list.len(),
{
    if list.len() == 0 {
        false
    } else if list[0].0@ == name {
        list[0].1
    } else {
        available_for(list.skip(1), name)
    }
}

/// The samples of the first `k` runs that succeeded, in order.
pub open spec fn collected(runs: Seq<CollectorRun>, k: nat) -> Seq<SampleView>
    decreases k,
{
    if k == 0 {
        seq![]
    } else {
        let before = collected(runs, (k - 1) as nat);
        match runs[k - 1].outcome {
            Outcome::Samples(samples) => before + views(samples@),
            _ => before,
        }
    }
}

/// The samples about the exporter itself.
pub open spec fn exporter_samples(version: Seq<char>) -> Seq<SampleView> {
    seq![
        gauge_view(
            "nft_up"@,
            "Exporter liveness: 1 if the exporter is up."@,
            no_labels(),
            whole(1),
        ),
        gauge_view(
            "nft_build_info"@,
            "A metric with value 1 exposing build information."@,
            no_labels().insert("version"@, version),
            whole(1),
        ),
    ]
}

/// The samples about one run of a collector.
pub open spec fn run_samples(
    name: Seq<char>,
    success: bool,
    duration: GaugeValue,
    available: bool,
    errors: u64,
) -> Seq<SampleView> {
    let labels = no_labels().insert("collector"@, name);
    seq![
        gauge_view(
            "nft_scrape_collector_available"@,
            "1 if the collector's kernel subsystem was available at startup."@,
            labels,
            flag(available),
        ),
        gauge_view(
            "nft_scrape_collector_success"@,
            "1 if the last scrape of this collector succeeded."@,
            labels,
            flag(success),
        ),
        gauge_view(
            "nft_scrape_collector_duration_seconds"@,
            "Duration of the last scrape cycle for this collector in seconds."@,
            labels,
            duration,
        ),
        counter_view(
            "nft_scrape_collector_error_total"@,
            "Total number of scrape errors for this collector since process start."@,
            labels,
            errors,
        ),
    ]
}

/// The samples about the first `k` runs, with the availability and the error
/// counts that `service` holds.
pub open spec fn telemetry(runs: Seq<CollectorRun>, service: ScrapeService, k: nat) -> Seq<
    SampleView,
>
    decreases k,
{
    if k == 0 {
        seq![]
    } else {
        let run = runs[k - 1];
        telemetry(runs, service, (k - 1) as nat) + run_samples(
            run.name@,
            run.outcome is Samples,
            run.duration,
            available_for(service.availability@, run.name@),
            service.errors_of(run.name@),
        )
    }
}

/// Turns the runs of the collectors into the samples of a scrape, and counts
/// failures across scrapes.
#[derive(Debug)]
pub struct ScrapeService {
    /// Scrape timeout in milliseconds.
    pub scrape_timeout_ms: u64,
    /// Which collectors were available at startup.
    pub availability: Vec<(String, bool)>,
    /// Failures of each collector so far.
    pub errors: Vec<(String, u64)>,
}

proof fn lemma_count_update(counts: Seq<(String, u64)>, i: int, n: u64, name: Seq<char>)
    requires
        0 <= i < counts.len(),
        forall|j: int| 0 <= j < i ==> (#[trigger] counts[j]).0@ != counts[i].0@,
    ensures
        count_for(counts.update(i, (counts[i].0, n)), name) == (if name == counts[i].0@ {
            n
        } else {
            count_for(counts, name)
        }),
    decreases counts.len(),
{
    let u = counts.update(i, (counts[i].0, n));
    if i == 0 {
        assert(u.skip(1) =~= counts.skip(1));
    } else {
        let rest = counts.skip(1);
        assert forall|j: int| 0 <= j < i - 1 implies (#[trigger] rest[j]).0@ != rest[i - 1].0@ by {
            assert(rest[j] == counts[j + 1]);
        }
        lemma_count_update(rest, i - 1, n, name);
        assert(u.skip(1) =~= rest.update(i - 1, (counts[i].0, n)));
    }
}

proof fn lemma_count_push(counts: Seq<(String, u64)>, e: (String, u64), name: Seq<char>)
    requires
        forall|j: int| 0 <= j < counts.len() ==> (#[trigger] counts[j]).0@ != e.0@,
    ensures
        count_for(counts.push(e), name) == (if name == e.0@ {
            e.1
        } else {
            count_for(counts, name)
        }),
        count_for(counts, e.0@) == 0,
    decreases counts.len(),
{
    if counts.len() == 0 {
        assert(counts.push(e).skip(1) =~= counts);
    } else {
        let rest = counts.skip(1);
        assert forall|j: int| 0 <= j < rest.len() implies (#[trigger] rest[j]).0@ != e.0@ by {
            assert(rest[j] == counts[j + 1]);
        }
        lemma_count_push(rest, e, name);
        assert(counts.push(e).skip(1) =~= rest.push(e));
    }
}

proof fn lemma_count_absent(counts: Seq<(String, u64)>, name: Seq<char>)
    requires
        forall|j: int| 0 <= j < counts.len() ==> (#[trigger] counts[j]).0@ != name,
    ensures
        count_for(counts, name) == 0,
    decreases counts.len(),
{
    if counts.len() > 0 {
        let rest = counts.skip(1);
        assert forall|j: int| 0 <= j < rest.len() implies (#[trigger] rest[j]).0@ != name by {
            assert(rest[j] == counts[j + 1]);
        }
        lemma_count_absent(rest, name);
    }
}

proof fn lemma_count_at(counts: Seq<(String, u64)>, i: int)
    requires
        0 <= i < counts.len(),
        forall|j: int| 0 <= j < i ==> (#[trigger] counts[j]).0@ != counts[i].0@,
    ensures
        count_for(counts, counts[i].0@) == counts[i].1,
    decreases i,
{
    if i > 0 {
        let rest = counts.skip(1);
        assert forall|j: int| 0 <= j < i - 1 implies (#[trigger] rest[j]).0@ != rest[i - 1].0@ by {
            assert(rest[j] == counts[j + 1]);
        }
        lemma_count_at(rest, i - 1);
    }
}

fn find_count(counts: &Vec<(String, u64)>, name: &str) -> (r: usize)
    ensures
        r <= counts@.len(),
        forall|j: int| 0 <= j < r ==> (#[trigger] counts@[j]).0@ != name@,
        r < counts@.len() ==> counts@[r as int].0@ == name@,
{
    let mut i: usize = 0;
    while i < counts.len()
        invariant
            i <= counts.len(),
            forall|j: int| 0 <= j < i ==> (#[trigger] counts@[j]).0@ != name@,
        decreases counts.len() - i,
    {
        if str_eq(counts[i].0.as_str(), name) {
            return i;
        }
        i += 1;
    }
    i
}

fn count_failure(counts: &mut Vec<(String, u64)>, name: &str)
    ensures
        forall|x: Seq<char>| #[trigger]
            count_for(final(counts)@, x) == (if x == name@ {
                saturating_next(count_for(old(counts)@, x))
            } else {
                count_for(old(counts)@, x)
            }),
{
    let ghost start = counts@;
    let i: usize = find_count(counts, name);
    if i < counts.len() {
        let n: u64 = counts[i].1.saturating_add(1);
        let key = counts[i].0.clone();
        proof {
            lemma_count_at(start, i as int);
            assert forall|x: Seq<char>| #[trigger]
                count_for(start.update(i as int, (key, n)), x) == (if x == name@ {
                    saturating_next(count_for(start, x))
                } else {
                    count_for(start, x)
                }) by {
                lemma_count_update(start, i as int, n, x);
            }
        }
        counts.set(i, (key, n));
    } else {
        let key = name.to_owned();
        proof {
            assert forall|x: Seq<char>| #[trigger]
                count_for(start.push((key, 1)), x) == (if x == name@ {
                    saturating_next(count_for(start, x))
                } else {
                    count_for(start, x)
                }) by {
                lemma_count_push(start, (key, 1), x);
            }
        }
        counts.push((key, 1));
    }
}

fn read_count(counts: &Vec<(String, u64)>, name: &str) -> (r: u64)
    ensures
        r == count_for(counts@, name@),
{
    let i: usize = find_count(counts, name);
    if i < counts.len() {
        proof {
            lemma_count_at(counts@, i as int);
        }
        counts[i].1
    } else {
        proof {
            lemma_count_absent(counts@, name@);
        }
        0
    }
}

fn read_available(list: &Vec<(String, bool)>, name: &str) -> (r: bool)
    ensures
        r == available_for(list@, name@),
{
    let mut i: usize = 0;
    proof {
        assert(list@.skip(0) =~= list@);
    }
    while i < list.len()
        invariant
            i <= list.len(),
            available_for(list@, name@) == available_for(list@.skip(i as int), name@),
        decreases list.len() - i,
    {
        proof {
            assert(list@.skip(i as int).skip(1) =~= list@.skip(i as int + 1));
        }
        if str_eq(list[i].0.as_str(), name) {
            return list[i].1;
        }
        i += 1;
    }
    false
}

/// What is kept of a run once its samples are taken.
struct RunInfo {
    name: String,
    success: bool,
    duration: GaugeValue,
}

fn push_run(
    out: &mut Vec<MetricSample>,
    name: &str,
    success: bool,
    duration: GaugeValue,
    available: bool,
    errors: u64,
)
    ensures
        views(final(out)@) == views(old(out)@) + run_samples(
            name@,
            success,
            duration,
            available,
            errors,
        ),
{
    let ghost start = views(out@);
    let labels = Labels::new().with("collector", name);
    push_gauge(
        out,
        "nft_scrape_collector_available",
        "1 if the collector's kernel subsystem was available at startup.",
        &labels,
        flag_value(available),
    );
    push_gauge(
        out,
        "nft_scrape_collector_success",
        "1 if the last scrape of this collector succeeded.",
        &labels,
        flag_value(success),
    );
    push_gauge(
        out,
        "nft_scrape_collector_duration_seconds",
        "Duration of the last scrape cycle for this collector in seconds.",
        &labels,
        duration,
    );
    push_counter(
        out,
        "nft_scrape_collector_error_total",
        "Total number of scrape errors for this collector since process start.",
        &labels,
        errors,
    );
    proof {
        assert(views(out@) =~= start + run_samples(name@, success, duration, available, errors));
    }
}

fn push_exporter(out: &mut Vec<MetricSample>, version: &str)
    ensures
        views(final(out)@) == views(old(out)@) + exporter_samples(version@),
{
    let ghost start = views(out@);
    push_gauge(
        out,
        "nft_up",
        "Exporter liveness: 1 if the exporter is up.",
        &Labels::new(),
        GaugeValue::Whole(1),
    );
    let labels = Labels::new().with("version", version);
    push_gauge(
        out,
        "nft_build_info",
        "A metric with value 1 exposing build information.",
        &labels,
        GaugeValue::Whole(1),
    );
    proof {
        assert(views(out@) =~= start + exporter_samples(version@));
    }
}

impl ScrapeService {
    /// Failures of `name` since the service was made.
    pub open spec fn errors_of(&self, name: Seq<char>) -> u64 {
        count_for(self.errors@, name)
    }

    /// A service that has counted no failure yet.
    pub fn new(scrape_timeout_ms: u64, availability: Vec<(String, bool)>) -> (r: Self)
        ensures
            r.scrape_timeout_ms == scrape_timeout_ms,
            r.availability == availability,
            forall|name: Seq<char>| #[trigger] r.errors_of(name) == 0,
    {
        ScrapeService { scrape_timeout_ms, availability, errors: Vec::new() }
    }

    /// Whether the collector `name` is run in a scrape cycle: only when it was
    /// available at startup.
    pub fn due(&self, name: &str) -> (r: bool)
        ensures
            r == available_for(self.availability@, name@),
    {
        read_available(&self.availability, name)
    }

    /// Ends a scrape cycle: gathers the samples of the collectors that
    /// succeeded, counts errors and timeouts, and adds the samples about the
    /// exporter and about each run.
    pub fn scrape(&mut self, runs: Vec<CollectorRun>, version: &str) -> (r: Vec<MetricSample>)
        ensures
            final(self).scrape_timeout_ms == old(self).scrape_timeout_ms,
            final(self).availability == old(self).availability,
            forall|name: Seq<char>| #[trigger]
                final(self).errors_of(name) == count_after(
                    old(self).errors_of(name),
                    runs@,
                    name,
                    runs@.len(),
                ),
            views(r@) == collected(runs@, runs@.len()) + exporter_samples(version@) + telemetry(
                runs@,
                *final(self),
                runs@.len(),
            ),
    {
        let ghost all = runs@;
        let ghost start = self.errors@;
        let mut rest = runs;
        let mut infos: Vec<RunInfo> = Vec::new();
        let mut out: Vec<MetricSample> = Vec::new();
        let n: usize = rest.len();
        let mut i: usize = 0;
        proof {
            assert(views(out@) =~= collected(all, 0));
            assert(all.skip(0) =~= all);
        }
        while i < n
            invariant
                i <= n,
                n == all.len(),
                rest@ == all.skip(i as int),
                infos@.len() == i,
                self.scrape_timeout_ms == old(self).scrape_timeout_ms,
                self.availability == old(self).availability,
                start == old(self).errors@,
                forall|j: int| #![trigger infos@[j]]
                    0 <= j < i ==> infos@[j].name@ == all[j].name@ && infos@[j].success == (
                    all[j].outcome is Samples) && infos@[j].duration == all[j].duration,
                forall|name: Seq<char>| #[trigger]
                    count_for(self.errors@, name) == count_after(
                        count_for(start, name),
                        all,
                        name,
                        i as nat,
                    ),
                views(out@) == collected(all, i as nat),
            decreases n - i,
        {
            let run = rest.remove(0);
            proof {
                assert(all.skip(i as int)[0] == all[i as int]);
                assert(run == all[i as int]);
                assert(rest@ =~= all.skip(i as int + 1));
            }
            let ghost head = out@;
            let success = match run.outcome {
                Outcome::Samples(samples) => {
                    let mut samples = samples;
                    let ghost own = samples@;
                    out.append(&mut samples);
                    proof {
                        assert(views(out@) =~= views(head) + views(own));
                    }
                    true
                },
                Outcome::Failed | Outcome::TimedOut => {
                    count_failure(&mut self.errors, run.name.as_str());
                    false
                },
                Outcome::Skipped => false,
            };
            infos.push(RunInfo { name: run.name, success, duration: run.duration });
            i += 1;
        }
        push_exporter(&mut out, version);
        let ghost head = views(out@);
        let mut k: usize = 0;
        proof {
            assert(head + telemetry(all, *self, 0) =~= head);
        }
        while k < n
            invariant
                k <= n,
                n == all.len(),
                infos@.len() == n,
                forall|j: int| #![trigger infos@[j]]
                    0 <= j < n ==> infos@[j].name@ == all[j].name@ && infos@[j].success == (
                    all[j].outcome is Samples) && infos@[j].duration == all[j].duration,
                views(out@) == head + telemetry(all, *self, k as nat),
            decreases n - k,
        {
            let info = &infos[k];
            let available = read_available(&self.availability, info.name.as_str());
            let errors: u64 = read_count(&self.errors, info.name.as_str());
            push_run(
                &mut out,
                info.name.as_str(),
                info.success,
                info.duration,
                available,
                errors,
            );
            proof {
                let done = telemetry(all, *self, k as nat);
                let own = run_samples(
                    info.name@,
                    info.success,
                    info.duration,
                    available,
                    errors,
                );
                assert(head + (done + own) =~= (head + done) + own);
            }
            k += 1;
        }
        out
    }
}

// ---------------------------------------------------------------------------
// Laws
// ---------------------------------------------------------------------------

/// The number of failed runs of `name` among the first `k`.
pub open spec fn failures(runs: Seq<CollectorRun>, name: Seq<char>, k: nat) -> nat
    decreases k,
{
    if k == 0 {
        0
    } else {
        failures(runs, name, (k - 1) as nat) + if runs[k - 1].name@ == name && is_error(
            runs[k - 1].outcome,
        ) {
            1nat
        } else {
            0nat
        }
    }
}

/// The error counter of a collector never decreases, and a scrape raises it by
/// the number of failed runs, up to the largest number.
pub proof fn law_errors_accumulate(start: u64, runs: Seq<CollectorRun>, name: Seq<char>, k: nat)
    ensures
        count_after(start, runs, name, k) >= start,
        start + failures(runs, name, k) <= u64::MAX ==> count_after(start, runs, name, k) == start
            + failures(runs, name, k),
        start + failures(runs, name, k) > u64::MAX ==> count_after(start, runs, name, k) == u64::MAX,
    decreases k,
{
    if k > 0 {
        law_errors_accumulate(start, runs, name, (k - 1) as nat);
    }
}

/// A collector that is skipped counts no error.
pub proof fn law_skipping_is_no_error(
    start: u64,
    runs: Seq<CollectorRun>,
    name: Seq<char>,
    k: nat,
)
    requires
        k <= runs.len(),
        forall|i: int|
            0 <= i < k && (#[trigger] runs[i]).name@ == name ==> runs[i].outcome is Skipped,
    ensures
        count_after(start, runs, name, k) == start,
    decreases k,
{
    if k > 0 {
        law_skipping_is_no_error(start, runs, name, (k - 1) as nat);
        assert(runs[k - 1].name@ == name ==> runs[k - 1].outcome is Skipped);
    }
}

/// A failing collector takes nothing away from the others: a run without
/// samples adds none and removes none.
pub proof fn law_failure_is_isolated(runs: Seq<CollectorRun>, k: nat)
    requires
        0 < k <= runs.len(),
        !(runs[k - 1].outcome is Samples),
    ensures
        collected(runs, k) == collected(runs, (k - 1) as nat),
{
}

/// A collector takes part in scrapes exactly when its flag is set.
pub proof fn law_flag_decides(flags: CollectorFlags, kind: CollectorKind)
    ensures
        enabled_kinds(flags, all_kinds()).contains(kind) <==> flag_set(flags, flag_text(kind)),
{
    law_enabled_exactly(flags, all_kinds(), kind);
    let k = all_kinds();
    match kind {
        CollectorKind::Rtnetlink => assert(k[0] == kind),
        CollectorKind::RtnetlinkExtended => assert(k[1] == kind),
        CollectorKind::TrafficControl => assert(k[2] == kind),
        CollectorKind::Conntrack => assert(k[3] == kind),
        CollectorKind::ConntrackExpect => assert(k[4] == kind),
        CollectorKind::Nftables => assert(k[5] == kind),
        CollectorKind::SockDiag => assert(k[6] == kind),
        CollectorKind::Ethtool => assert(k[7] == kind),
        CollectorKind::Ipvs => assert(k[8] == kind),
        CollectorKind::Wireguard => assert(k[9] == kind),
        CollectorKind::Devlink => assert(k[10] == kind),
        CollectorKind::DropMonitor => assert(k[11] == kind),
        CollectorKind::Xfrm => assert(k[12] == kind),
        CollectorKind::Softnet => assert(k[13] == kind),
    }
}

/// The enabled collectors are those whose flag is set, in the fixed order: each
/// enabled collector of `kinds` is in the set, and no other is.
pub proof fn law_enabled_exactly(
    flags: CollectorFlags,
    kinds: Seq<CollectorKind>,
    kind: CollectorKind,
)
    ensures
        enabled_kinds(flags, kinds).contains(kind) <==> kinds.contains(kind) && flag_set(
            flags,
            flag_text(kind),
        ),
    decreases kinds.len(),
{
    if kinds.len() > 0 {
        let rest = kinds.drop_last();
        law_enabled_exactly(flags, rest, kind);
        let before = enabled_kinds(flags, rest);
        assert(kinds.contains(kind) <==> rest.contains(kind) || kinds.last() == kind) by {
            if kinds.contains(kind) && kinds.last() != kind {
                let i = choose|i: int| 0 <= i < kinds.len() && kinds[i] == kind;
                assert(rest[i] == kind);
            }
            if rest.contains(kind) {
                let i = choose|i: int| 0 <= i < rest.len() && rest[i] == kind;
                assert(kinds[i] == kind);
            }
            if kinds.last() == kind {
                assert(kinds[kinds.len() - 1] == kind);
            }
        }
        assert(before.push(kinds.last()).contains(kind) <==> before.contains(kind) || kinds.last()
            == kind) by {
            let p = before.push(kinds.last());
            if p.contains(kind) && kinds.last() != kind {
                let i = choose|i: int| 0 <= i < p.len() && p[i] == kind;
                assert(before[i] == kind);
            }
            if before.contains(kind) {
                let i = choose|i: int| 0 <= i < before.len() && before[i] == kind;
                assert(p[i] == kind);
            }
            if kinds.last() == kind {
                assert(p[p.len() - 1] == kind);
            }
        }
    }
}

/// No successful run is lost: the samples of a run stand between those of the
/// runs before it and those of the runs after it.
pub proof fn law_no_run_lost(runs: Seq<CollectorRun>, i: int, k: nat)
    requires
        0 <= i < k <= runs.len(),
        runs[i].outcome is Samples,
    ensures
        collected(runs, k) == collected(runs, i as nat) + views(runs[i].outcome->Samples_0@)
            + collected(runs.skip(i + 1), (k - i - 1) as nat),
        holds(collected(runs, k), views(runs[i].outcome->Samples_0@)),
    decreases k,
{
    let own = views(runs[i].outcome->Samples_0@);
    let after = runs.skip(i + 1);
    if i == k - 1 {
        assert(collected(runs, k) =~= collected(runs, i as nat) + own + collected(after, 0));
    } else {
        law_no_run_lost(runs, i, (k - 1) as nat);
        assert(after[k - i - 2] == runs[k - 1]);
        assert(collected(runs, k) =~= collected(runs, i as nat) + own + collected(
            after,
            (k - i - 1) as nat,
        ));
    }
    lemma_holds(
        collected(runs, k),
        collected(runs, i as nat),
        own,
        collected(after, (k - i - 1) as nat),
    );
}

/// The number of samples of a run; none unless it succeeded.
pub open spec fn samples_in(run: CollectorRun) -> nat {
    match run.outcome {
        Outcome::Samples(samples) => samples@.len(),
        _ => 0,
    }
}

/// The merged samples are exactly those of the successful runs: as many as they
/// have together, and none from elsewhere.
pub proof fn law_nothing_added(runs: Seq<CollectorRun>, k: nat)
    requires
        k <= runs.len(),
    ensures
        collected(runs, 0).len() == 0,
        k > 0 ==> collected(runs, k).len() == collected(runs, (k - 1) as nat).len() + samples_in(
            runs[k - 1],
        ),
{
}

/// Every run is reported: with four samples under its name, of which one tells
/// whether it succeeded, one how long it took, one whether it was available and
/// one how often it failed so far.
pub proof fn law_run_reported(
    runs: Seq<CollectorRun>,
    service: ScrapeService,
    k: nat,
    i: int,
)
    requires
        0 <= i < k <= runs.len(),
    ensures
        telemetry(runs, service, k).len() == 4 * k,
        ({
            let s = telemetry(runs, service, k);
            let labels = no_labels().insert("collector"@, runs[i].name@);
            &&& reads(
                s,
                "nft_scrape_collector_success"@,
                labels,
                GaugeValue::Whole(if runs[i].outcome is Samples { 1 } else { 0 }),
            )
            &&& reads(s, "nft_scrape_collector_duration_seconds"@, labels, runs[i].duration)
            &&& reads(
                s,
                "nft_scrape_collector_available"@,
                labels,
                GaugeValue::Whole(
                    if available_for(service.availability@, runs[i].name@) { 1 } else { 0 },
                ),
            )
            &&& counts(
                s,
                "nft_scrape_collector_error_total"@,
                labels,
                count_for(service.errors@, runs[i].name@),
            )
        }),
    decreases k,
{
    let s = telemetry(runs, service, k);
    let labels = no_labels().insert("collector"@, runs[i].name@);
    lemma_telemetry_len(runs, service, k);
    lemma_telemetry_len(runs, service, (k - 1) as nat);
    let done = telemetry(runs, service, (k - 1) as nat);
    let success = GaugeValue::Whole(if runs[i].outcome is Samples { 1 } else { 0 });
    let available = GaugeValue::Whole(
        if available_for(service.availability@, runs[i].name@) { 1 } else { 0 },
    );
    let errors = count_for(service.errors@, runs[i].name@);
    if i == k - 1 {
        let n = 4 * (k - 1);
        assert(is_gauge(s[n], "nft_scrape_collector_available"@, labels, available));
        assert(is_gauge(s[n + 1], "nft_scrape_collector_success"@, labels, success));
        assert(is_gauge(
            s[n + 2],
            "nft_scrape_collector_duration_seconds"@,
            labels,
            runs[i].duration,
        ));
        assert(is_counter(s[n + 3], "nft_scrape_collector_error_total"@, labels, errors));
    } else {
        law_run_reported(runs, service, (k - 1) as nat, i);
        let a = choose|a: int|
            0 <= a < done.len() && is_gauge(
                #[trigger] done[a],
                "nft_scrape_collector_success"@,
                labels,
                success,
            );
        assert(s[a] == done[a]);
        let b = choose|b: int|
            0 <= b < done.len() && is_gauge(
                #[trigger] done[b],
                "nft_scrape_collector_duration_seconds"@,
                labels,
                runs[i].duration,
            );
        assert(s[b] == done[b]);
        let c = choose|c: int|
            0 <= c < done.len() && is_gauge(
                #[trigger] done[c],
                "nft_scrape_collector_available"@,
                labels,
                available,
            );
        assert(s[c] == done[c]);
        let d = choose|d: int|
            0 <= d < done.len() && is_counter(
                #[trigger] done[d],
                "nft_scrape_collector_error_total"@,
                labels,
                errors,
            );
        assert(s[d] == done[d]);
    }
}

proof fn lemma_telemetry_len(runs: Seq<CollectorRun>, service: ScrapeService, k: nat)
    ensures
        telemetry(runs, service, k).len() == 4 * k,
    decreases k,
{
    if k > 0 {
        lemma_telemetry_len(runs, service, (k - 1) as nat);
    }
}

/// Every scrape says that the exporter is up and which version it has.
pub proof fn law_exporter_reported(version: Seq<char>)
    ensures
        exporter_samples(version).len() == 2,
        reads(exporter_samples(version), "nft_up"@, no_labels(), GaugeValue::Whole(1)),
        reads(
            exporter_samples(version),
            "nft_build_info"@,
            no_labels().insert("version"@, version),
            GaugeValue::Whole(1),
        ),
{
    let s = exporter_samples(version);
    assert(is_gauge(s[0], "nft_up"@, no_labels(), GaugeValue::Whole(1)));
    assert(is_gauge(
        s[1],
        "nft_build_info"@,
        no_labels().insert("version"@, version),
        GaugeValue::Whole(1),
    ));
}

/// What the startup probe found counts: the entry of a name decides, and a name
/// without an entry is not available.
pub proof fn law_probe_decides(list: Seq<(String, bool)>, name: Seq<char>)
    ensures
        forall|i: int|
            0 <= i < list.len() && (#[trigger] list[i]).0@ == name && (forall|j: int|
                0 <= j < i ==> (#[trigger] list[j]).0@ != name) ==> available_for(list, name)
                == list[i].1,
        (forall|i: int| 0 <= i < list.len() ==> (#[trigger] list[i]).0@ != name)
            ==> !available_for(list, name),
    decreases list.len(),
{
    if list.len() > 0 {
        let rest = list.skip(1);
        law_probe_decides(rest, name);
        assert forall|i: int|
            0 <= i < list.len() && (#[trigger] list[i]).0@ == name && (forall|j: int|
                0 <= j < i ==> (#[trigger] list[j]).0@ != name) implies available_for(list, name)
            == list[i].1 by {
            if i > 0 {
                assert(list[0].0@ != name);
                assert(rest[i - 1] == list[i]);
                assert forall|j: int| 0 <= j < i - 1 implies (#[trigger] rest[j]).0@ != name by {
                    assert(rest[j] == list[j + 1]);
                }
            }
        }
        if forall|i: int| 0 <= i < list.len() ==> (#[trigger] list[i]).0@ != name {
            assert(list[0].0@ != name);
            assert forall|j: int| 0 <= j < rest.len() implies (#[trigger] rest[j]).0@ != name by {
                assert(rest[j] == list[j + 1]);
            }
        }
    }
}

/// Every run that fails or is out of time counts, and no other.
pub proof fn law_every_failure_counts(
    start: u64,
    runs: Seq<CollectorRun>,
    name: Seq<char>,
    k: nat,
)
    requires
        0 < k <= runs.len(),
    ensures
        ({
            let before = count_after(start, runs, name, (k - 1) as nat);
            let run = runs[k - 1];
            if run.name@ == name && (run.outcome == Outcome::Failed || run.outcome
                == Outcome::TimedOut) {
                count_after(start, runs, name, k) == if before < u64::MAX {
                    before + 1
                } else {
                    before as int
                }
            } else {
                count_after(start, runs, name, k) == before
            }
        }),
        count_after(start, runs, name, 0) == start,
{
}

/// A scrape is complete: it holds the samples of every run that succeeded, what
/// the exporter says of itself, and four samples on each run, and nothing else.
pub proof fn law_scrape_complete(
    runs: Seq<CollectorRun>,
    version: Seq<char>,
    service: ScrapeService,
    i: int,
)
    ensures
        ({
            let all = collected(runs, runs.len()) + exporter_samples(version) + telemetry(
                runs,
                service,
                runs.len(),
            );
            &&& 0 <= i < runs.len() ==> (runs[i].outcome matches Outcome::Samples(s) ==> holds(
                all,
                views(s@),
            ))
            &&& holds(all, exporter_samples(version))
            &&& holds(all, telemetry(runs, service, runs.len()))
            &&& all.len() == collected(runs, runs.len()).len() + 2 + 4 * runs.len()
        }),
{
    let own = collected(runs, runs.len());
    let about = exporter_samples(version);
    let each = telemetry(runs, service, runs.len());
    let all = own + about + each;
    lemma_telemetry_len(runs, service, runs.len());
    lemma_holds(all, own, about, each);
    assert(all =~= (own + about) + each + seq![]);
    lemma_holds(all, own + about, each, seq![]);
    assert(all =~= seq![] + own + (about + each));
    lemma_holds(all, seq![], own, about + each);
    if 0 <= i < runs.len() && runs[i].outcome is Samples {
        law_no_run_lost(runs, i, runs.len());
        lemma_holds_through(all, own, views(runs[i].outcome->Samples_0@));
    }
}

/// Every collector runs exactly when its own flag is set.
pub proof fn law_collector_follows_flag(flags: CollectorFlags)
    ensures
        enabled_kinds(flags, all_kinds()).contains(CollectorKind::Rtnetlink) <==> flags.rtnetlink,
        enabled_kinds(flags, all_kinds()).contains(CollectorKind::RtnetlinkExtended) <==> flags.rtnetlink_extended,
        enabled_kinds(flags, all_kinds()).contains(CollectorKind::TrafficControl) <==> flags.traffic_control,
        enabled_kinds(flags, all_kinds()).contains(CollectorKind::Conntrack) <==> flags.conntrack,
        enabled_kinds(flags, all_kinds()).contains(CollectorKind::ConntrackExpect) <==> flags.conntrack_expect,
        enabled_kinds(flags, all_kinds()).contains(CollectorKind::Nftables) <==> flags.nftables,
        enabled_kinds(flags, all_kinds()).contains(CollectorKind::SockDiag) <==> flags.sock_diag,
        enabled_kinds(flags, all_kinds()).contains(CollectorKind::Ethtool) <==> flags.ethtool,
        enabled_kinds(flags, all_kinds()).contains(CollectorKind::Ipvs) <==> flags.ipvs,
        enabled_kinds(flags, all_kinds()).contains(CollectorKind::Wireguard) <==> flags.wireguard,
        enabled_kinds(flags, all_kinds()).contains(CollectorKind::Devlink) <==> flags.devlink,
        enabled_kinds(flags, all_kinds()).contains(CollectorKind::DropMonitor) <==> flags.drop_monitor,
        enabled_kinds(flags, all_kinds()).contains(CollectorKind::Xfrm) <==> flags.xfrm,
        enabled_kinds(flags, all_kinds()).contains(CollectorKind::Softnet) <==> flags.softnet,
{
    law_flags_named(flags);
    law_flag_decides(flags, CollectorKind::Rtnetlink);
    law_flag_decides(flags, CollectorKind::RtnetlinkExtended);
    law_flag_decides(flags, CollectorKind::TrafficControl);
    law_flag_decides(flags, CollectorKind::Conntrack);
    law_flag_decides(flags, CollectorKind::ConntrackExpect);
    law_flag_decides(flags, CollectorKind::Nftables);
    law_flag_decides(flags, CollectorKind::SockDiag);
    law_flag_decides(flags, CollectorKind::Ethtool);
    law_flag_decides(flags, CollectorKind::Ipvs);
    law_flag_decides(flags, CollectorKind::Wireguard);
    law_flag_decides(flags, CollectorKind::Devlink);
    law_flag_decides(flags, CollectorKind::DropMonitor);
    law_flag_decides(flags, CollectorKind::Xfrm);
    law_flag_decides(flags, CollectorKind::Softnet);
}

/// Where every flag is set, every collector runs, once and in the fixed order.
pub proof fn law_all_collectors_run(flags: CollectorFlags, kinds: Seq<CollectorKind>)
    requires
        forall|i: int|
            0 <= i < kinds.len() ==> flag_set(flags, flag_text(#[trigger] kinds[i])),
    ensures
        enabled_kinds(flags, kinds) == kinds,
        all_kinds().no_duplicates(),
    decreases kinds.len(),
{
    if kinds.len() > 0 {
        let front = kinds.drop_last();
        assert forall|i: int| 0 <= i < front.len() implies flag_set(
            flags,
            flag_text(#[trigger] front[i]),
        ) by {
            assert(front[i] == kinds[i]);
        }
        law_all_collectors_run(flags, front);
        assert(flag_set(flags, flag_text(kinds[kinds.len() - 1])));
        assert(enabled_kinds(flags, kinds) =~= kinds);
    } else {
        assert(enabled_kinds(flags, kinds) =~= kinds);
    }
}

} // verus!
