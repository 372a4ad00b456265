//! Ethtool collector: generic netlink family `ethtool`.
//!
//! A reply holds a header with the interface name and groups of statistics,
//! each a name and a number.  Without the kernel family there are no samples.
use crate::error::{DomainError, TransportError};
use crate::labels::{no_labels, Labels};
use crate::metric::{
    gauge_view, holds, is_gauge, lemma_holds, lemma_holds_through, push_gauge, reads, views, whole,
    GaugeValue, MetricSample, SampleView,
};
use crate::model::ethtool::EthtoolStats;
use crate::order::{before, lemma_asymmetric, lemma_total, lemma_transitive, rank, Rank};
use crate::text::{decoded, utf8_lossy};
use crate::wire::{
    attr_bytes, attrs, cut_at_nul, find_last, find_last_nested, last_attr, last_nested,
    native_u32, nested_attrs, parse_attrs, push_nlattr, read_u64, u32_bytes, u64_ne, until_nul, Attr,
};
use vstd::prelude::*;
use vstd::slice::slice_subrange;

verus! {

/// Generic netlink protocol number.
pub const NETLINK_GENERIC: i32 = 16;

/// Command and version of a statistics request.
pub const ETHTOOL_MSG_STATS_GET: u8 = 37;
pub const ETHTOOL_GENL_VERSION: u8 = 1;

/// Top-level attributes.
pub const ETHTOOL_A_STATS_HEADER: u16 = 1;
pub const ETHTOOL_A_STATS_GROUPS: u16 = 3;
pub const ETHTOOL_A_STATS_GRP: u16 = 4;

/// Interface name in the header.
pub const ETHTOOL_A_HEADER_DEV_NAME: u16 = 3;

/// One statistic in a group, its name and its value.
pub const ETHTOOL_A_STATS_GRP_STAT: u16 = 4;
pub const ETHTOOL_A_STATS_GRP_STAT_NAME: u16 = 1;
pub const ETHTOOL_A_STATS_GRP_STAT_VALUE: u16 = 2;

/// The four standard groups, one bit each.
pub const STATS_GROUPS_ALL: u32 = 0x0F;

/// Most statistics that are emitted for one interface.
pub const MAX_STAT_NAMES: usize = 128;

/// A name and its number.
pub type Stat = (Seq<char>, u64);

/// Builds the request for the statistics of all interfaces.
pub fn build_stats_get_payload() -> (r: Vec<u8>)
    ensures
        r@ == seq![ETHTOOL_MSG_STATS_GET, ETHTOOL_GENL_VERSION, 0u8, 0u8] + attr_bytes(
            ETHTOOL_A_STATS_GROUPS,
            u32_bytes(STATS_GROUPS_ALL as nat),
        ),
{
    let mut buf: Vec<u8> = Vec::new();
    buf.push(ETHTOOL_MSG_STATS_GET);
    buf.push(ETHTOOL_GENL_VERSION);
    buf.push(0);
    buf.push(0);
    let groups = native_u32(STATS_GROUPS_ALL);
    proof {
        assert(buf@ =~= seq![ETHTOOL_MSG_STATS_GET, ETHTOOL_GENL_VERSION, 0u8, 0u8]);
    }
    push_nlattr(&mut buf, ETHTOOL_A_STATS_GROUPS, groups.as_slice());
    buf
}

// ---------------------------------------------------------------------------
// Sorted statistics
// ---------------------------------------------------------------------------

/// `p` with the statistic `k` set to `v`, in its place in the order.
pub open spec fn put(p: Seq<Stat>, k: Seq<char>, v: u64) -> Seq<Stat>
    decreases p.len(),
{
    if p.len() == 0 {
        seq![(k, v)]
    } else if p[0].0 == k {
        seq![(k, v)] + p.skip(1)
    } else if before(p[0].0, k) {
        seq![p[0]] + put(p.skip(1), k, v)
    } else {
        seq![(k, v)] + p
    }
}

/// The statistics of `entries`, sorted by name; the last value of a name counts.
pub open spec fn collated(entries: Seq<Stat>) -> Seq<Stat>
    decreases entries.len(),
{
    if entries.len() == 0 {
        seq![]
    } else {
        put(collated(entries.drop_last()), entries.last().0, entries.last().1)
    }
}

/// The views of a vector of statistics.
pub open spec fn stat_views(v: Seq<(String, u64)>) -> Seq<Stat> {
    v.map_values(|e: (String, u64)| (e.0@, e.1))
}

proof fn lemma_put_at(p: Seq<Stat>, k: Seq<char>, v: u64, i: int)
    requires
        0 <= i <= p.len(),
        forall|j: int| 0 <= j < i ==> before((#[trigger] p[j]).0, k),
    ensures
        i < p.len() && p[i].0 == k ==> put(p, k, v) == p.update(i, (k, v)),
        (i < p.len() ==> p[i].0 != k && !before(p[i].0, k)) ==> put(p, k, v) == p.insert(i, (k, v)),
    decreases i,
{
    if i == 0 {
        if p.len() > 0 && p[0].0 == k {
            assert(put(p, k, v) =~= p.update(0, (k, v)));
        } else {
            assert(put(p, k, v) =~= p.insert(0, (k, v)) || (p.len() > 0 && before(p[0].0, k)));
        }
    } else {
        let rest = p.skip(1);
        lemma_asymmetric(p[0].0, k);
        assert(before(p[0].0, k));
        assert forall|j: int| 0 <= j < i - 1 implies before((#[trigger] rest[j]).0, k) by {
            assert(rest[j] == p[j + 1]);
        }
        lemma_put_at(rest, k, v, i - 1);
        if i < p.len() {
            assert(rest[i - 1] == p[i]);
            if p[i].0 == k {
                assert(seq![p[0]] + rest.update(i - 1, (k, v)) =~= p.update(i, (k, v)));
            }
        }
        assert(seq![p[0]] + rest.insert(i - 1, (k, v)) =~= p.insert(i, (k, v)));
    }
}

fn put_stat(stats: &mut Vec<(String, u64)>, name: String, value: u64)
    ensures
        stat_views(final(stats)@) == put(stat_views(old(stats)@), name@, value),
{
    let ghost k = name@;
    let ghost p = stat_views(stats@);
    let mut i: usize = 0;
    let mut found = false;
    while i < stats.len()
        invariant_except_break
            !found,
        invariant
            i <= stats.len(),
            stat_views(stats@) == p,
            k == name@,
            forall|j: int| 0 <= j < i ==> before((#[trigger] p[j]).0, k),
        ensures
            found ==> i < p.len() && p[i as int].0 == k,
            !found && i < p.len() ==> p[i as int].0 != k && !before(p[i as int].0, k),
        decreases stats.len() - i,
    {
        proof {
            assert(p[i as int] == (stats@[i as int].0@, stats@[i as int].1));
            lemma_asymmetric(p[i as int].0, k);
        }
        match rank(stats[i].0.as_str(), name.as_str()) {
            Rank::Before => {
                i += 1;
            },
            Rank::Same => {
                found = true;
                break;
            },
            Rank::After => {
                break;
            },
        }
    }
    proof {
        lemma_put_at(p, k, value, i as int);
    }
    if found {
        stats.set(i, (name, value));
        proof {
            assert(stat_views(stats@) =~= p.update(i as int, (k, value)));
        }
    } else {
        stats.insert(i, (name, value));
        proof {
            assert(stat_views(stats@) =~= p.insert(i as int, (k, value)));
        }
    }
}

// ---------------------------------------------------------------------------
// Replies
// ---------------------------------------------------------------------------

/// The text of a payload before its first NUL.
pub open spec fn name_of(payload: Seq<u8>) -> Seq<char> {
    decoded(until_nul(payload))
}

/// A payload holds a name that is not empty.
pub open spec fn is_named(payload: Option<Seq<u8>>) -> bool {
    match payload {
        Some(p) => until_nul(p).len() > 0,
        None => false,
    }
}

/// The statistic in a `ETHTOOL_A_STATS_GRP_STAT` payload, if it has a name and a value.
pub open spec fn stat_of(payload: Seq<u8>) -> Option<Stat> {
    let a = attrs(payload);
    let name = last_attr(a, ETHTOOL_A_STATS_GRP_STAT_NAME, 0);
    match last_attr(a, ETHTOOL_A_STATS_GRP_STAT_VALUE, 0) {
        Some(p) if p.len() >= 8 && is_named(name) => Some((name_of(name->0), u64_ne(p))),
        _ => None,
    }
}

/// The statistics of one group, in the order of the buffer.
pub open spec fn group_stats(a: Seq<Attr>) -> Seq<Stat>
    decreases a.len(),
{
    if a.len() == 0 {
        seq![]
    } else {
        let rest = group_stats(a.drop_last());
        match stat_of(a.last().1) {
            Some(stat) if a.last().0 == ETHTOOL_A_STATS_GRP_STAT => rest.push(stat),
            _ => rest,
        }
    }
}

/// The statistics of all groups, in the order of the buffer.
pub open spec fn all_stats(a: Seq<Attr>) -> Seq<Stat>
    decreases a.len(),
{
    if a.len() == 0 {
        seq![]
    } else if a.last().0 == ETHTOOL_A_STATS_GRP {
        all_stats(a.drop_last()) + group_stats(attrs(a.last().1))
    } else {
        all_stats(a.drop_last())
    }
}

/// The payload of the interface name in a reply.
pub open spec fn interface_of(a: Seq<Attr>) -> Option<Seq<u8>> {
    last_nested(a, ETHTOOL_A_STATS_HEADER, ETHTOOL_A_HEADER_DEV_NAME, 1)
}

/// The interface and the sorted statistics of a reply, if it names an interface.
pub open spec fn reply_of(a: Seq<Attr>) -> Option<(Seq<char>, Seq<Stat>)> {
    if is_named(interface_of(a)) {
        Some((name_of(interface_of(a)->0), collated(all_stats(a))))
    } else {
        None
    }
}

fn read_stat(payload: &[u8]) -> (r: Option<(String, u64)>)
    ensures
        r is Some <==> stat_of(payload@) is Some,
        r matches Some(s) ==> stat_of(payload@) == Some((s.0@, s.1)),
{
    let name = match find_last(payload, ETHTOOL_A_STATS_GRP_STAT_NAME, 0) {
        Some(p) => utf8_lossy(cut_at_nul(p)),
        None => String::new(),
    };
    let value = match find_last(payload, ETHTOOL_A_STATS_GRP_STAT_VALUE, 0) {
        Some(p) => read_u64(p),
        None => None,
    };
    match value {
        Some(value) => {
            if name.as_str().is_empty() {
                None
            } else {
                Some((name, value))
            }
        },
        None => None,
    }
}

proof fn lemma_collated_push(entries: Seq<Stat>, s: Stat)
    ensures
        collated(entries.push(s)) == put(collated(entries), s.0, s.1),
{
    assert(entries.push(s).drop_last() =~= entries);
}

fn put_group(group: &[u8], stats: &mut Vec<(String, u64)>, Ghost(earlier): Ghost<Seq<Stat>>)
    requires
        stat_views(old(stats)@) == collated(earlier),
    ensures
        stat_views(final(stats)@) == collated(earlier + group_stats(attrs(group@))),
{
    let mut it = nested_attrs(group);
    let ghost mut done: Seq<Attr> = seq![];
    proof {
        assert(done + it.remaining() =~= attrs(group@));
        assert(earlier + group_stats(done) =~= earlier);
    }
    loop
        invariant
            done + it.remaining() == attrs(group@),
            stat_views(stats@) == collated(earlier + group_stats(done)),
        ensures
            stat_views(stats@) == collated(earlier + group_stats(attrs(group@))),
        decreases it.remaining().len(),
    {
        let ghost rest = it.remaining();
        match it.next() {
            Some(nla) => {
                let ghost before_push = group_stats(done);
                proof {
                    assert(done.push(nla.attr()) + it.remaining() =~= done + rest);
                    assert(done.push(nla.attr()).drop_last() =~= done);
                    done = done.push(nla.attr());
                }
                if nla.ty == ETHTOOL_A_STATS_GRP_STAT {
                    if let Some(stat) = read_stat(nla.payload) {
                        let ghost s: Stat = (stat.0@, stat.1);
                        put_stat(stats, stat.0, stat.1);
                        proof {
                            lemma_collated_push(earlier + before_push, s);
                            assert((earlier + before_push).push(s) =~= earlier + before_push.push(s));
                        }
                    }
                }
            },
            None => {
                proof {
                    assert(done + it.remaining() =~= done);
                }
                break;
            },
        }
    }
}

/// Parses the attributes of one reply into the interface name and its
/// statistics, sorted by name; `None` without an interface name.
pub fn parse_stats_attrs(attrs_buf: &[u8]) -> (r: Option<(String, Vec<(String, u64)>)>)
    ensures
        r is Some <==> reply_of(attrs(attrs_buf@)) is Some,
        r matches Some(v) ==> reply_of(attrs(attrs_buf@)) == Some((v.0@, stat_views(v.1@))),
{
    let if_name = match find_last_nested(
        attrs_buf,
        ETHTOOL_A_STATS_HEADER,
        ETHTOOL_A_HEADER_DEV_NAME,
        1,
    ) {
        Some(p) => utf8_lossy(cut_at_nul(p)),
        None => String::new(),
    };
    if if_name.as_str().is_empty() {
        return None;
    }
    let mut stats: Vec<(String, u64)> = Vec::new();
    let mut it = parse_attrs(attrs_buf);
    let ghost mut done: Seq<Attr> = seq![];
    proof {
        assert(done + it.remaining() =~= attrs(attrs_buf@));
        assert(stat_views(stats@) =~= collated(all_stats(done)));
    }
    loop
        invariant
            done + it.remaining() == attrs(attrs_buf@),
            stat_views(stats@) == collated(all_stats(done)),
        ensures
            stat_views(stats@) == collated(all_stats(attrs(attrs_buf@))),
        decreases it.remaining().len(),
    {
        let ghost rest = it.remaining();
        match it.next() {
            Some(nla) => {
                let ghost earlier = all_stats(done);
                proof {
                    assert(done.push(nla.attr()) + it.remaining() =~= done + rest);
                    assert(done.push(nla.attr()).drop_last() =~= done);
                    done = done.push(nla.attr());
                }
                if nla.ty == ETHTOOL_A_STATS_GRP {
                    put_group(nla.payload, &mut stats, Ghost(earlier));
                }
            },
            None => {
                proof {
                    assert(done + it.remaining() =~= done);
                }
                break;
            },
        }
    }
    Some((if_name, stats))
}

/// The interface and the statistics of a whole frame, after its 4-byte header.
pub open spec fn frame_reply(frame: Seq<u8>) -> Option<(Seq<char>, Seq<Stat>)> {
    if frame.len() < 4 {
        None
    } else {
        reply_of(attrs(frame.skip(4)))
    }
}

/// Parses a whole frame.
pub fn parse_frame(frame: &[u8]) -> (r: Option<(String, Vec<(String, u64)>)>)
    ensures
        r is Some <==> frame_reply(frame@) is Some,
        r matches Some(v) ==> frame_reply(frame@) == Some((v.0@, stat_views(v.1@))),
{
    if frame.len() < 4 {
        return None;
    }
    let buf = slice_subrange(frame, 4, frame.len());
    proof {
        assert(buf@ =~= frame@.skip(4));
    }
    parse_stats_attrs(buf)
}

/// Parses a whole frame into the read model; what a statistics reply does not
/// tell is unknown.
pub fn parse_stats_reply(frame: &[u8]) -> (r: Option<EthtoolStats>)
    ensures
        r is Some <==> frame_reply(frame@) is Some,
        r matches Some(v) ==> {
            &&& frame_reply(frame@) == Some((v.if_name@, stat_views(v.stats@)))
            &&& v.speed_mbps is None
            &&& v.duplex@ == "unknown"@
            &&& v.autoneg@ == "unknown"@
            &&& v.port@ == "unknown"@
            &&& v.pause_rx_frames is None
            &&& v.pause_tx_frames is None
            &&& v.fec_corrected@.len() == 0
        },
{
    match parse_frame(frame) {
        Some((if_name, stats)) => Some(
            EthtoolStats {
                if_name,
                stats,
                speed_mbps: None,
                duplex: "unknown".to_owned(),
                autoneg: "unknown".to_owned(),
                port: "unknown".to_owned(),
                pause_rx_frames: None,
                pause_tx_frames: None,
                fec_corrected: Vec::new(),
            },
        ),
        None => None,
    }
}

// ---------------------------------------------------------------------------
// Samples
// ---------------------------------------------------------------------------

/// The sample of one statistic.
pub open spec fn stat_sample(interface: Seq<char>, stat: Stat) -> SampleView {
    gauge_view(
        "nft_ethtool_stat"@,
        "Ethtool NIC statistic (gauge — resets on link down)."@,
        no_labels().insert("interface"@, interface).insert("stat"@, stat.0),
        whole(stat.1 as int),
    )
}

/// The statistics of an interface that are emitted: the first by name.
pub open spec fn emitted_stats(stats: Seq<Stat>) -> Seq<Stat> {
    if stats.len() <= MAX_STAT_NAMES {
        stats
    } else {
        stats.take(MAX_STAT_NAMES as int)
    }
}

/// The samples of one frame.
pub open spec fn frame_samples(frame: Seq<u8>) -> Seq<SampleView> {
    match frame_reply(frame) {
        Some((interface, stats)) => emitted_stats(stats).map_values(
            |s: Stat| stat_sample(interface, s),
        ),
        None => seq![],
    }
}

/// The samples of all frames, in order.
pub open spec fn ethtool_samples(frames: Seq<Vec<u8>>) -> Seq<SampleView>
    decreases frames.len(),
{
    if frames.len() == 0 {
        seq![]
    } else {
        ethtool_samples(frames.drop_last()) + frame_samples(frames.last()@)
    }
}

fn push_frame(out: &mut Vec<MetricSample>, frame: &[u8])
    ensures
        views(final(out)@) == views(old(out)@) + frame_samples(frame@),
{
    let ghost start = views(out@);
    let ghost all = frame_samples(frame@);
    match parse_frame(frame) {
        None => {
            proof {
                assert(start + all =~= start);
            }
        },
        Some((if_name, stats)) => {
            let limit: usize = if stats.len() <= MAX_STAT_NAMES {
                stats.len()
            } else {
                MAX_STAT_NAMES
            };
            let mut i: usize = 0;
            proof {
                assert(start + all.take(0) =~= start);
            }
            while i < limit
                invariant
                    i <= limit <= stats.len(),
                    limit == all.len(),
                    all == emitted_stats(stat_views(stats@)).map_values(
                        |s: Stat| stat_sample(if_name@, s),
                    ),
                    views(out@) == start + all.take(i as int),
                decreases limit - i,
            {
                let labels = Labels::new().with("interface", if_name.as_str()).with(
                    "stat",
                    stats[i].0.as_str(),
                );
                push_gauge(
                    out,
                    "nft_ethtool_stat",
                    "Ethtool NIC statistic (gauge — resets on link down).",
                    &labels,
                    GaugeValue::Whole(stats[i].1 as i128),
                );
                proof {
                    assert(emitted_stats(stat_views(stats@))[i as int] == (
                        stats@[i as int].0@,
                        stats@[i as int].1,
                    ));
                    assert(start + all.take(i as int + 1) =~= (start + all.take(i as int)).push(
                        all[i as int],
                    ));
                }
                i += 1;
            }
            proof {
                assert(all.take(i as int) =~= all);
            }
        },
    }
}

/// Collector for ethtool statistics.
pub struct EthtoolCollector;

impl EthtoolCollector {
    /// Name of the collector.
    pub fn name(&self) -> (r: &'static str)
        ensures
            r@ == "ethtool"@,
    {
        "ethtool"
    }

    /// Turns the frames of a dump into samples.
    pub fn collect(&self, frames: &[Vec<u8>]) -> (r: Vec<MetricSample>)
        ensures
            views(r@) == ethtool_samples(frames@),
    {
        let mut out: Vec<MetricSample> = Vec::new();
        let mut i: usize = 0;
        proof {
            assert(views(out@) =~= ethtool_samples(frames@.take(0)));
        }
        while i < frames.len()
            invariant
                i <= frames.len(),
                views(out@) == ethtool_samples(frames@.take(i as int)),
            decreases frames.len() - i,
        {
            push_frame(&mut out, frames[i].as_slice());
            proof {
                assert(frames@.take(i as int + 1).drop_last() =~= frames@.take(i as int));
            }
            i += 1;
        }
        proof {
            assert(frames@.take(i as int) =~= frames@);
        }
        out
    }
}

/// The text of the error for a failed dump of the read models.
pub open spec fn dump_error_text(e: TransportError) -> Seq<char> {
    match e {
        TransportError::DumpIntr => "ethtool dump interrupted (NLM_F_DUMP_INTR) too many times"@,
        _ => e.text(),
    }
}

/// The error for a failed dump of the read models.
pub fn dump_error(e: TransportError) -> (r: DomainError)
    ensures
        r matches DomainError::Collector(message) && message@ == dump_error_text(e),
{
    match e {
        TransportError::DumpIntr => DomainError::Collector(
            "ethtool dump interrupted (NLM_F_DUMP_INTR) too many times".to_owned(),
        ),
        other => DomainError::Collector(other.message()),
    }
}

// ---------------------------------------------------------------------------
// Laws
// ---------------------------------------------------------------------------

/// The names of `p` are strictly ascending.
pub open spec fn names_ascend(p: Seq<Stat>) -> bool {
    forall|i: int, j: int| 0 <= i < j < p.len() ==> before((#[trigger] p[i]).0, (#[trigger] p[j]).0)
}

proof fn lemma_put_ascends(p: Seq<Stat>, k: Seq<char>, v: u64)
    requires
        names_ascend(p),
    ensures
        names_ascend(put(p, k, v)),
    decreases p.len(),
{
    let i = lemma_place(p, k);
    lemma_put_at(p, k, v, i);
    lemma_asymmetric(k, k);
    let q = put(p, k, v);
    assert forall|a: int, b: int| 0 <= a < b < q.len() implies before(
        (#[trigger] q[a]).0,
        (#[trigger] q[b]).0,
    ) by {
        if i < p.len() && p[i].0 == k {
            assert(q[a].0 == p[a].0 && q[b].0 == p[b].0);
        } else if b < i {
            assert(q[a] == p[a] && q[b] == p[b]);
        } else if b == i {
            assert(q[a] == p[a]);
        } else {
            assert(q[b] == p[b - 1]);
            lemma_total(p[i].0, k);
            if i < b - 1 {
                assert(before(p[i].0, p[b - 1].0));
                lemma_transitive(k, p[i].0, p[b - 1].0);
            }
            if a < i {
                assert(q[a] == p[a]);
            } else if a > i {
                assert(q[a] == p[a - 1]);
            }
        }
    }
}

proof fn lemma_place(p: Seq<Stat>, k: Seq<char>) -> (i: int)
    requires
        names_ascend(p),
    ensures
        0 <= i <= p.len(),
        forall|j: int| 0 <= j < i ==> before((#[trigger] p[j]).0, k),
        i < p.len() ==> p[i].0 == k || (p[i].0 != k && !before(p[i].0, k)),
    decreases p.len(),
{
    if p.len() == 0 {
        0
    } else if before(p.last().0, k) {
        assert forall|j: int| 0 <= j < p.len() implies before((#[trigger] p[j]).0, k) by {
            if j < p.len() - 1 {
                assert(before(p[j].0, p[p.len() - 1].0));
                lemma_transitive(p[j].0, p.last().0, k);
            }
        }
        p.len() as int
    } else {
        let q = p.drop_last();
        assert(names_ascend(q)) by {
            assert forall|a: int, b: int| 0 <= a < b < q.len() implies before(
                (#[trigger] q[a]).0,
                (#[trigger] q[b]).0,
            ) by {
                assert(before(p[a].0, p[b].0));
            }
        }
        let i = lemma_place(q, k);
        assert forall|j: int| 0 <= j < i implies before((#[trigger] p[j]).0, k) by {
            assert(q[j] == p[j]);
        }
        if i < q.len() {
            assert(q[i] == p[i]);
        } else {
            lemma_asymmetric(k, k);
        }
        i
    }
}

/// Statistics are listed by name, each name once, in strictly ascending order.
pub proof fn law_stats_sorted(entries: Seq<Stat>)
    ensures
        names_ascend(collated(entries)),
    decreases entries.len(),
{
    if entries.len() > 0 {
        law_stats_sorted(entries.drop_last());
        lemma_put_ascends(collated(entries.drop_last()), entries.last().0, entries.last().1);
    }
}

/// One reply makes a bounded number of series.
pub proof fn law_stats_bounded(frame: Seq<u8>)
    ensures
        frame_samples(frame).len() <= MAX_STAT_NAMES,
{
}

/// A statistic is read from its two attributes: its name and its number.
pub proof fn law_stat_read(payload: Seq<u8>, name: Seq<u8>, number: Seq<u8>)
    requires
        last_attr(attrs(payload), 1, 0) == Some(name),
        last_attr(attrs(payload), 2, 0) == Some(number),
    ensures
        until_nul(name).len() > 0 && number.len() >= 8 ==> stat_of(payload) == Some(
            (decoded(until_nul(name)), u64_ne(number)),
        ),
        until_nul(name).len() == 0 || number.len() < 8 ==> stat_of(payload) is None,
{
}

/// Statistics are gathered over all groups: one attribute more adds its
/// statistic, or all those of its group, and one of another type adds nothing.
pub proof fn law_stats_gathered(a: Seq<Attr>, ty: u16, p: Seq<u8>)
    ensures
        group_stats(seq![]).len() == 0,
        all_stats(seq![]).len() == 0,
        ty == 4 && stat_of(p) is Some ==> group_stats(a.push((ty, p))) == group_stats(a).push(
            stat_of(p)->0,
        ),
        ty != 4 || stat_of(p) is None ==> group_stats(a.push((ty, p))) == group_stats(a),
        ty == 4 ==> all_stats(a.push((ty, p))) == all_stats(a) + group_stats(attrs(p)),
        ty != 4 ==> all_stats(a.push((ty, p))) == all_stats(a),
{
    assert(a.push((ty, p)).drop_last() =~= a);
}

/// The last number of a name counts, and the numbers of other names are kept.
pub proof fn law_last_number_kept(entries: Seq<Stat>, i: int)
    requires
        0 <= i < entries.len(),
        forall|j: int| i < j < entries.len() ==> (#[trigger] entries[j]).0 != entries[i].0,
    ensures
        collated(entries).contains(entries[i]),
    decreases entries.len(),
{
    let earlier = entries.drop_last();
    let last = entries.last();
    if i == entries.len() - 1 {
        lemma_put_there(collated(earlier), last.0, last.1);
    } else {
        assert(earlier[i] == entries[i]);
        assert(entries[entries.len() - 1].0 != entries[i].0);
        assert forall|j: int| i < j < earlier.len() implies (#[trigger] earlier[j]).0
            != earlier[i].0 by {
            assert(earlier[j] == entries[j]);
        }
        law_last_number_kept(earlier, i);
        lemma_put_keeps(collated(earlier), last.0, last.1, entries[i]);
    }
}

proof fn lemma_put_there(p: Seq<Stat>, k: Seq<char>, v: u64)
    ensures
        put(p, k, v).contains((k, v)),
    decreases p.len(),
{
    let q = put(p, k, v);
    if p.len() > 0 && p[0].0 != k && before(p[0].0, k) {
        let rest = put(p.skip(1), k, v);
        lemma_put_there(p.skip(1), k, v);
        let i = rest.index_of((k, v));
        assert(q[i + 1] == (k, v));
    } else {
        assert(q[0] == (k, v));
    }
}

proof fn lemma_put_keeps(p: Seq<Stat>, k: Seq<char>, v: u64, e: Stat)
    requires
        p.contains(e),
        e.0 != k,
    ensures
        put(p, k, v).contains(e),
    decreases p.len(),
{
    let q = put(p, k, v);
    let i = p.index_of(e);
    if p[0].0 == k {
        assert(q[i] == p.skip(1)[i - 1]);
        assert(q[i] == e);
    } else if before(p[0].0, k) {
        if i == 0 {
            assert(q[0] == e);
        } else {
            assert(p.skip(1)[i - 1] == e);
            lemma_put_keeps(p.skip(1), k, v, e);
            let j = put(p.skip(1), k, v).index_of(e);
            assert(q[j + 1] == e);
        }
    } else {
        assert(q[i + 1] == e);
    }
}

/// Within the cap, every statistic of a reply goes out under its interface and
/// its name.
pub proof fn law_statistic_exported(
    frame: Seq<u8>,
    a: Seq<Attr>,
    device: Seq<u8>,
    stats: Seq<Stat>,
    i: int,
)
    requires
        frame.len() >= 4,
        a == attrs(frame.skip(4)),
        last_nested(a, 1, 3, 1) == Some(device),
        until_nul(device).len() > 0,
        stats == collated(all_stats(a)),
        0 <= i < stats.len(),
        i < 128,
    ensures
        reads(
            frame_samples(frame),
            "nft_ethtool_stat"@,
            no_labels().insert("interface"@, decoded(until_nul(device))).insert(
                "stat"@,
                stats[i].0,
            ),
            GaugeValue::Whole(stats[i].1 as i128),
        ),
        frame_samples(frame).len() == if stats.len() <= 128 {
            stats.len()
        } else {
            128
        },
{
    assert(is_gauge(
        frame_samples(frame)[i],
        "nft_ethtool_stat"@,
        no_labels().insert("interface"@, decoded(until_nul(device))).insert("stat"@, stats[i].0),
        GaugeValue::Whole(stats[i].1 as i128),
    ));
}

/// No interface is lost: the samples of every frame stand among all in one
/// piece.
pub proof fn law_frames_exported(frames: Seq<Vec<u8>>, i: int)
    requires
        0 <= i < frames.len(),
    ensures
        holds(ethtool_samples(frames), frame_samples(frames[i]@)),
    decreases frames.len(),
{
    let all = ethtool_samples(frames);
    let earlier = ethtool_samples(frames.drop_last());
    let last = frame_samples(frames.last()@);
    if i == frames.len() - 1 {
        assert(all =~= earlier + last + seq![]);
        lemma_holds(all, earlier, last, seq![]);
    } else {
        law_frames_exported(frames.drop_last(), i);
        assert(all =~= seq![] + earlier + last);
        lemma_holds(all, seq![], earlier, last);
        lemma_holds_through(all, earlier, frame_samples(frames[i]@));
    }
}

/// A reply that names no interface gives no samples.
pub proof fn law_nameless_reply_skipped(frame: Seq<u8>)
    ensures
        frame.len() < 4 ==> frame_samples(frame).len() == 0,
        last_nested(attrs(frame.skip(4)), 1, 3, 1) is None ==> frame_samples(frame).len() == 0,
        last_nested(attrs(frame.skip(4)), 1, 3, 1) matches Some(p) ==> (until_nul(p).len() == 0
            ==> frame_samples(frame).len() == 0),
{
}

} // verus!
