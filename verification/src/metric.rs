//! Metric samples: what collectors produce and the exposition encoder consumes.
use crate::labels::Labels;
use vstd::prelude::*;

verus! {

/// Prometheus metric kind.
#[derive(Clone, Copy, Debug, PartialEq, Eq, Structural)]
pub enum MetricKind {
    /// Monotonically increasing counter.
    Counter,
    /// Arbitrary current value.
    Gauge,
    /// Pre-aggregated histogram (sum, count and buckets).
    Histogram,
}

/// The exact number behind a gauge.  It becomes a floating-point number only
/// when its text is written.
#[derive(Clone, Copy, Debug, PartialEq, Eq, Structural)]
pub enum GaugeValue {
    /// A whole number.
    Whole(i128),
    /// A number of thousandths.
    Thousandths(i64),
    /// Positive infinity.
    Infinite,
    /// A binary64 floating-point number, given by its bit pattern.
    Bits(u64),
}

/// Observed value of a sample.
#[derive(Clone, Copy, Debug, PartialEq, Eq, Structural)]
pub enum MetricValue {
    /// 64-bit unsigned integer (counters, most kernel statistics).
    U64(u64),
    /// A gauge reading.
    F64(GaugeValue),
}

/// A single labelled metric observation.
#[derive(Clone, Debug, PartialEq, Eq)]
pub struct MetricSample {
    /// Fully qualified metric name, e.g. `nft_link_rx_bytes_total`.
    pub name: &'static str,
    /// Human-readable description for the HELP line.
    pub help: &'static str,
    /// Metric kind.
    pub kind: MetricKind,
    /// Labels, sorted by key.
    pub labels: Labels,
    /// Observed value.
    pub value: MetricValue,
}

/// The mathematical content of a sample.
pub struct SampleView {
    pub name: Seq<char>,
    pub help: Seq<char>,
    pub kind: MetricKind,
    pub labels: Map<Seq<char>, Seq<char>>,
    pub value: MetricValue,
}

impl View for MetricSample {
    type V = SampleView;

    open spec fn view(&self) -> SampleView {
        SampleView {
            name: self.name@,
            help: self.help@,
            kind: self.kind,
            labels: self.labels@,
            value: self.value,
        }
    }
}

/// The views of a sequence of samples.
pub open spec fn views(v: Seq<MetricSample>) -> Seq<SampleView> {
    v.map_values(|s: MetricSample| s@)
}

/// A counter sample.
pub open spec fn counter_view(
    name: Seq<char>,
    help: Seq<char>,
    labels: Map<Seq<char>, Seq<char>>,
    value: u64,
) -> SampleView {
    SampleView { name, help, kind: MetricKind::Counter, labels, value: MetricValue::U64(value) }
}

/// A gauge sample.
pub open spec fn gauge_view(
    name: Seq<char>,
    help: Seq<char>,
    labels: Map<Seq<char>, Seq<char>>,
    value: GaugeValue,
) -> SampleView {
    SampleView { name, help, kind: MetricKind::Gauge, labels, value: MetricValue::F64(value) }
}

/// A whole number as a gauge reading.
pub open spec fn whole(n: int) -> GaugeValue {
    GaugeValue::Whole(n as i128)
}

/// One for `true`, zero for `false`.
pub open spec fn flag(b: bool) -> GaugeValue {
    whole(if b { 1 } else { 0 })
}

impl MetricSample {
    /// Constructs a counter sample.
    pub fn counter(name: &'static str, help: &'static str, labels: Labels, value: u64) -> (r: Self)
        ensures
            r.name == name,
            r.help == help,
            r.labels == labels,
            r@ == counter_view(name@, help@, labels@, value),
    {
        MetricSample { name, help, kind: MetricKind::Counter, labels, value: MetricValue::U64(value) }
    }

    /// Constructs a gauge sample.
    pub fn gauge(name: &'static str, help: &'static str, labels: Labels, value: GaugeValue) -> (r:
        Self)
        ensures
            r.name == name,
            r.help == help,
            r.labels == labels,
            r@ == gauge_view(name@, help@, labels@, value),
    {
        MetricSample { name, help, kind: MetricKind::Gauge, labels, value: MetricValue::F64(value) }
    }
}

/// Appends a counter sample with a copy of `labels`.
pub fn push_counter(
    out: &mut Vec<MetricSample>,
    name: &'static str,
    help: &'static str,
    labels: &Labels,
    value: u64,
)
    ensures
        views(final(out)@) == views(old(out)@).push(counter_view(name@, help@, labels@, value)),
{
    out.push(MetricSample::counter(name, help, labels.clone(), value));
    proof {
        assert(views(out@) =~= views(old(out)@).push(counter_view(name@, help@, labels@, value)));
    }
}

/// Appends a gauge sample with a copy of `labels`.
pub fn push_gauge(
    out: &mut Vec<MetricSample>,
    name: &'static str,
    help: &'static str,
    labels: &Labels,
    value: GaugeValue,
)
    ensures
        views(final(out)@) == views(old(out)@).push(gauge_view(name@, help@, labels@, value)),
{
    out.push(MetricSample::gauge(name, help, labels.clone(), value));
    proof {
        assert(views(out@) =~= views(old(out)@).push(gauge_view(name@, help@, labels@, value)));
    }
}

/// A gauge reading of one or zero.
pub fn flag_value(b: bool) -> (r: GaugeValue)
    ensures
        r == flag(b),
{
    if b {
        GaugeValue::Whole(1)
    } else {
        GaugeValue::Whole(0)
    }
}

/// The samples of each item of `s`, one item after the other.
pub open spec fn flat<T>(s: Seq<T>, f: spec_fn(T) -> Seq<SampleView>) -> Seq<SampleView>
    decreases s.len(),
{
    if s.len() == 0 {
        seq![]
    } else {
        flat(s.drop_last(), f) + f(s.last())
    }
}

/// The views of a sequence of values.
pub open spec fn model_views<T: View>(s: Seq<T>) -> Seq<T::V> {
    s.map_values(|x: T| x@)
}

/// The view of an optional value.
pub open spec fn opt_view<T: View>(r: Option<T>) -> Option<T::V> {
    match r {
        Some(v) => Some(v@),
        None => None,
    }
}

/// What `f` makes of each frame, without the frames of which it makes nothing.
pub open spec fn parsed<V>(frames: Seq<Vec<u8>>, f: spec_fn(Seq<u8>) -> Option<V>) -> Seq<V>
    decreases frames.len(),
{
    if frames.len() == 0 {
        seq![]
    } else {
        match f(frames.last()@) {
            Some(v) => parsed(frames.drop_last(), f).push(v),
            None => parsed(frames.drop_last(), f),
        }
    }
}

/// The sample is a counter with this name, these labels and this number.
pub open spec fn is_counter(
    s: SampleView,
    name: Seq<char>,
    labels: Map<Seq<char>, Seq<char>>,
    n: u64,
) -> bool {
    s.name == name && s.kind == MetricKind::Counter && s.labels == labels && s.value
        == MetricValue::U64(n)
}

/// The sample is a gauge with this name, these labels and this reading.
pub open spec fn is_gauge(
    s: SampleView,
    name: Seq<char>,
    labels: Map<Seq<char>, Seq<char>>,
    v: GaugeValue,
) -> bool {
    s.name == name && s.kind == MetricKind::Gauge && s.labels == labels && s.value
        == MetricValue::F64(v)
}

/// Some sample is a counter with this name, these labels and this number.
pub open spec fn counts(
    s: Seq<SampleView>,
    name: Seq<char>,
    labels: Map<Seq<char>, Seq<char>>,
    n: u64,
) -> bool {
    exists|i: int| 0 <= i < s.len() && is_counter(#[trigger] s[i], name, labels, n)
}

/// Some sample is a gauge with this name, these labels and this reading.
pub open spec fn reads(
    s: Seq<SampleView>,
    name: Seq<char>,
    labels: Map<Seq<char>, Seq<char>>,
    v: GaugeValue,
) -> bool {
    exists|i: int| 0 <= i < s.len() && is_gauge(#[trigger] s[i], name, labels, v)
}

/// `part` stands in `all` in one piece.
pub open spec fn holds<A>(all: Seq<A>, part: Seq<A>) -> bool {
    exists|i: int|
        0 <= i && i + part.len() <= all.len() && #[trigger] all.subrange(i, i + part.len()) == part
}

/// A sequence of three parts holds the one in the middle.
pub proof fn lemma_holds<A>(all: Seq<A>, head: Seq<A>, part: Seq<A>, tail: Seq<A>)
    requires
        all == head + part + tail,
    ensures
        holds(all, part),
{
    let i = head.len() as int;
    assert(all.subrange(i, i + part.len()) =~= part);
}

/// Holding is passed on to what holds the whole.
pub proof fn lemma_holds_through<A>(all: Seq<A>, mid: Seq<A>, part: Seq<A>)
    requires
        holds(all, mid),
        holds(mid, part),
    ensures
        holds(all, part),
{
    let i = choose|i: int|
        0 <= i && i + mid.len() <= all.len() && #[trigger] all.subrange(i, i + mid.len()) == mid;
    let j = choose|j: int|
        0 <= j && j + part.len() <= mid.len() && #[trigger] mid.subrange(j, j + part.len())
            == part;
    assert(all.subrange(i + j, i + j + part.len()) =~= mid.subrange(j, j + part.len()));
}

/// Items contribute one after the other: the samples of two sequences together
/// are those of the first followed by those of the second.
pub proof fn law_flat_joins<T>(a: Seq<T>, b: Seq<T>, f: spec_fn(T) -> Seq<SampleView>)
    ensures
        flat(a + b, f) == flat(a, f) + flat(b, f),
    decreases b.len(),
{
    if b.len() == 0 {
        assert(a + b =~= a);
        assert(flat(a, f) + flat(b, f) =~= flat(a, f));
    } else {
        law_flat_joins(a, b.drop_last(), f);
        assert((a + b).drop_last() =~= a + b.drop_last());
        assert(flat(a + b, f) =~= flat(a, f) + flat(b, f));
    }
}

/// No item is lost: its samples stand among those of the sequence in one piece.
pub proof fn law_flat_holds_each<T>(s: Seq<T>, i: int, f: spec_fn(T) -> Seq<SampleView>)
    requires
        0 <= i < s.len(),
    ensures
        holds(flat(s, f), f(s[i])),
        flat(seq![s[i]], f) == f(s[i]),
{
    let one = seq![s[i]];
    assert(one.drop_last() =~= seq![]);
    assert(flat(one.drop_last(), f) =~= seq![]);
    assert(flat(one, f) == flat(one.drop_last(), f) + f(one.last()));
    assert(flat(one, f) =~= f(s[i]));
    assert(s =~= s.take(i) + one + s.skip(i + 1));
    law_flat_joins(s.take(i) + one, s.skip(i + 1), f);
    law_flat_joins(s.take(i), one, f);
    lemma_holds(flat(s, f), flat(s.take(i), f), f(s[i]), flat(s.skip(i + 1), f));
}

/// Frames are read one after the other, whatever stands around them.
pub proof fn law_parsed_joins<V>(
    a: Seq<Vec<u8>>,
    b: Seq<Vec<u8>>,
    f: spec_fn(Seq<u8>) -> Option<V>,
)
    ensures
        parsed(a + b, f) == parsed(a, f) + parsed(b, f),
    decreases b.len(),
{
    if b.len() == 0 {
        assert(a + b =~= a);
        assert(parsed(a, f) + parsed(b, f) =~= parsed(a, f));
    } else {
        law_parsed_joins(a, b.drop_last(), f);
        assert((a + b).drop_last() =~= a + b.drop_last());
        assert(parsed(a + b, f) =~= parsed(a, f) + parsed(b, f));
    }
}

/// A frame gives its own value, and nothing when it stands for none.
pub proof fn law_parsed_single<V>(frame: Vec<u8>, f: spec_fn(Seq<u8>) -> Option<V>)
    ensures
        parsed(seq![frame], f) == match f(frame@) {
            Some(v) => seq![v],
            None => seq![],
        },
{
    assert(seq![frame].drop_last() =~= seq![]);
    assert(parsed(seq![frame].drop_last(), f) =~= seq![]);
    assert(parsed(seq![frame], f) =~= match f(frame@) {
        Some(v) => seq![v],
        None => seq![],
    });
}

/// No frame is lost: the value of every frame that stands for one is among those
/// that were read, and this is its place.
pub proof fn law_parsed_holds_each<V>(
    frames: Seq<Vec<u8>>,
    i: int,
    f: spec_fn(Seq<u8>) -> Option<V>,
) -> (k: int)
    requires
        0 <= i < frames.len(),
        f(frames[i]@) is Some,
    ensures
        0 <= k < parsed(frames, f).len(),
        parsed(frames, f)[k] == f(frames[i]@)->0,
        k <= i,
    decreases frames.len(),
{
    lemma_parsed_len(frames.drop_last(), f);
    if i == frames.len() - 1 {
        parsed(frames.drop_last(), f).len() as int
    } else {
        law_parsed_holds_each(frames.drop_last(), i, f)
    }
}

proof fn lemma_parsed_len<V>(frames: Seq<Vec<u8>>, f: spec_fn(Seq<u8>) -> Option<V>)
    ensures
        parsed(frames, f).len() <= frames.len(),
    decreases frames.len(),
{
    if frames.len() > 0 {
        lemma_parsed_len(frames.drop_last(), f);
    }
}

/// Every sequence holds itself.
pub proof fn lemma_holds_itself<A>(s: Seq<A>)
    ensures
        holds(s, s),
{
    assert(s =~= seq![] + s + seq![]);
    lemma_holds(s, seq![], s, seq![]);
}

/// What one of two sequences holds, both hold together.
pub proof fn lemma_joined_holds<A>(a: Seq<A>, b: Seq<A>)
    ensures
        forall|x: Seq<A>| #[trigger] holds(a, x) ==> holds(a + b, x),
        forall|x: Seq<A>| #[trigger] holds(b, x) ==> holds(a + b, x),
{
    assert(a + b =~= seq![] + a + b);
    lemma_holds(a + b, seq![], a, b);
    assert(a + b =~= a + b + seq![]);
    lemma_holds(a + b, a, b, seq![]);
    assert forall|x: Seq<A>| #[trigger] holds(a, x) implies holds(a + b, x) by {
        lemma_holds_through(a + b, a, x);
    }
    assert forall|x: Seq<A>| #[trigger] holds(b, x) implies holds(a + b, x) by {
        lemma_holds_through(a + b, b, x);
    }
}

} // verus!
