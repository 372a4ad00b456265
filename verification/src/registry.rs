//! Text exposition of samples.
//!
//! Samples are grouped by metric name, in the order of the names.  Each group
//! starts with one HELP and one TYPE line, taken from the first sample of the
//! name; the samples follow, sorted by their label sets, each with its labels
//! sorted by key.  The body ends with an EOF line.
use crate::error::RegistryError;
use crate::labels::{
    lemma_listing_asymmetric, lemma_listing_total, lemma_listing_transitive, listing_before, Labels,
    Pairs,
};
use crate::metric::{
    holds, lemma_holds, lemma_holds_through, GaugeValue, MetricKind, MetricSample, MetricValue,
};
use crate::order::{before, lemma_asymmetric, lemma_total, lemma_transitive, rank, Rank};
use crate::text::{
    all_digits, chars_of, dec, digit_char, digit_value, digits_value, first_index,
    law_signed_round_trip, law_unsigned_round_trip, lemma_dec_digits, parsed_i64, parsed_unsigned,
    push_dec, signed_dec, signed_dec_text, str_eq,
};
use vstd::prelude::*;
use vstd::string::*;

verus! {

// ---------------------------------------------------------------------------
// Pieces of a line
// ---------------------------------------------------------------------------

pub open spec fn kind_text(kind: MetricKind) -> Seq<char> {
    match kind {
        MetricKind::Counter => "counter"@,
        MetricKind::Gauge => "gauge"@,
        MetricKind::Histogram => "histogram"@,
    }
}

/// Name of a metric kind on a TYPE line.
pub fn kind_str(kind: MetricKind) -> (r: &'static str)
    ensures
        r@ == kind_text(kind),
{
    match kind {
        MetricKind::Counter => "counter",
        MetricKind::Gauge => "gauge",
        MetricKind::Histogram => "histogram",
    }
}

/// One character of an escaped text.
pub open spec fn escaped_char(c: char, quotes: bool) -> Seq<char> {
    if c == '\\' {
        seq!['\\', '\\']
    } else if c == '\n' {
        seq!['\\', 'n']
    } else if quotes && c == '"' {
        seq!['\\', '"']
    } else {
        seq![c]
    }
}

/// A text with backslashes and line feeds escaped, and quotes too where `quotes` says so.
pub open spec fn escaped(s: Seq<char>, quotes: bool) -> Seq<char>
    decreases s.len(),
{
    if s.len() == 0 {
        seq![]
    } else {
        escaped_char(s[0], quotes) + escaped(s.skip(1), quotes)
    }
}

fn escape(s: &str, quotes: bool) -> (r: String)
    ensures
        r@ == escaped(s@, quotes),
{
    let c = chars_of(s);
    let mut r = String::new();
    let mut i: usize = 0;
    proof {
        assert(c@.skip(0) =~= c@);
        assert(r@ + escaped(c@, quotes) =~= escaped(c@, quotes));
    }
    while i < c.len()
        invariant
            i <= c.len(),
            c@ == s@,
            r@ + escaped(c@.skip(i as int), quotes) == escaped(s@, quotes),
        decreases c.len() - i,
    {
        let ch = c[i];
        let ghost head = r@;
        if ch == '\\' {
            r.push('\\');
            r.push('\\');
        } else if ch == '\n' {
            r.push('\\');
            r.push('n');
        } else if quotes && ch == '"' {
            r.push('\\');
            r.push('"');
        } else {
            r.push(ch);
        }
        proof {
            let rest = c@.skip(i as int);
            assert(rest.skip(1) =~= c@.skip(i as int + 1));
            assert(r@ =~= head + escaped_char(ch, quotes));
            assert(r@ + escaped(rest.skip(1), quotes) =~= head + escaped(rest, quotes));
        }
        i += 1;
    }
    proof {
        assert(r@ + escaped(c@.skip(i as int), quotes) =~= r@);
    }
    r
}

/// Escapes a HELP text: backslashes and line feeds.
pub fn escape_help(s: &str) -> (r: String)
    ensures
        r@ == escaped(s@, false),
{
    escape(s, false)
}

/// Escapes a label value: backslashes, quotes and line feeds.
pub fn escape_label_value(s: &str) -> (r: String)
    ensures
        r@ == escaped(s@, true),
{
    escape(s, true)
}

/// What kind of number a gauge reading is.
#[derive(Clone, Copy, Debug, PartialEq, Eq, Structural)]
pub enum NumberClass {
    /// A finite number.
    Finite,
    /// Positive infinity.
    PositiveInfinity,
    /// Negative infinity.
    NegativeInfinity,
    /// Not a number.
    NotANumber,
}

/// The class of a binary64 bit pattern: an exponent of all ones means an
/// infinity when the fraction is zero, and else no number.
pub open spec fn bits_class(bits: u64) -> NumberClass {
    let exponent = bits / 0x10_0000_0000_0000 % 0x800;
    let fraction = bits % 0x10_0000_0000_0000;
    if exponent != 0x7ff {
        NumberClass::Finite
    } else if fraction != 0 {
        NumberClass::NotANumber
    } else if bits / 0x8000_0000_0000_0000 == 0 {
        NumberClass::PositiveInfinity
    } else {
        NumberClass::NegativeInfinity
    }
}

/// The class of a gauge reading.
pub open spec fn class_of(v: GaugeValue) -> NumberClass {
    match v {
        GaugeValue::Infinite => NumberClass::PositiveInfinity,
        GaugeValue::Bits(bits) => bits_class(bits),
        _ => NumberClass::Finite,
    }
}

/// Classifies a gauge reading.
pub fn classify(v: GaugeValue) -> (r: NumberClass)
    ensures
        r == class_of(v),
{
    match v {
        GaugeValue::Infinite => NumberClass::PositiveInfinity,
        GaugeValue::Bits(bits) => {
            let exponent: u64 = bits / 0x10_0000_0000_0000 % 0x800;
            let fraction: u64 = bits % 0x10_0000_0000_0000;
            if exponent != 0x7ff {
                NumberClass::Finite
            } else if fraction != 0 {
                NumberClass::NotANumber
            } else if bits / 0x8000_0000_0000_0000 == 0 {
                NumberClass::PositiveInfinity
            } else {
                NumberClass::NegativeInfinity
            }
        },
        _ => NumberClass::Finite,
    }
}

/// Whole numbers up to this magnitude are binary64 numbers.
pub const MAX_EXACT: i128 = 0x20_0000_0000_0000;

/// Thousandths below this magnitude have at most fifteen significant digits, so
/// no shorter decimal stands for the same binary64 number.
pub const MAX_THOUSANDTHS: i64 = 1_000_000_000_000_000;

/// A fraction of `m` thousandths, with its point and without trailing zeros.
pub open spec fn fraction_text(m: nat) -> Seq<char> {
    if m == 0 {
        seq![]
    } else if m % 100 == 0 {
        seq!['.', digit_char(m / 100)]
    } else if m % 10 == 0 {
        seq!['.', digit_char(m / 100), digit_char(m / 10 % 10)]
    } else {
        seq!['.', digit_char(m / 100), digit_char(m / 10 % 10), digit_char(m % 10)]
    }
}

/// Decimal notation of `n` thousandths.
pub open spec fn thousandths_text(n: int) -> Seq<char> {
    if n < 0 {
        seq!['-'] + dec((-n) as nat / 1000) + fraction_text((-n) as nat % 1000)
    } else {
        dec(n as nat / 1000) + fraction_text(n as nat % 1000)
    }
}

/// The text of a reading that is written without rounding.
pub open spec fn exact_text(v: GaugeValue) -> Option<Seq<char>> {
    match v {
        GaugeValue::Whole(n) if -MAX_EXACT <= n <= MAX_EXACT => Some(signed_dec(n as int)),
        GaugeValue::Thousandths(n) if -MAX_THOUSANDTHS < n < MAX_THOUSANDTHS => Some(
            thousandths_text(n as int),
        ),
        _ => None,
    }
}

/// The text of a gauge reading.  `finite` is the decimal text of a finite
/// reading that has no exact text.
pub open spec fn gauge_text(v: GaugeValue, finite: Seq<char>) -> Seq<char> {
    match exact_text(v) {
        Some(text) => text,
        None => match class_of(v) {
            NumberClass::Finite => finite,
            NumberClass::PositiveInfinity => "+Inf"@,
            NumberClass::NegativeInfinity => "-Inf"@,
            NumberClass::NotANumber => "NaN"@,
        },
    }
}

fn push_fraction(out: &mut String, m: u64)
    requires
        m < 1000,
    ensures
        final(out)@ == old(out)@ + fraction_text(m as nat),
{
    let hundreds: u64 = m / 100;
    let tens: u64 = m / 10 % 10;
    let ones: u64 = m % 10;
    if m != 0 {
        out.push('.');
        push_dec(out, hundreds);
        if m % 100 != 0 {
            push_dec(out, tens);
            if ones != 0 {
                push_dec(out, ones);
            }
        }
    }
    proof {
        assert(out@ =~= old(out)@ + fraction_text(m as nat));
    }
}

fn push_thousandths(out: &mut String, n: i64)
    requires
        -MAX_THOUSANDTHS < n < MAX_THOUSANDTHS,
    ensures
        final(out)@ == old(out)@ + thousandths_text(n as int),
{
    let magnitude: u64 = if n < 0 {
        out.push('-');
        (-n) as u64
    } else {
        n as u64
    };
    push_dec(out, magnitude / 1000);
    push_fraction(out, magnitude % 1000);
    proof {
        assert(out@ =~= old(out)@ + thousandths_text(n as int));
    }
}

/// Writes a gauge reading.  `finite` is its decimal text, which is used when it
/// is a finite number without an exact text.
pub fn write_f64(out: &mut String, v: GaugeValue, finite: &str)
    ensures
        final(out)@ == old(out)@ + gauge_text(v, finite@),
{
    match v {
        GaugeValue::Whole(n) => {
            if -MAX_EXACT <= n && n <= MAX_EXACT {
                out.append(signed_dec_text(n as i64).as_str());
                return ;
            }
        },
        GaugeValue::Thousandths(n) => {
            if -MAX_THOUSANDTHS < n && n < MAX_THOUSANDTHS {
                push_thousandths(out, n);
                return ;
            }
        },
        _ => {},
    }
    match classify(v) {
        NumberClass::Finite => out.append(finite),
        NumberClass::PositiveInfinity => out.append("+Inf"),
        NumberClass::NegativeInfinity => out.append("-Inf"),
        NumberClass::NotANumber => out.append("NaN"),
    }
}

/// The text of a value; `finite` is the decimal text of a finite gauge reading
/// without an exact text.
pub open spec fn value_text(v: MetricValue, finite: Seq<char>) -> Seq<char> {
    match v {
        MetricValue::U64(n) => dec(n as nat),
        MetricValue::F64(g) => gauge_text(g, finite),
    }
}

/// The first `n` labels, as they stand between the braces.
pub open spec fn label_text(p: Pairs, n: nat) -> Seq<char>
    decreases n,
{
    if n == 0 {
        seq![]
    } else {
        label_text(p, (n - 1) as nat) + (if n > 1 {
            seq![',']
        } else {
            seq![]
        }) + p[n - 1].0 + "=\""@ + escaped(p[n - 1].1, true) + "\""@
    }
}

/// The label part of a line; empty without labels.
pub open spec fn braces_text(p: Pairs) -> Seq<char> {
    if p.len() == 0 {
        seq![]
    } else {
        seq!['{'] + label_text(p, p.len()) + seq!['}']
    }
}

/// One sample line.
pub open spec fn line_text(
    name: Seq<char>,
    labels: Pairs,
    value: MetricValue,
    finite: Seq<char>,
) -> Seq<char> {
    name + braces_text(labels) + seq![' '] + value_text(value, finite) + seq!['\n']
}

fn push_labels(out: &mut String, labels: &Labels)
    ensures
        final(out)@ == old(out)@ + braces_text(labels.pairs()),
{
    let ghost start = out@;
    let n: usize = labels.len();
    if n == 0 {
        proof {
            assert(start + braces_text(labels.pairs()) =~= start);
        }
        return;
    }
    out.push('{');
    let ghost opened = out@;
    let mut i: usize = 0;
    proof {
        assert(opened + label_text(labels.pairs(), 0) =~= opened);
    }
    while i < n
        invariant
            i <= n,
            n == labels.pairs().len(),
            out@ == opened + label_text(labels.pairs(), i as nat),
        decreases n - i,
    {
        let ghost head = out@;
        if i > 0 {
            out.push(',');
        }
        out.append(labels.key_at(i));
        out.append("=\"");
        out.append(escape_label_value(labels.value_at(i)).as_str());
        out.append("\"");
        proof {
            let p = labels.pairs();
            let comma: Seq<char> = if i > 0 {
                seq![',']
            } else {
                seq![]
            };
            assert(out@ =~= head + comma + p[i as int].0 + "=\""@ + escaped(p[i as int].1, true) + "\""@);
            assert(opened + label_text(p, (i + 1) as nat) =~= head + comma + p[i as int].0 + "=\""@
                + escaped(p[i as int].1, true) + "\""@);
        }
        i += 1;
    }
    out.push('}');
    proof {
        assert(out@ =~= start + braces_text(labels.pairs()));
    }
}

/// Writes one sample line.  `finite` is the decimal text of a finite gauge
/// reading without an exact text.
pub fn write_sample_line(
    out: &mut String,
    name: &str,
    labels: &Labels,
    value: MetricValue,
    finite: &str,
)
    ensures
        final(out)@ == old(out)@ + line_text(name@, labels.pairs(), value, finite@),
{
    let ghost start = out@;
    out.append(name);
    push_labels(out, labels);
    out.push(' ');
    match value {
        MetricValue::U64(n) => push_dec(out, n),
        MetricValue::F64(g) => write_f64(out, g, finite),
    }
    out.push('\n');
    proof {
        assert(out@ =~= start + line_text(name@, labels.pairs(), value, finite@));
    }
}

// ---------------------------------------------------------------------------
// Grouping
// ---------------------------------------------------------------------------

/// `names` with `n` in its place in the order, if it is not there yet.
pub open spec fn with_name(names: Seq<Seq<char>>, n: Seq<char>) -> Seq<Seq<char>>
    decreases names.len(),
{
    if names.len() == 0 {
        seq![n]
    } else if names[0] == n {
        names
    } else if before(names[0], n) {
        seq![names[0]] + with_name(names.skip(1), n)
    } else {
        seq![n] + names
    }
}

/// The metric names of the samples, sorted, each once.
pub open spec fn names_of(samples: Seq<MetricSample>) -> Seq<Seq<char>>
    decreases samples.len(),
{
    if samples.len() == 0 {
        seq![]
    } else {
        with_name(names_of(samples.drop_last()), samples.last().name@)
    }
}

/// The place of the first sample with the name `n`; the number of samples when
/// there is none.
pub open spec fn first_named(samples: Seq<MetricSample>, n: Seq<char>) -> nat
    decreases samples.len(),
{
    if samples.len() == 0 || samples[0].name@ == n {
        0
    } else {
        1 + first_named(samples.skip(1), n)
    }
}

/// `order` with the sample `j` behind the last one whose labels do not sort
/// after those of `j`.
pub open spec fn placed(samples: Seq<MetricSample>, order: Seq<int>, j: int) -> Seq<int>
    decreases order.len(),
{
    if order.len() > 0 && listing_before(
        samples[j].labels.pairs(),
        samples[order.last()].labels.pairs(),
    ) {
        placed(samples, order.drop_last(), j).push(order.last())
    } else {
        order.push(j)
    }
}

/// The places of the samples with the name `n` among the first `k`, sorted by
/// their labels; samples with equal labels keep their order.
pub open spec fn order_of(samples: Seq<MetricSample>, n: Seq<char>, k: nat) -> Seq<int>
    decreases k,
{
    if k == 0 {
        seq![]
    } else {
        let earlier = order_of(samples, n, (k - 1) as nat);
        if samples[k - 1].name@ == n {
            placed(samples, earlier, k - 1)
        } else {
            earlier
        }
    }
}

/// The lines of the samples at the first `k` places of `order`.
pub open spec fn lines_at(
    samples: Seq<MetricSample>,
    numbers: Seq<String>,
    order: Seq<int>,
    k: nat,
) -> Seq<char>
    decreases k,
{
    if k == 0 {
        seq![]
    } else {
        let s = samples[order[k - 1]];
        lines_at(samples, numbers, order, (k - 1) as nat) + line_text(
            s.name@,
            s.labels.pairs(),
            s.value,
            numbers[order[k - 1]]@,
        )
    }
}

/// The group of the name `n`: its HELP and TYPE lines and its sample lines.
pub open spec fn group_text(
    samples: Seq<MetricSample>,
    numbers: Seq<String>,
    n: Seq<char>,
) -> Seq<char> {
    let first = samples[first_named(samples, n) as int];
    let order = order_of(samples, n, samples.len());
    "# HELP "@ + n + seq![' '] + escaped(first.help@, false) + seq!['\n'] + "# TYPE "@ + n + seq![' ']
        + kind_text(first.kind) + seq!['\n'] + lines_at(samples, numbers, order, order.len())
}

/// The groups of the first `k` names.
pub open spec fn groups_text(
    samples: Seq<MetricSample>,
    numbers: Seq<String>,
    names: Seq<Seq<char>>,
    k: nat,
) -> Seq<char>
    decreases k,
{
    if k == 0 {
        seq![]
    } else {
        groups_text(samples, numbers, names, (k - 1) as nat) + group_text(
            samples,
            numbers,
            names[k - 1],
        )
    }
}

/// The whole exposition.  `numbers` holds, for each sample, the decimal text of
/// its value if that is a finite gauge reading without an exact text.
pub open spec fn exposition(samples: Seq<MetricSample>, numbers: Seq<String>) -> Seq<char> {
    let names = names_of(samples);
    groups_text(samples, numbers, names, names.len()) + "# EOF\n"@
}

/// The views of a vector of names.
pub open spec fn str_views(v: Seq<&'static str>) -> Seq<Seq<char>> {
    v.map_values(|s: &'static str| s@)
}

proof fn lemma_with_name_at(names: Seq<Seq<char>>, n: Seq<char>, i: int)
    requires
        0 <= i <= names.len(),
        forall|j: int| 0 <= j < i ==> before(#[trigger] names[j], n),
    ensures
        i < names.len() && names[i] == n ==> with_name(names, n) == names,
        (i < names.len() ==> names[i] != n && !before(names[i], n)) ==> with_name(names, n)
            == names.insert(i, n),
    decreases i,
{
    if i == 0 {
        if names.len() > 0 && names[0] == n {
        } else {
            assert(with_name(names, n) =~= names.insert(0, n) || (names.len() > 0 && before(
                names[0],
                n,
            )));
        }
    } else {
        let rest = names.skip(1);
        lemma_asymmetric(names[0], n);
        assert(before(names[0], n));
        assert forall|j: int| 0 <= j < i - 1 implies before(#[trigger] rest[j], n) by {
            assert(rest[j] == names[j + 1]);
        }
        lemma_with_name_at(rest, n, i - 1);
        if i < names.len() {
            assert(rest[i - 1] == names[i]);
            assert(seq![names[0]] + rest =~= names);
        }
        assert(seq![names[0]] + rest.insert(i - 1, n) =~= names.insert(i, n));
    }
}

fn add_name(names: &mut Vec<&'static str>, n: &'static str)
    ensures
        str_views(final(names)@) == with_name(str_views(old(names)@), n@),
{
    let ghost p = str_views(names@);
    let mut i: usize = 0;
    let mut found = false;
    while i < names.len()
        invariant_except_break
            !found,
        invariant
            i <= names.len(),
            str_views(names@) == p,
            forall|j: int| 0 <= j < i ==> before(#[trigger] p[j], n@),
        ensures
            found ==> i < p.len() && p[i as int] == n@,
            !found && i < p.len() ==> p[i as int] != n@ && !before(p[i as int], n@),
        decreases names.len() - i,
    {
        proof {
            assert(p[i as int] == names@[i as int]@);
            lemma_asymmetric(p[i as int], n@);
        }
        match rank(names[i], n) {
            Rank::Before => {
                i += 1;
            },
            Rank::Same => {
                found = true;
                break;
            },
            Rank::After => {
                break;
            },
        }
    }
    proof {
        lemma_with_name_at(p, n@, i as int);
    }
    if !found {
        names.insert(i, n);
        proof {
            assert(str_views(names@) =~= p.insert(i as int, n@));
        }
    }
}

fn collect_names(samples: &[MetricSample]) -> (r: Vec<&'static str>)
    ensures
        str_views(r@) == names_of(samples@),
{
    let mut r: Vec<&'static str> = Vec::new();
    let mut i: usize = 0;
    proof {
        assert(str_views(r@) =~= names_of(samples@.take(0)));
    }
    while i < samples.len()
        invariant
            i <= samples.len(),
            str_views(r@) == names_of(samples@.take(i as int)),
        decreases samples.len() - i,
    {
        add_name(&mut r, samples[i].name);
        proof {
            assert(samples@.take(i as int + 1).drop_last() =~= samples@.take(i as int));
        }
        i += 1;
    }
    proof {
        assert(samples@.take(i as int) =~= samples@);
    }
    r
}

fn find_named(samples: &[MetricSample], n: &str) -> (r: usize)
    ensures
        r == first_named(samples@, n@),
        r <= samples@.len(),
{
    let mut i: usize = 0;
    proof {
        assert(samples@.skip(0) =~= samples@);
    }
    while i < samples.len()
        invariant
            i <= samples.len(),
            first_named(samples@, n@) == i + first_named(samples@.skip(i as int), n@),
        decreases samples.len() - i,
    {
        proof {
            assert(samples@.skip(i as int).skip(1) =~= samples@.skip(i as int + 1));
        }
        if str_eq(samples[i].name, n) {
            return i;
        }
        i += 1;
    }
    i
}

proof fn lemma_first_named(samples: Seq<MetricSample>, i: int)
    requires
        0 <= i < samples.len(),
    ensures
        first_named(samples, samples[i].name@) <= i,
    decreases i,
{
    if i > 0 && samples[0].name@ != samples[i].name@ {
        lemma_first_named(samples.skip(1), i - 1);
    }
}

/// The views of a vector of places.
spec fn places(v: Seq<usize>) -> Seq<int> {
    v.map_values(|i: usize| i as int)
}

/// Every place of a list is one of the first `k`, with a sample named `n`.
spec fn all_named(samples: Seq<MetricSample>, order: Seq<int>, n: Seq<char>, k: int) -> bool {
    forall|i: int|
        0 <= i < order.len() ==> 0 <= #[trigger] order[i] < k && samples[order[i]].name@ == n
}

proof fn lemma_placed_at(samples: Seq<MetricSample>, order: Seq<int>, j: int, i: int)
    requires
        0 <= i <= order.len(),
        forall|m: int|
            i <= m < order.len() ==> listing_before(
                samples[j].labels.pairs(),
                samples[#[trigger] order[m]].labels.pairs(),
            ),
        i > 0 ==> !listing_before(
            samples[j].labels.pairs(),
            samples[order[i - 1]].labels.pairs(),
        ),
    ensures
        placed(samples, order, j) == order.insert(i, j),
    decreases order.len() - i,
{
    if i == order.len() {
        assert(order.push(j) =~= order.insert(i, j));
    } else {
        assert(listing_before(
            samples[j].labels.pairs(),
            samples[order[order.len() - 1]].labels.pairs(),
        ));
        let rest = order.drop_last();
        assert forall|m: int| i <= m < rest.len() implies listing_before(
            samples[j].labels.pairs(),
            samples[#[trigger] rest[m]].labels.pairs(),
        ) by {
            assert(rest[m] == order[m]);
        }
        if i > 0 {
            assert(rest[i - 1] == order[i - 1]);
        }
        lemma_placed_at(samples, rest, j, i);
        assert(rest.insert(i, j).push(order.last()) =~= order.insert(i, j));
    }
}

fn place(samples: &[MetricSample], order: &mut Vec<usize>, j: usize, Ghost(n): Ghost<Seq<char>>)
    requires
        j < samples@.len(),
        samples@[j as int].name@ == n,
        all_named(samples@, places(old(order)@), n, j as int),
    ensures
        places(final(order)@) == placed(samples@, places(old(order)@), j as int),
        all_named(samples@, places(final(order)@), n, j + 1),
{
    let ghost start = places(order@);
    let mut i: usize = order.len();
    while i > 0
        invariant
            i <= order@.len(),
            j < samples@.len(),
            places(order@) == start,
            all_named(samples@, start, n, j as int),
            forall|m: int|
                i <= m < start.len() ==> listing_before(
                    samples@[j as int].labels.pairs(),
                    samples@[#[trigger] start[m]].labels.pairs(),
                ),
        ensures
            i > 0 ==> !listing_before(
                samples@[j as int].labels.pairs(),
                samples@[start[i - 1]].labels.pairs(),
            ),
        decreases i,
    {
        let earlier: usize = order[i - 1];
        proof {
            assert(start[i - 1] == earlier);
        }
        if !samples[j].labels.sorts_before(&samples[earlier].labels) {
            break;
        }
        i -= 1;
    }
    proof {
        lemma_placed_at(samples@, start, j as int, i as int);
    }
    order.insert(i, j);
    proof {
        let r = places(order@);
        assert(r =~= start.insert(i as int, j as int));
        assert forall|m: int| 0 <= m < r.len() implies 0 <= #[trigger] r[m] < j + 1
            && samples@[r[m]].name@ == n by {
            if m < i {
                assert(r[m] == start[m]);
            } else if m > i {
                assert(r[m] == start[m - 1]);
            }
        }
    }
}

fn sort_named(samples: &[MetricSample], n: &str) -> (r: Vec<usize>)
    ensures
        places(r@) == order_of(samples@, n@, samples@.len()),
        all_named(samples@, places(r@), n@, samples@.len() as int),
{
    let mut r: Vec<usize> = Vec::new();
    let mut i: usize = 0;
    proof {
        assert(places(r@) =~= seq![]);
    }
    while i < samples.len()
        invariant
            i <= samples.len(),
            places(r@) == order_of(samples@, n@, i as nat),
            all_named(samples@, places(r@), n@, i as int),
        decreases samples.len() - i,
    {
        if str_eq(samples[i].name, n) {
            place(samples, &mut r, i, Ghost(n@));
        }
        i += 1;
    }
    r
}

fn push_group(out: &mut String, samples: &[MetricSample], numbers: &[String], n: &str)
    requires
        numbers@.len() == samples@.len(),
        first_named(samples@, n@) < samples@.len(),
    ensures
        final(out)@ == old(out)@ + group_text(samples@, numbers@, n@),
{
    let ghost start = out@;
    let first: usize = find_named(samples, n);
    let help = escape_help(samples[first].help);
    out.append("# HELP ");
    out.append(n);
    out.push(' ');
    out.append(help.as_str());
    out.push('\n');
    out.append("# TYPE ");
    out.append(n);
    out.push(' ');
    out.append(kind_str(samples[first].kind));
    out.push('\n');
    let ghost head = out@;
    let order = sort_named(samples, n);
    let ghost places_of = places(order@);
    let mut i: usize = 0;
    proof {
        assert(head + lines_at(samples@, numbers@, places_of, 0) =~= head);
    }
    while i < order.len()
        invariant
            i <= order.len(),
            numbers@.len() == samples@.len(),
            places_of == places(order@),
            all_named(samples@, places_of, n@, samples@.len() as int),
            out@ == head + lines_at(samples@, numbers@, places_of, i as nat),
        decreases order.len() - i,
    {
        let ghost so_far = out@;
        let at: usize = order[i];
        proof {
            assert(places_of[i as int] == at);
        }
        let s = &samples[at];
        write_sample_line(out, n, &s.labels, s.value, numbers[at].as_str());
        proof {
            let line = line_text(n@, s.labels.pairs(), s.value, numbers@[at as int]@);
            let done = lines_at(samples@, numbers@, places_of, i as nat);
            assert(so_far + line =~= head + (done + line));
        }
        i += 1;
    }
    proof {
        assert(out@ =~= start + group_text(samples@, numbers@, n@));
    }
}

/// Every name of a list occurs among the samples.
pub open spec fn all_occur(names: Seq<Seq<char>>, samples: Seq<MetricSample>) -> bool {
    forall|i: int| 0 <= i < names.len() ==> occurs(#[trigger] names[i], samples)
}

/// Some sample has the name `n`.
pub open spec fn occurs(n: Seq<char>, samples: Seq<MetricSample>) -> bool {
    exists|j: int| 0 <= j < samples.len() && (#[trigger] samples[j]).name@ == n
}

proof fn lemma_with_name_occur(names: Seq<Seq<char>>, n: Seq<char>, samples: Seq<MetricSample>)
    requires
        all_occur(names, samples),
        occurs(n, samples),
    ensures
        all_occur(with_name(names, n), samples),
    decreases names.len(),
{
    if names.len() > 0 {
        let rest = names.skip(1);
        assert(all_occur(rest, samples)) by {
            assert forall|i: int| 0 <= i < rest.len() implies occurs(#[trigger] rest[i], samples) by {
                assert(rest[i] == names[i + 1]);
            }
        }
        lemma_with_name_occur(rest, n, samples);
        let w = with_name(names, n);
        assert forall|i: int| 0 <= i < w.len() implies occurs(#[trigger] w[i], samples) by {
            if names[0] == n {
            } else if before(names[0], n) {
                if i == 0 {
                    assert(w[0] == names[0]);
                } else {
                    assert(w[i] == with_name(rest, n)[i - 1]);
                }
            } else if i > 0 {
                assert(w[i] == names[i - 1]);
            }
        }
    }
}

proof fn lemma_names_occur(samples: Seq<MetricSample>)
    ensures
        all_occur(names_of(samples), samples),
    decreases samples.len(),
{
    if samples.len() > 0 {
        let earlier = samples.drop_last();
        lemma_names_occur(earlier);
        let names = names_of(earlier);
        assert(all_occur(names, samples)) by {
            assert forall|i: int| 0 <= i < names.len() implies occurs(#[trigger] names[i], samples) by {
                assert(occurs(names[i], earlier));
                let j = choose|j: int|
                    0 <= j < earlier.len() && (#[trigger] earlier[j]).name@ == names[i];
                assert(samples[j].name@ == names[i]);
            }
        }
        assert(occurs(samples.last().name@, samples)) by {
            assert(samples[samples.len() - 1].name@ == samples.last().name@);
        }
        lemma_with_name_occur(names, samples.last().name@, samples);
    }
}

/// Encodes samples as text: one group for each metric name, in ascending order
/// of the names, with its lines sorted by their label sets.
///
/// `numbers` holds, for each sample, the decimal text of its value where that
/// is a finite gauge reading without an exact text; other entries are not used.
pub fn encode_samples(samples: &[MetricSample], numbers: &[String]) -> (r: Result<
    String,
    RegistryError,
>)
    requires
        numbers@.len() == samples@.len(),
    ensures
        r matches Ok(text) && text@ == exposition(samples@, numbers@),
{
    let names = collect_names(samples);
    let ghost all = names_of(samples@);
    proof {
        lemma_names_occur(samples@);
    }
    let mut out = String::new();
    let mut i: usize = 0;
    while i < names.len()
        invariant
            i <= names.len(),
            all == names_of(samples@),
            str_views(names@) == all,
            all_occur(all, samples@),
            numbers@.len() == samples@.len(),
            out@ == groups_text(samples@, numbers@, all, i as nat),
        decreases names.len() - i,
    {
        let n = names[i];
        proof {
            assert(all[i as int] == n@);
            assert(occurs(all[i as int], samples@));
            let j = choose|j: int| 0 <= j < samples@.len() && (#[trigger] samples@[j]).name@ == n@;
            lemma_first_named(samples@, j);
        }
        push_group(&mut out, samples, numbers, n);
        i += 1;
    }
    out.append("# EOF\n");
    Ok(out)
}

// ---------------------------------------------------------------------------
// Registry
// ---------------------------------------------------------------------------

/// Holds the latest encoded body.
///
/// Each update replaces the whole body.
#[derive(Debug)]
pub struct PrometheusRegistryAdapter {
    encoded: String,
}

impl PrometheusRegistryAdapter {
    /// The stored body.
    pub closed spec fn body(&self) -> Seq<char> {
        self.encoded@
    }

    /// A registry with an empty body.
    pub fn new() -> (r: Self)
        ensures
            r.body() == Seq::<char>::empty(),
    {
        PrometheusRegistryAdapter { encoded: String::new() }
    }

    /// Replaces the body by the exposition of `samples`.
    pub fn update_samples(&mut self, samples: &[MetricSample], numbers: &[String]) -> (r: Result<
        (),
        RegistryError,
    >)
        requires
            numbers@.len() == samples@.len(),
        ensures
            r is Ok,
            final(self).body() == exposition(samples@, numbers@),
    {
        match encode_samples(samples, numbers) {
            Ok(text) => {
                self.encoded = text;
                Ok(())
            },
            Err(e) => Err(e),
        }
    }

    /// The stored body.
    pub fn encode_text(&self) -> (r: String)
        ensures
            r@ == self.body(),
    {
        self.encoded.clone()
    }
}

impl Default for PrometheusRegistryAdapter {
    fn default() -> (r: Self)
        ensures
            r.body() == Seq::<char>::empty(),
    {
        PrometheusRegistryAdapter::new()
    }
}

// ---------------------------------------------------------------------------
// Laws
// ---------------------------------------------------------------------------

/// What an escaped text stands for.
pub open spec fn unescaped(t: Seq<char>) -> Seq<char>
    decreases t.len(),
{
    if t.len() == 0 {
        seq![]
    } else if t[0] == '\\' && t.len() > 1 {
        seq![
            if t[1] == 'n' {
                '\n'
            } else {
                t[1]
            },
        ] + unescaped(t.skip(2))
    } else {
        seq![t[0]] + unescaped(t.skip(1))
    }
}

/// Escaping loses nothing: the original text can be read back from the escaped one.
pub proof fn law_escape_round_trip(s: Seq<char>, quotes: bool)
    ensures
        unescaped(escaped(s, quotes)) == s,
    decreases s.len(),
{
    if s.len() > 0 {
        law_escape_round_trip(s.skip(1), quotes);
        let head = escaped_char(s[0], quotes);
        let tail = escaped(s.skip(1), quotes);
        let t = head + tail;
        assert(t.skip(head.len() as int) =~= tail);
        assert(seq![s[0]] + s.skip(1) =~= s);
    } else {
        assert(unescaped(escaped(s, quotes)) =~= s);
    }
}

/// An escaped label value cannot end its line: it holds no line feed.
pub proof fn law_escape_keeps_line(s: Seq<char>, quotes: bool)
    ensures
        !escaped(s, quotes).contains('\n'),
    decreases s.len(),
{
    if s.len() > 0 {
        law_escape_keeps_line(s.skip(1), quotes);
        let head = escaped_char(s[0], quotes);
        let tail = escaped(s.skip(1), quotes);
        let t = head + tail;
        assert forall|i: int| 0 <= i < t.len() implies t[i] != '\n' by {
            if i >= head.len() {
                assert(tail.contains(tail[i - head.len()]));
            }
        }
    }
}

/// Every quote of an escaped label value is escaped: reading it from the left,
/// no quote stands where a character starts.
pub open spec fn closes_early(t: Seq<char>) -> bool
    decreases t.len(),
{
    if t.len() == 0 {
        false
    } else if t[0] == '\\' && t.len() > 1 {
        closes_early(t.skip(2))
    } else {
        t[0] == '"' || closes_early(t.skip(1))
    }
}

/// An escaped label value cannot end its quotation.
pub proof fn law_escape_keeps_quotation(s: Seq<char>)
    ensures
        !closes_early(escaped(s, true)),
    decreases s.len(),
{
    if s.len() > 0 {
        law_escape_keeps_quotation(s.skip(1));
        let head = escaped_char(s[0], true);
        let tail = escaped(s.skip(1), true);
        let t = head + tail;
        assert(t.skip(head.len() as int) =~= tail);
    }
}

/// The names are strictly ascending.
pub open spec fn names_ascend(names: Seq<Seq<char>>) -> bool {
    forall|i: int, j: int| 0 <= i < j < names.len() ==> before(#[trigger] names[i], #[trigger] names[j])
}

proof fn lemma_name_place(names: Seq<Seq<char>>, n: Seq<char>) -> (i: int)
    requires
        names_ascend(names),
    ensures
        0 <= i <= names.len(),
        forall|j: int| 0 <= j < i ==> before(#[trigger] names[j], n),
        i < names.len() ==> names[i] == n || (names[i] != n && !before(names[i], n)),
    decreases names.len(),
{
    if names.len() == 0 {
        0
    } else if before(names.last(), n) {
        assert forall|j: int| 0 <= j < names.len() implies before(#[trigger] names[j], n) by {
            if j < names.len() - 1 {
                assert(before(names[j], names[names.len() - 1]));
                lemma_transitive(names[j], names.last(), n);
            }
        }
        names.len() as int
    } else {
        let q = names.drop_last();
        assert(names_ascend(q)) by {
            assert forall|a: int, b: int| 0 <= a < b < q.len() implies before(
                #[trigger] q[a],
                #[trigger] q[b],
            ) by {
                assert(before(names[a], names[b]));
            }
        }
        let i = lemma_name_place(q, n);
        assert forall|j: int| 0 <= j < i implies before(#[trigger] names[j], n) by {
            assert(q[j] == names[j]);
        }
        if i < q.len() {
            assert(q[i] == names[i]);
        } else {
            lemma_asymmetric(n, n);
        }
        i
    }
}

proof fn lemma_with_name_ascends(names: Seq<Seq<char>>, n: Seq<char>)
    requires
        names_ascend(names),
    ensures
        names_ascend(with_name(names, n)),
        forall|x: Seq<char>| with_name(names, n).contains(x) <==> names.contains(x) || x == n,
{
    let i = lemma_name_place(names, n);
    lemma_with_name_at(names, n, i);
    lemma_asymmetric(n, n);
    let q = with_name(names, n);
    if i < names.len() && names[i] == n {
        assert(names.contains(n));
    } else {
        assert forall|a: int, b: int| 0 <= a < b < q.len() implies before(
            #[trigger] q[a],
            #[trigger] q[b],
        ) by {
            if b < i {
                assert(q[a] == names[a] && q[b] == names[b]);
            } else if b == i {
                assert(q[a] == names[a]);
            } else {
                assert(q[b] == names[b - 1]);
                lemma_total(names[i], n);
                if i < b - 1 {
                    assert(before(names[i], names[b - 1]));
                    lemma_transitive(n, names[i], names[b - 1]);
                }
                if a < i {
                    assert(q[a] == names[a]);
                } else if a > i {
                    assert(q[a] == names[a - 1]);
                }
            }
        }
        assert forall|x: Seq<char>| q.contains(x) <==> names.contains(x) || x == n by {
            if q.contains(x) {
                let a = choose|a: int| 0 <= a < q.len() && q[a] == x;
                if a < i {
                    assert(names[a] == x);
                } else if a > i {
                    assert(names[a - 1] == x);
                }
            }
            if names.contains(x) {
                let a = choose|a: int| 0 <= a < names.len() && names[a] == x;
                if a < i {
                    assert(q[a] == x);
                } else {
                    assert(q[a + 1] == x);
                }
            }
            assert(q[i] == n);
        }
    }
}

/// Each metric name heads one group only, in ascending order, and a name has a
/// group exactly when a sample has that name.
pub proof fn law_one_group_per_name(samples: Seq<MetricSample>)
    ensures
        names_ascend(names_of(samples)),
        forall|n: Seq<char>| names_of(samples).contains(n) <==> occurs(n, samples),
    decreases samples.len(),
{
    if samples.len() > 0 {
        let earlier = samples.drop_last();
        law_one_group_per_name(earlier);
        lemma_with_name_ascends(names_of(earlier), samples.last().name@);
        assert forall|n: Seq<char>| occurs(n, samples) <==> occurs(n, earlier) || n
            == samples.last().name@ by {
            if occurs(n, samples) {
                let j = choose|j: int| 0 <= j < samples.len() && (#[trigger] samples[j]).name@ == n;
                if j < samples.len() - 1 {
                    assert(earlier[j].name@ == n);
                }
            }
            if occurs(n, earlier) {
                let j = choose|j: int| 0 <= j < earlier.len() && (#[trigger] earlier[j]).name@ == n;
                assert(samples[j].name@ == n);
            }
            assert(samples[samples.len() - 1].name@ == samples.last().name@);
        }
    }
}

/// The body always ends with the EOF line.
pub proof fn law_body_ends_with_eof(samples: Seq<MetricSample>, numbers: Seq<String>)
    ensures
        "# EOF\n"@.is_suffix_of(exposition(samples, numbers)),
{
    let names = names_of(samples);
    let head = groups_text(samples, numbers, names, names.len());
    assert(exposition(samples, numbers).subrange(
        head.len() as int,
        exposition(samples, numbers).len() as int,
    ) =~= "# EOF\n"@);
}

proof fn lemma_placed(samples: Seq<MetricSample>, order: Seq<int>, j: int)
    requires
        lines_sorted(samples, order),
        order.no_duplicates(),
        !order.contains(j),
    ensures
        lines_sorted(samples, placed(samples, order, j)),
        placed(samples, order, j).no_duplicates(),
        forall|x: int|
            #![trigger placed(samples, order, j).contains(x)]
            #![trigger order.contains(x)]
            placed(samples, order, j).contains(x) <==> order.contains(x) || x == j,
    decreases order.len(),
{
    let p = placed(samples, order, j);
    let key = samples[j].labels.pairs();
    if order.len() > 0 && listing_before(key, samples[order.last()].labels.pairs()) {
        let rest = order.drop_last();
        assert forall|a: int, b: int| 0 <= a < b < rest.len() implies !listing_before(
            samples[#[trigger] rest[b]].labels.pairs(),
            samples[#[trigger] rest[a]].labels.pairs(),
        ) by {
            assert(rest[a] == order[a] && rest[b] == order[b]);
        }
        lemma_placed(samples, rest, j);
        let q = placed(samples, rest, j);
        let last = order.last();
        assert(!rest.contains(last)) by {
            if rest.contains(last) {
                let a = choose|a: int| 0 <= a < rest.len() && rest[a] == last;
                assert(order[a] == order[order.len() - 1]);
            }
        }
        assert(order[order.len() - 1] == last);
        assert(!q.contains(last));
        assert forall|a: int, b: int| 0 <= a < b < p.len() implies !listing_before(
            samples[#[trigger] p[b]].labels.pairs(),
            samples[#[trigger] p[a]].labels.pairs(),
        ) by {
            assert(p[a] == q[a]);
            if b < q.len() {
                assert(p[b] == q[b]);
            } else {
                assert(q.contains(q[a]));
                if q[a] == j {
                    lemma_listing_asymmetric(key, samples[last].labels.pairs());
                } else {
                    let c = choose|c: int| 0 <= c < rest.len() && rest[c] == q[a];
                    assert(order[c] == q[a]);
                }
            }
        }
        assert forall|a: int, b: int| 0 <= a < p.len() && 0 <= b < p.len() && a != b implies p[a]
            != p[b] by {
            if a < q.len() && b < q.len() {
                assert(q[a] != q[b]);
            } else if a < q.len() {
                assert(q.contains(q[a]));
            } else {
                assert(q.contains(q[b]));
            }
        }
        assert forall|x: int| p.contains(x) <==> order.contains(x) || x == j by {
            if p.contains(x) {
                let a = choose|a: int| 0 <= a < p.len() && p[a] == x;
                if a < q.len() {
                    assert(q.contains(q[a]));
                    if x != j {
                        assert(rest.contains(x));
                        let c = choose|c: int| 0 <= c < rest.len() && rest[c] == x;
                        assert(order[c] == x);
                    }
                }
            }
            if order.contains(x) && x != last {
                let c = choose|c: int| 0 <= c < order.len() && order[c] == x;
                assert(rest[c] == x);
                assert(rest.contains(x));
            }
            if order.contains(x) || x == j {
                if x == last {
                    assert(p[p.len() - 1] == x);
                } else {
                    assert(q.contains(x));
                    let a = choose|a: int| 0 <= a < q.len() && q[a] == x;
                    assert(p[a] == x);
                }
            }
        }
    } else {
        assert(p =~= order.push(j));
        assert forall|a: int, b: int| 0 <= a < b < p.len() implies !listing_before(
            samples[#[trigger] p[b]].labels.pairs(),
            samples[#[trigger] p[a]].labels.pairs(),
        ) by {
            assert(p[a] == order[a]);
            if b < order.len() {
                assert(p[b] == order[b]);
            } else {
                let last = samples[order[order.len() - 1]].labels.pairs();
                if listing_before(key, samples[order[a]].labels.pairs()) && a < order.len() - 1 {
                    assert(!listing_before(last, samples[order[a]].labels.pairs()));
                    lemma_listing_total(last, samples[order[a]].labels.pairs());
                    if last != samples[order[a]].labels.pairs() {
                        lemma_listing_transitive(key, samples[order[a]].labels.pairs(), last);
                    }
                }
            }
        }
        assert forall|a: int, b: int| 0 <= a < p.len() && 0 <= b < p.len() && a != b implies p[a]
            != p[b] by {
            if a < order.len() && b < order.len() {
                assert(order[a] != order[b]);
            } else if a < order.len() {
                assert(order.contains(order[a]));
            } else {
                assert(order.contains(order[b]));
            }
        }
        assert forall|x: int| p.contains(x) <==> order.contains(x) || x == j by {
            if p.contains(x) {
                let a = choose|a: int| 0 <= a < p.len() && p[a] == x;
                if a < order.len() {
                    assert(order[a] == x);
                }
            }
            if order.contains(x) {
                let a = choose|a: int| 0 <= a < order.len() && order[a] == x;
                assert(p[a] == x);
            }
            assert(p[p.len() - 1] == j);
        }
    }
}

/// The labels of no sample sort before those of an earlier one.
pub open spec fn lines_sorted(samples: Seq<MetricSample>, order: Seq<int>) -> bool {
    forall|i: int, j: int|
        0 <= i < j < order.len() ==> !listing_before(
            samples[#[trigger] order[j]].labels.pairs(),
            samples[#[trigger] order[i]].labels.pairs(),
        )
}

/// Within a group the lines are sorted by their label sets, and the group of a
/// name holds each sample with that name once, and no other.
pub proof fn law_group_lines(samples: Seq<MetricSample>, n: Seq<char>, k: nat)
    requires
        k <= samples.len(),
    ensures
        lines_sorted(samples, order_of(samples, n, k)),
        order_of(samples, n, k).no_duplicates(),
        forall|i: int|
            order_of(samples, n, k).contains(i) <==> 0 <= i < k && samples[i].name@ == n,
    decreases k,
{
    if k > 0 {
        law_group_lines(samples, n, (k - 1) as nat);
        if samples[k - 1].name@ == n {
            lemma_placed(samples, order_of(samples, n, (k - 1) as nat), k - 1);
        }
    }
}

/// No sample is lost and none is written twice: the name of a sample has a
/// group, its group holds it, and no other group does.
pub proof fn law_every_sample_written(samples: Seq<MetricSample>, i: int)
    requires
        0 <= i < samples.len(),
    ensures
        names_of(samples).contains(samples[i].name@),
        order_of(samples, samples[i].name@, samples.len()).contains(i),
        forall|n: Seq<char>| #[trigger]
            order_of(samples, n, samples.len()).contains(i) ==> n == samples[i].name@,
{
    law_one_group_per_name(samples);
    assert(occurs(samples[i].name@, samples));
    law_group_lines(samples, samples[i].name@, samples.len());
    assert forall|n: Seq<char>| #[trigger]
        order_of(samples, n, samples.len()).contains(i) implies n == samples[i].name@ by {
        law_group_lines(samples, n, samples.len());
    }
}

/// Whole readings are written without loss: up to the largest exact magnitude
/// the text reads back as the number, whatever text stands by for it.
pub proof fn law_whole_readings_exact(n: i128, finite: Seq<char>)
    requires
        -MAX_EXACT <= n <= MAX_EXACT,
    ensures
        parsed_i64(gauge_text(GaugeValue::Whole(n), finite)) == Some(n as int),
{
    law_signed_round_trip(n as i64);
}

// ---------------------------------------------------------------------------
// Reading an exposition back
// ---------------------------------------------------------------------------

/// The length of the quotation that `t` starts with: up to the first quotation
/// mark that no backslash escapes.
pub open spec fn quoted_len(t: Seq<char>) -> nat
    decreases t.len(),
{
    if t.len() == 0 || t[0] == '"' {
        0
    } else if t[0] == '\\' && t.len() > 1 {
        2 + quoted_len(t.skip(2))
    } else {
        1 + quoted_len(t.skip(1))
    }
}

/// Reads a label set whose opening brace is behind: pairs of a key and a quoted
/// value, separated by single commas, up to the closing brace.  Gives the pairs
/// and what follows the brace.
pub open spec fn read_labels(t: Seq<char>) -> Option<(Pairs, Seq<char>)>
    decreases t.len(),
{
    let eq = first_index(t, '=') as int;
    let quoted = t.skip(eq + 2);
    let n = quoted_len(quoted) as int;
    let pair = (t.take(eq), unescaped(quoted.take(n)));
    let rest = quoted.skip(n + 1);
    if eq + 2 > t.len() || t[eq + 1] != '"' || n + 1 >= quoted.len() {
        None
    } else if rest[0] == '}' {
        Some((seq![pair], rest.skip(1)))
    } else if rest[0] == ',' {
        match read_labels(rest.skip(1)) {
            Some((more, behind)) => Some((seq![pair] + more, behind)),
            None => None,
        }
    } else {
        None
    }
}

/// The length of the metric name that a line starts with.
pub open spec fn name_len(t: Seq<char>) -> nat
    decreases t.len(),
{
    if t.len() == 0 || t[0] == '{' || t[0] == ' ' {
        0
    } else {
        1 + name_len(t.skip(1))
    }
}

/// Reads a sample line: the name, the labels, and the text of the value between
/// the space and the line feed.
pub open spec fn read_line(t: Seq<char>) -> Option<(Seq<char>, Pairs, Seq<char>)> {
    let n = name_len(t) as int;
    let name = t.take(n);
    let behind = t.skip(n);
    if behind.len() == 0 {
        None
    } else if behind[0] == '{' {
        match read_labels(behind.skip(1)) {
            Some((labels, rest)) => if rest.len() >= 2 && rest[0] == ' ' && rest.last() == '\n' {
                Some((name, labels, rest.subrange(1, rest.len() - 1)))
            } else {
                None
            },
            None => None,
        }
    } else if behind.len() >= 2 && behind.last() == '\n' {
        Some((name, seq![], behind.subrange(1, behind.len() - 1)))
    } else {
        None
    }
}

/// A key and its quoted value.
pub open spec fn pair_text(pair: (Seq<char>, Seq<char>)) -> Seq<char> {
    pair.0 + seq!['=', '"'] + escaped(pair.1, true) + seq!['"']
}

/// One label more appends a comma and that label, however many there are
/// already.
pub proof fn law_label_appended(p: Pairs, n: nat)
    requires
        n < p.len(),
    ensures
        n == 0 ==> label_text(p, 1) == pair_text(p[0]),
        n >= 1 ==> label_text(p, n + 1) == label_text(p, n) + seq![','] + pair_text(p[n as int]),
{
    reveal_strlit("=\"");
    reveal_strlit("\"");
    assert("=\""@ =~= seq!['=', '"']);
    assert("\""@ =~= seq!['"']);
    if n == 0 {
        assert(label_text(p, 0) =~= seq![]);
        assert(label_text(p, 1) =~= pair_text(p[0]));
    } else {
        assert(label_text(p, n + 1) =~= label_text(p, n) + seq![','] + pair_text(p[n as int]));
    }
}

/// Labels seen from the front: the first one, and behind a comma the others.
proof fn lemma_labels_from_front(p: Pairs, n: nat)
    requires
        1 <= n <= p.len(),
    ensures
        n == 1 ==> label_text(p, n) == pair_text(p[0]),
        n > 1 ==> label_text(p, n) == pair_text(p[0]) + seq![','] + label_text(
            p.skip(1),
            (n - 1) as nat,
        ),
    decreases n,
{
    law_label_appended(p, (n - 1) as nat);
    if n > 1 {
        lemma_labels_from_front(p, (n - 1) as nat);
        law_label_appended(p.skip(1), (n - 2) as nat);
        assert(p.skip(1)[n - 2] == p[n - 1]);
        assert(label_text(p, n) =~= pair_text(p[0]) + seq![','] + label_text(
            p.skip(1),
            (n - 1) as nat,
        ));
    }
}

/// A quoted value ends where it was closed.
proof fn lemma_quoted_len(s: Seq<char>, rest: Seq<char>)
    ensures
        quoted_len(escaped(s, true) + seq!['"'] + rest) == escaped(s, true).len(),
    decreases s.len(),
{
    let t = escaped(s, true) + seq!['"'] + rest;
    if s.len() == 0 {
        assert(t[0] == '"');
    } else {
        let c = escaped_char(s[0], true);
        let more = escaped(s.skip(1), true) + seq!['"'] + rest;
        lemma_quoted_len(s.skip(1), rest);
        assert(t =~= c + more);
        if c.len() == 2 {
            assert(t[0] == '\\');
            assert(t.skip(2) =~= more);
        } else {
            assert(t[0] == s[0]);
            assert(t.skip(1) =~= more);
        }
    }
}

/// The first occurrence of a character behind text without it.
proof fn lemma_first_index_behind(s: Seq<char>, c: char, rest: Seq<char>)
    requires
        !s.contains(c),
    ensures
        first_index(s + seq![c] + rest, c) == s.len(),
    decreases s.len(),
{
    let t = s + seq![c] + rest;
    if s.len() > 0 {
        assert(s[0] != c);
        assert(t[0] == s[0]);
        assert(t.skip(1) =~= s.skip(1) + seq![c] + rest);
        assert forall|i: int| 0 <= i < s.skip(1).len() implies s.skip(1)[i] != c by {
            assert(s.skip(1)[i] == s[i + 1]);
        }
        lemma_first_index_behind(s.skip(1), c, rest);
    }
}

/// One label is read back, with what follows it.
proof fn lemma_pair_read(pair: (Seq<char>, Seq<char>), rest: Seq<char>)
    requires
        !pair.0.contains('='),
        rest.len() > 0,
    ensures
        ({
            let t = pair_text(pair) + rest;
            let eq = first_index(t, '=') as int;
            let quoted = t.skip(eq + 2);
            let n = quoted_len(quoted) as int;
            &&& eq + 2 <= t.len()
            &&& t[eq + 1] == '"'
            &&& n + 1 < quoted.len()
            &&& t.take(eq) == pair.0
            &&& unescaped(quoted.take(n)) == pair.1
            &&& quoted.skip(n + 1) == rest
        }),
{
    let t = pair_text(pair) + rest;
    let value = escaped(pair.1, true);
    let behind = seq!['"'] + value + seq!['"'] + rest;
    assert(t =~= pair.0 + seq!['='] + behind);
    lemma_first_index_behind(pair.0, '=', behind);
    let eq = first_index(t, '=') as int;
    let quoted = t.skip(eq + 2);
    assert(quoted =~= value + seq!['"'] + rest);
    lemma_quoted_len(pair.1, rest);
    assert(t[eq + 1] == '"');
    assert(t.take(eq) =~= pair.0);
    assert(quoted.take(value.len() as int) =~= value);
    law_escape_round_trip(pair.1, true);
    assert(quoted.skip(value.len() as int + 1) =~= rest);
}

/// Label sets of every length read back: whatever the values hold, reading the
/// braces gives the same keys and values, and what follows is left untouched.
pub proof fn law_labels_read_back(p: Pairs, rest: Seq<char>)
    requires
        p.len() > 0,
        forall|i: int| 0 <= i < p.len() ==> !(#[trigger] p[i]).0.contains('='),
    ensures
        braces_text(p)[0] == '{',
        read_labels((braces_text(p) + rest).skip(1)) == Some((p, rest)),
{
    lemma_labels_read(p, rest);
    assert((braces_text(p) + rest).skip(1) =~= label_text(p, p.len()) + seq!['}'] + rest);
}

/// Reading takes one label off the front.
proof fn lemma_read_step(pair: (Seq<char>, Seq<char>), rest: Seq<char>)
    requires
        !pair.0.contains('='),
        rest.len() > 0,
    ensures
        rest[0] == '}' ==> read_labels(pair_text(pair) + rest) == Some((seq![pair], rest.skip(1))),
        rest[0] == ',' ==> read_labels(pair_text(pair) + rest) == match read_labels(rest.skip(1)) {
            Some((more, behind)) => Some((seq![pair] + more, behind)),
            None => None,
        },
{
    lemma_pair_read(pair, rest);
    let t = pair_text(pair) + rest;
    let eq = first_index(t, '=') as int;
    let quoted = t.skip(eq + 2);
    let n = quoted_len(quoted) as int;
    assert((t.take(eq), unescaped(quoted.take(n))) == pair);
    assert(quoted.skip(n + 1) == rest);
}

proof fn lemma_labels_read(p: Pairs, rest: Seq<char>)
    requires
        p.len() > 0,
        forall|i: int| 0 <= i < p.len() ==> !(#[trigger] p[i]).0.contains('='),
    ensures
        read_labels(label_text(p, p.len()) + seq!['}'] + rest) == Some((p, rest)),
    decreases p.len(),
{
    lemma_labels_from_front(p, p.len());
    let t = label_text(p, p.len()) + seq!['}'] + rest;
    assert(!p[0].0.contains('='));
    if p.len() == 1 {
        let behind = seq!['}'] + rest;
        assert(t =~= pair_text(p[0]) + behind);
        assert(behind[0] == '}');
        lemma_read_step(p[0], behind);
        assert(behind.skip(1) =~= rest);
        assert(seq![p[0]] =~= p);
    } else {
        let q = p.skip(1);
        let others = label_text(q, q.len()) + seq!['}'] + rest;
        let behind = seq![','] + others;
        assert(t =~= pair_text(p[0]) + behind);
        assert(behind[0] == ',');
        lemma_read_step(p[0], behind);
        assert(behind.skip(1) =~= others);
        assert forall|i: int| 0 <= i < q.len() implies !(#[trigger] q[i]).0.contains('=') by {
            assert(q[i] == p[i + 1]);
        }
        lemma_labels_read(q, rest);
        assert(seq![p[0]] + q =~= p);
    }
}

proof fn lemma_name_len(name: Seq<char>, rest: Seq<char>)
    requires
        !name.contains('{'),
        !name.contains(' '),
        rest.len() > 0,
        rest[0] == '{' || rest[0] == ' ',
    ensures
        name_len(name + rest) == name.len(),
    decreases name.len(),
{
    let t = name + rest;
    if name.len() == 0 {
        assert(t =~= rest);
    } else {
        assert(name[0] != '{' && name[0] != ' ');
        assert(t[0] == name[0]);
        let more = name.skip(1);
        assert(t.skip(1) =~= more + rest);
        assert forall|i: int| 0 <= i < more.len() implies more[i] != '{' && more[i] != ' ' by {
            assert(more[i] == name[i + 1]);
        }
        lemma_name_len(more, rest);
    }
}

/// Lines read back: the name, every label and the text of the value.
pub proof fn law_line_reads_back(
    name: Seq<char>,
    labels: Pairs,
    value: MetricValue,
    finite: Seq<char>,
)
    requires
        !name.contains('{'),
        !name.contains(' '),
        forall|i: int| 0 <= i < labels.len() ==> !(#[trigger] labels[i]).0.contains('='),
    ensures
        read_line(line_text(name, labels, value, finite)) == Some(
            (name, labels, value_text(value, finite)),
        ),
{
    let number = value_text(value, finite);
    let rest = seq![' '] + number + seq!['\n'];
    let behind = braces_text(labels) + rest;
    let t = line_text(name, labels, value, finite);
    assert(t =~= name + behind);
    assert(rest.subrange(1, rest.len() - 1) =~= number);
    assert(rest.last() == '\n');
    if labels.len() == 0 {
        assert(behind =~= rest);
        assert(labels =~= seq![]);
    } else {
        law_labels_read_back(labels, rest);
        assert(behind[0] == '{');
    }
    lemma_name_len(name, behind);
    assert(t.take(name.len() as int) =~= name);
    assert(t.skip(name.len() as int) =~= behind);
}

/// A count reads back as the same number.
pub proof fn law_counts_exact(n: u64, finite: Seq<char>)
    ensures
        parsed_unsigned(value_text(MetricValue::U64(n), finite), 10, u64::MAX as nat) == Some(
            n as nat,
        ),
{
    law_unsigned_round_trip(n);
}

/// The decimals of a number of thousandths read back as that number, and the
/// last of them is no zero.
pub proof fn law_decimals_exact(m: nat)
    requires
        0 < m < 1000,
    ensures
        ({
            let t = fraction_text(m);
            let digits = t.skip(1);
            &&& t[0] == '.'
            &&& 1 <= digits.len() <= 3
            &&& all_digits(digits, 10)
            &&& digits.last() != '0'
            &&& digits.len() == 1 ==> digits_value(digits, 10) * 100 == m
            &&& digits.len() == 2 ==> digits_value(digits, 10) * 10 == m
            &&& digits.len() == 3 ==> digits_value(digits, 10) == m
        }),
{
    let t = fraction_text(m);
    let digits = t.skip(1);
    reveal_with_fuel(digits_value, 4);
    assert(digits_value(seq![], 10) == 0);
    if m % 100 == 0 {
        assert(digits.drop_last() =~= seq![]);
    } else if m % 10 == 0 {
        assert(digits.drop_last().drop_last() =~= seq![]);
    } else {
        assert(digits.drop_last().drop_last().drop_last() =~= seq![]);
    }
}

/// A number of thousandths is written as its whole part, with a sign where it is
/// negative, and its decimals.
pub proof fn law_thousandths_parts(n: i64, finite: Seq<char>)
    requires
        -MAX_THOUSANDTHS < n < MAX_THOUSANDTHS,
    ensures
        n >= 0 ==> gauge_text(GaugeValue::Thousandths(n), finite) == dec((n / 1000) as nat)
            + fraction_text((n % 1000) as nat),
        n < 0 ==> gauge_text(GaugeValue::Thousandths(n), finite) == seq!['-'] + gauge_text(
            GaugeValue::Thousandths((-n) as i64),
            finite,
        ),
{
    if n < 0 {
        let m = (-n) as nat;
        assert(seq!['-'] + dec(m / 1000) + fraction_text(m % 1000) =~= seq!['-'] + (dec(m / 1000)
            + fraction_text(m % 1000)));
    }
}

/// Every sample has its line in the body.
pub proof fn law_sample_in_body(samples: Seq<MetricSample>, numbers: Seq<String>, i: int)
    requires
        0 <= i < samples.len(),
    ensures
        holds(
            exposition(samples, numbers),
            line_text(
                samples[i].name@,
                samples[i].labels.pairs(),
                samples[i].value,
                numbers[i]@,
            ),
        ),
{
    let s = samples[i];
    let n = s.name@;
    let line = line_text(n, s.labels.pairs(), s.value, numbers[i]@);
    let order = order_of(samples, n, samples.len());
    law_every_sample_written(samples, i);
    let k = order.index_of(i);
    lemma_line_held(samples, numbers, order, order.len(), k);
    let lines = lines_at(samples, numbers, order, order.len());
    let group = group_text(samples, numbers, n);
    let head = group.take(group.len() - lines.len());
    assert(group =~= head + lines + seq![]);
    lemma_holds(group, head, lines, seq![]);
    lemma_holds_through(group, lines, line);
    lemma_group_in_body(samples, numbers, n);
    lemma_holds_through(exposition(samples, numbers), group, line);
}

proof fn lemma_line_held(
    samples: Seq<MetricSample>,
    numbers: Seq<String>,
    order: Seq<int>,
    n: nat,
    k: int,
)
    requires
        0 <= k < n <= order.len(),
    ensures
        holds(
            lines_at(samples, numbers, order, n),
            line_text(
                samples[order[k]].name@,
                samples[order[k]].labels.pairs(),
                samples[order[k]].value,
                numbers[order[k]]@,
            ),
        ),
    decreases n,
{
    let all = lines_at(samples, numbers, order, n);
    let earlier = lines_at(samples, numbers, order, (n - 1) as nat);
    let s = samples[order[n - 1]];
    let last = line_text(s.name@, s.labels.pairs(), s.value, numbers[order[n - 1]]@);
    if k == n - 1 {
        assert(all =~= earlier + last + seq![]);
        lemma_holds(all, earlier, last, seq![]);
    } else {
        lemma_line_held(samples, numbers, order, (n - 1) as nat, k);
        assert(all =~= seq![] + earlier + last);
        lemma_holds(all, seq![], earlier, last);
        let t = samples[order[k]];
        lemma_holds_through(
            all,
            earlier,
            line_text(t.name@, t.labels.pairs(), t.value, numbers[order[k]]@),
        );
    }
}

/// The group of a name that occurs stands in the body.
proof fn lemma_group_in_body(samples: Seq<MetricSample>, numbers: Seq<String>, n: Seq<char>)
    requires
        names_of(samples).contains(n),
    ensures
        holds(exposition(samples, numbers), group_text(samples, numbers, n)),
{
    let names = names_of(samples);
    let k = names.index_of(n);
    lemma_group_held(samples, numbers, names, names.len(), k);
    let groups = groups_text(samples, numbers, names, names.len());
    let all = exposition(samples, numbers);
    assert(all =~= seq![] + groups + "# EOF\n"@);
    lemma_holds(all, seq![], groups, "# EOF\n"@);
    lemma_holds_through(all, groups, group_text(samples, numbers, n));
}

proof fn lemma_group_held(
    samples: Seq<MetricSample>,
    numbers: Seq<String>,
    names: Seq<Seq<char>>,
    n: nat,
    k: int,
)
    requires
        0 <= k < n <= names.len(),
    ensures
        holds(
            groups_text(samples, numbers, names, n),
            group_text(samples, numbers, names[k]),
        ),
    decreases n,
{
    let all = groups_text(samples, numbers, names, n);
    let earlier = groups_text(samples, numbers, names, (n - 1) as nat);
    let last = group_text(samples, numbers, names[n - 1]);
    if k == n - 1 {
        assert(all =~= earlier + last + seq![]);
        lemma_holds(all, earlier, last, seq![]);
    } else {
        lemma_group_held(samples, numbers, names, (n - 1) as nat, k);
        assert(all =~= seq![] + earlier + last);
        lemma_holds(all, seq![], earlier, last);
        lemma_holds_through(all, earlier, group_text(samples, numbers, names[k]));
    }
}

/// Every name is introduced: the help text and the kind of the first sample of a
/// name stand in the body, directly in front of the lines of that name, which
/// begin with the sample that comes first in the order.
pub proof fn law_name_introduced(samples: Seq<MetricSample>, numbers: Seq<String>, i: int)
    requires
        0 <= i < samples.len(),
        forall|j: int| 0 <= j < i ==> (#[trigger] samples[j]).name@ != samples[i].name@,
    ensures
        ({
            let s = samples[i];
            let n = s.name@;
            let first = order_of(samples, n, samples.len())[0];
            &&& holds(
                exposition(samples, numbers),
                seq!['#', ' ', 'H', 'E', 'L', 'P', ' '] + n + seq![' '] + escaped(s.help@, false)
                    + seq!['\n'] + seq!['#', ' ', 'T', 'Y', 'P', 'E', ' '] + n + seq![' '] + (
                match s.kind {
                    MetricKind::Counter => "counter"@,
                    MetricKind::Gauge => "gauge"@,
                    MetricKind::Histogram => "histogram"@,
                }) + seq!['\n'] + line_text(
                    n,
                    samples[first].labels.pairs(),
                    samples[first].value,
                    numbers[first]@,
                ),
            )
        }),
{
    let s = samples[i];
    let n = s.name@;
    let order = order_of(samples, n, samples.len());
    law_every_sample_written(samples, i);
    law_group_lines(samples, n, samples.len());
    lemma_first_named_at(samples, n, i);
    lemma_group_in_body(samples, numbers, n);
    reveal_strlit("# HELP ");
    reveal_strlit("# TYPE ");
    let help = seq!['#', ' ', 'H', 'E', 'L', 'P', ' '];
    let kind = seq!['#', ' ', 'T', 'Y', 'P', 'E', ' '];
    assert("# HELP "@ =~= help);
    assert("# TYPE "@ =~= kind);
    let head = help + n + seq![' '] + escaped(s.help@, false) + seq!['\n'] + kind + n + seq![' ']
        + kind_text(s.kind) + seq!['\n'];
    let group = group_text(samples, numbers, n);
    let lines = lines_at(samples, numbers, order, order.len());
    assert(group =~= head + lines);
    assert(order.contains(order[0]));
    let first = samples[order[0]];
    assert(first.name@ == n);
    let line = line_text(n, first.labels.pairs(), first.value, numbers[order[0]]@);
    lemma_first_line(samples, numbers, order, order.len());
    let tail = lines.skip(line.len() as int);
    assert(lines =~= line + tail);
    assert(group =~= seq![] + (head + line) + tail);
    lemma_holds(group, seq![], head + line, tail);
    lemma_holds_through(exposition(samples, numbers), group, head + line);
}

proof fn lemma_first_named_at(samples: Seq<MetricSample>, n: Seq<char>, i: int)
    requires
        0 <= i < samples.len(),
        samples[i].name@ == n,
        forall|j: int| 0 <= j < i ==> (#[trigger] samples[j]).name@ != n,
    ensures
        first_named(samples, n) == i,
    decreases samples.len(),
{
    if i > 0 {
        let rest = samples.skip(1);
        assert(samples[0].name@ != n);
        assert(rest[i - 1] == samples[i]);
        assert forall|j: int| 0 <= j < i - 1 implies (#[trigger] rest[j]).name@ != n by {
            assert(rest[j] == samples[j + 1]);
        }
        lemma_first_named_at(rest, n, i - 1);
    }
}

proof fn lemma_first_line(
    samples: Seq<MetricSample>,
    numbers: Seq<String>,
    order: Seq<int>,
    k: nat,
)
    requires
        0 < k <= order.len(),
    ensures
        ({
            let s = samples[order[0]];
            let line = line_text(s.name@, s.labels.pairs(), s.value, numbers[order[0]]@);
            &&& lines_at(samples, numbers, order, k).len() >= line.len()
            &&& lines_at(samples, numbers, order, k).take(line.len() as int) == line
        }),
    decreases k,
{
    let s = samples[order[0]];
    let line = line_text(s.name@, s.labels.pairs(), s.value, numbers[order[0]]@);
    let all = lines_at(samples, numbers, order, k);
    if k == 1 {
        assert(lines_at(samples, numbers, order, 0) =~= seq![]);
        assert(all =~= line);
    } else {
        lemma_first_line(samples, numbers, order, (k - 1) as nat);
    }
    assert(all.take(line.len() as int) =~= line);
}

/// Lines stand in the order of the samples: each directly behind the one before.
pub proof fn law_lines_in_order(
    samples: Seq<MetricSample>,
    numbers: Seq<String>,
    n: Seq<char>,
    k: int,
)
    requires
        0 <= k,
        k + 1 < order_of(samples, n, samples.len()).len(),
    ensures
        ({
            let order = order_of(samples, n, samples.len());
            let s = samples[order[k]];
            let t = samples[order[k + 1]];
            holds(
                exposition(samples, numbers),
                line_text(s.name@, s.labels.pairs(), s.value, numbers[order[k]]@) + line_text(
                    t.name@,
                    t.labels.pairs(),
                    t.value,
                    numbers[order[k + 1]]@,
                ),
            )
        }),
{
    let order = order_of(samples, n, samples.len());
    let s = samples[order[k]];
    let t = samples[order[k + 1]];
    let pair = line_text(s.name@, s.labels.pairs(), s.value, numbers[order[k]]@) + line_text(
        t.name@,
        t.labels.pairs(),
        t.value,
        numbers[order[k + 1]]@,
    );
    law_group_lines(samples, n, samples.len());
    assert(order.contains(order[k]));
    let i = order[k];
    assert(samples[i].name@ == n);
    law_every_sample_written(samples, i);
    let lines = lines_at(samples, numbers, order, order.len());
    lemma_lines_adjacent(samples, numbers, order, order.len(), k);
    let group = group_text(samples, numbers, n);
    let head = group.take(group.len() - lines.len());
    assert(group =~= head + lines + seq![]);
    lemma_holds(group, head, lines, seq![]);
    lemma_holds_through(group, lines, pair);
    lemma_group_in_body(samples, numbers, n);
    lemma_holds_through(exposition(samples, numbers), group, pair);
}

proof fn lemma_lines_adjacent(
    samples: Seq<MetricSample>,
    numbers: Seq<String>,
    order: Seq<int>,
    n: nat,
    k: int,
)
    requires
        0 <= k,
        k + 1 < n <= order.len(),
    ensures
        ({
            let s = samples[order[k]];
            let t = samples[order[k + 1]];
            holds(
                lines_at(samples, numbers, order, n),
                line_text(s.name@, s.labels.pairs(), s.value, numbers[order[k]]@) + line_text(
                    t.name@,
                    t.labels.pairs(),
                    t.value,
                    numbers[order[k + 1]]@,
                ),
            )
        }),
    decreases n,
{
    let all = lines_at(samples, numbers, order, n);
    let earlier = lines_at(samples, numbers, order, (n - 1) as nat);
    let s = samples[order[k]];
    let t = samples[order[k + 1]];
    let a = line_text(s.name@, s.labels.pairs(), s.value, numbers[order[k]]@);
    let b = line_text(t.name@, t.labels.pairs(), t.value, numbers[order[k + 1]]@);
    if k + 1 == n - 1 {
        let before = lines_at(samples, numbers, order, k as nat);
        assert(earlier =~= before + a);
        assert(all =~= before + (a + b) + seq![]);
        lemma_holds(all, before, a + b, seq![]);
    } else {
        lemma_lines_adjacent(samples, numbers, order, (n - 1) as nat, k);
        let last = all.skip(earlier.len() as int);
        assert(all =~= seq![] + earlier + last);
        lemma_holds(all, seq![], earlier, last);
        lemma_holds_through(all, earlier, a + b);
    }
}

/// The number of line feeds in a text.
pub open spec fn feeds(t: Seq<char>) -> nat
    decreases t.len(),
{
    if t.len() == 0 {
        0
    } else {
        feeds(t.drop_last()) + if t.last() == '\n' {
            1nat
        } else {
            0nat
        }
    }
}

proof fn lemma_feeds_join(a: Seq<char>, b: Seq<char>)
    ensures
        feeds(a + b) == feeds(a) + feeds(b),
    decreases b.len(),
{
    if b.len() == 0 {
        assert(a + b =~= a);
    } else {
        lemma_feeds_join(a, b.drop_last());
        assert((a + b).drop_last() =~= a + b.drop_last());
    }
}

proof fn lemma_no_feeds(t: Seq<char>)
    requires
        !t.contains('\n'),
    ensures
        feeds(t) == 0,
    decreases t.len(),
{
    if t.len() > 0 {
        assert(t[t.len() - 1] != '\n');
        assert forall|i: int| 0 <= i < t.drop_last().len() implies t.drop_last()[i] != '\n' by {
            assert(t.drop_last()[i] == t[i]);
        }
        lemma_no_feeds(t.drop_last());
    }
}

/// Text that holds a line feed only as its last character.
proof fn lemma_one_feed(t: Seq<char>)
    requires
        !t.contains('\n'),
    ensures
        feeds(t + seq!['\n']) == 1,
{
    let feed = seq!['\n'];
    lemma_feeds_join(t, feed);
    lemma_no_feeds(t);
    assert(feed.drop_last() =~= seq![]);
    assert(feeds(seq![]) == 0);
}

proof fn lemma_joined_plain(a: Seq<char>, b: Seq<char>)
    requires
        !a.contains('\n'),
        !b.contains('\n'),
    ensures
        !(a + b).contains('\n'),
{
    let t = a + b;
    assert forall|i: int| 0 <= i < t.len() implies t[i] != '\n' by {
        if i < a.len() {
            assert(t[i] == a[i]);
        } else {
            assert(t[i] == b[i - a.len()]);
        }
    }
}

proof fn lemma_labels_plain(p: Pairs, n: nat)
    requires
        n <= p.len(),
        forall|i: int| 0 <= i < p.len() ==> !(#[trigger] p[i]).0.contains('\n'),
    ensures
        !label_text(p, n).contains('\n'),
    decreases n,
{
    if n > 0 {
        lemma_labels_plain(p, (n - 1) as nat);
        law_label_appended(p, (n - 1) as nat);
        let pair = p[n - 1];
        assert(!pair.0.contains('\n'));
        law_escape_keeps_line(pair.1, true);
        lemma_joined_plain(pair.0, seq!['=', '"']);
        lemma_joined_plain(pair.0 + seq!['=', '"'], escaped(pair.1, true));
        lemma_joined_plain(pair.0 + seq!['=', '"'] + escaped(pair.1, true), seq!['"']);
        if n > 1 {
            let before = label_text(p, (n - 1) as nat);
            lemma_joined_plain(before, seq![',']);
            lemma_joined_plain(before + seq![','], pair_text(pair));
        }
    }
}

proof fn lemma_digits_line(n: nat)
    ensures
        !dec(n).contains('\n'),
{
    lemma_dec_digits(n);
    assert(digit_value('\n', 10) is None);
}

proof fn lemma_value_plain(v: MetricValue, finite: Seq<char>)
    requires
        !finite.contains('\n'),
    ensures
        !value_text(v, finite).contains('\n'),
{
    reveal_strlit("+Inf");
    reveal_strlit("-Inf");
    reveal_strlit("NaN");
    match v {
        MetricValue::U64(n) => {
            lemma_digits_line(n as nat);
        },
        MetricValue::F64(GaugeValue::Whole(n)) => {
            lemma_digits_line(n as nat);
            lemma_digits_line((-n) as nat);
            lemma_joined_plain(seq!['-'], dec((-n) as nat));
        },
        MetricValue::F64(GaugeValue::Thousandths(n)) => {
            let m = if n < 0 {
                (-n) as nat
            } else {
                n as nat
            };
            lemma_digits_line(m / 1000);
            assert(!fraction_text(m % 1000).contains('\n'));
            lemma_joined_plain(dec(m / 1000), fraction_text(m % 1000));
            lemma_joined_plain(seq!['-'], dec(m / 1000));
            lemma_joined_plain(seq!['-'] + dec(m / 1000), fraction_text(m % 1000));
        },
        _ => {},
    }
}

/// A sample takes one line, whatever its labels hold.
pub proof fn law_sample_is_one_line(
    name: Seq<char>,
    labels: Pairs,
    value: MetricValue,
    finite: Seq<char>,
)
    requires
        !name.contains('\n'),
        !finite.contains('\n'),
        forall|i: int| 0 <= i < labels.len() ==> !(#[trigger] labels[i]).0.contains('\n'),
    ensures
        feeds(line_text(name, labels, value, finite)) == 1,
        line_text(name, labels, value, finite).last() == '\n',
{
    lemma_labels_plain(labels, labels.len());
    lemma_value_plain(value, finite);
    let braces = braces_text(labels);
    if labels.len() > 0 {
        lemma_joined_plain(seq!['{'], label_text(labels, labels.len()));
        lemma_joined_plain(seq!['{'] + label_text(labels, labels.len()), seq!['}']);
    }
    lemma_joined_plain(name, braces);
    lemma_joined_plain(name + braces, seq![' ']);
    lemma_joined_plain(name + braces + seq![' '], value_text(value, finite));
    lemma_one_feed(name + braces + seq![' '] + value_text(value, finite));
}

/// The parts of a sample that are written as they are hold no line feed.
pub open spec fn plain(s: MetricSample, finite: String) -> bool {
    &&& !s.name@.contains('\n')
    &&& !finite@.contains('\n')
    &&& forall|i: int|
        0 <= i < s.labels.pairs().len() ==> !(#[trigger] s.labels.pairs()[i]).0.contains('\n')
}

/// The body has one line for each sample, two for each name, and the last one:
/// nothing is written twice.
pub proof fn law_lines_counted(samples: Seq<MetricSample>, numbers: Seq<String>)
    requires
        samples.len() == numbers.len(),
        forall|i: int| 0 <= i < samples.len() ==> plain(#[trigger] samples[i], numbers[i]),
    ensures
        feeds(exposition(samples, numbers)) == samples.len() + 2 * names_of(samples).len() + 1,
{
    let names = names_of(samples);
    law_one_group_per_name(samples);
    lemma_groups_counted(samples, numbers, names, names.len());
    lemma_all_numbered(samples, names);
    reveal_strlit("# EOF\n");
    let end = "# EOF\n"@;
    assert(end =~= seq!['#', ' ', 'E', 'O', 'F'] + seq!['\n']);
    lemma_one_feed(seq!['#', ' ', 'E', 'O', 'F']);
    lemma_feeds_join(groups_text(samples, numbers, names, names.len()), end);
}

/// The number of samples with one of the first `k` names.
pub open spec fn named_count(samples: Seq<MetricSample>, names: Seq<Seq<char>>, k: nat) -> nat
    decreases k,
{
    if k == 0 {
        0
    } else {
        named_count(samples, names, (k - 1) as nat) + order_of(
            samples,
            names[k - 1],
            samples.len(),
        ).len()
    }
}

proof fn lemma_groups_counted(
    samples: Seq<MetricSample>,
    numbers: Seq<String>,
    names: Seq<Seq<char>>,
    k: nat,
)
    requires
        samples.len() == numbers.len(),
        k <= names.len(),
        forall|i: int| 0 <= i < samples.len() ==> plain(#[trigger] samples[i], numbers[i]),
        forall|i: int| 0 <= i < names.len() ==> occurs(#[trigger] names[i], samples),
    ensures
        feeds(groups_text(samples, numbers, names, k)) == named_count(samples, names, k) + 2 * k,
    decreases k,
{
    if k > 0 {
        lemma_groups_counted(samples, numbers, names, (k - 1) as nat);
        let n = names[k - 1];
        let earlier = groups_text(samples, numbers, names, (k - 1) as nat);
        let group = group_text(samples, numbers, n);
        lemma_feeds_join(earlier, group);
        assert(occurs(n, samples));
        lemma_group_counted(samples, numbers, n);
    }
}

proof fn lemma_group_counted(samples: Seq<MetricSample>, numbers: Seq<String>, n: Seq<char>)
    requires
        samples.len() == numbers.len(),
        forall|i: int| 0 <= i < samples.len() ==> plain(#[trigger] samples[i], numbers[i]),
        occurs(n, samples),
    ensures
        feeds(group_text(samples, numbers, n)) == order_of(samples, n, samples.len()).len() + 2,
{
    let j = choose|j: int| 0 <= j < samples.len() && (#[trigger] samples[j]).name@ == n;
    assert(plain(samples[j], numbers[j]));
    let first = samples[first_named(samples, n) as int];
    let order = order_of(samples, n, samples.len());
    let lines = lines_at(samples, numbers, order, order.len());
    law_group_lines(samples, n, samples.len());
    lemma_lines_counted(samples, numbers, order, order.len());
    reveal_strlit("# HELP ");
    reveal_strlit("# TYPE ");
    reveal_strlit("counter");
    reveal_strlit("gauge");
    reveal_strlit("histogram");
    law_escape_keeps_line(first.help@, false);
    let help = "# HELP "@ + n + seq![' '] + escaped(first.help@, false);
    lemma_joined_plain("# HELP "@, n);
    lemma_joined_plain("# HELP "@ + n, seq![' ']);
    lemma_joined_plain("# HELP "@ + n + seq![' '], escaped(first.help@, false));
    lemma_one_feed(help);
    let kind = "# TYPE "@ + n + seq![' '] + kind_text(first.kind);
    lemma_joined_plain("# TYPE "@, n);
    lemma_joined_plain("# TYPE "@ + n, seq![' ']);
    lemma_joined_plain("# TYPE "@ + n + seq![' '], kind_text(first.kind));
    lemma_one_feed(kind);
    let group = group_text(samples, numbers, n);
    assert(group =~= (help + seq!['\n']) + (kind + seq!['\n']) + lines);
    lemma_feeds_join(help + seq!['\n'], kind + seq!['\n']);
    lemma_feeds_join((help + seq!['\n']) + (kind + seq!['\n']), lines);
}

proof fn lemma_lines_counted(
    samples: Seq<MetricSample>,
    numbers: Seq<String>,
    order: Seq<int>,
    k: nat,
)
    requires
        samples.len() == numbers.len(),
        k <= order.len(),
        forall|i: int| 0 <= i < samples.len() ==> plain(#[trigger] samples[i], numbers[i]),
        forall|i: int| order.contains(i) ==> 0 <= i < samples.len(),
    ensures
        feeds(lines_at(samples, numbers, order, k)) == k,
    decreases k,
{
    if k > 0 {
        lemma_lines_counted(samples, numbers, order, (k - 1) as nat);
        let i = order[k - 1];
        assert(order.contains(i));
        let s = samples[i];
        assert(plain(s, numbers[i]));
        law_sample_is_one_line(s.name@, s.labels.pairs(), s.value, numbers[i]@);
        lemma_feeds_join(
            lines_at(samples, numbers, order, (k - 1) as nat),
            line_text(s.name@, s.labels.pairs(), s.value, numbers[i]@),
        );
    }
}

/// The samples of all names together are all samples.
proof fn lemma_all_numbered(samples: Seq<MetricSample>, names: Seq<Seq<char>>)
    requires
        names_ascend(names),
        forall|n: Seq<char>| names.contains(n) <==> occurs(n, samples),
    ensures
        named_count(samples, names, names.len()) == samples.len(),
{
    lemma_numbered(samples, names, names.len(), samples.len());
    assert forall|j: int| 0 <= j < samples.len() implies names.contains(
        (#[trigger] samples[j]).name@,
    ) by {
        assert(occurs(samples[j].name@, samples));
    }
    lemma_all_in(samples, names, samples.len());
}

/// How many of the first `m` samples have one of the first `k` names.
pub open spec fn count_in(
    samples: Seq<MetricSample>,
    names: Seq<Seq<char>>,
    k: nat,
    m: nat,
) -> nat
    decreases m,
{
    if m == 0 {
        0
    } else {
        count_in(samples, names, k, (m - 1) as nat) + if names.take(k as int).contains(
            samples[m - 1].name@,
        ) {
            1nat
        } else {
            0nat
        }
    }
}

proof fn lemma_all_in(samples: Seq<MetricSample>, names: Seq<Seq<char>>, m: nat)
    requires
        m <= samples.len(),
        forall|j: int| 0 <= j < samples.len() ==> names.contains((#[trigger] samples[j]).name@),
    ensures
        count_in(samples, names, names.len(), m) == m,
    decreases m,
{
    if m > 0 {
        lemma_all_in(samples, names, (m - 1) as nat);
        assert(names.take(names.len() as int) =~= names);
        assert(names.contains(samples[m - 1].name@));
    }
}

proof fn lemma_numbered(samples: Seq<MetricSample>, names: Seq<Seq<char>>, k: nat, m: nat)
    requires
        names_ascend(names),
        k <= names.len(),
        m == samples.len(),
    ensures
        named_count(samples, names, k) == count_in(samples, names, k, m),
    decreases k,
{
    if k == 0 {
        lemma_none_in(samples, names, m);
    } else {
        lemma_numbered(samples, names, (k - 1) as nat, m);
        lemma_one_name_more(samples, names, k, m);
    }
}

proof fn lemma_none_in(samples: Seq<MetricSample>, names: Seq<Seq<char>>, m: nat)
    ensures
        count_in(samples, names, 0, m) == 0,
    decreases m,
{
    if m > 0 {
        lemma_none_in(samples, names, (m - 1) as nat);
        assert(names.take(0) =~= seq![]);
    }
}

proof fn lemma_one_name_more(samples: Seq<MetricSample>, names: Seq<Seq<char>>, k: nat, m: nat)
    requires
        names_ascend(names),
        0 < k <= names.len(),
        m <= samples.len(),
    ensures
        count_in(samples, names, k, m) == count_in(samples, names, (k - 1) as nat, m) + order_of(
            samples,
            names[k - 1],
            m,
        ).len(),
    decreases m,
{
    if m > 0 {
        lemma_one_name_more(samples, names, k, (m - 1) as nat);
        let n = samples[m - 1].name@;
        let some = names.take(k as int);
        let fewer = names.take(k - 1);
        assert(some =~= fewer.push(names[k - 1]));
        if n == names[k - 1] {
            assert(some[k - 1] == n);
            assert(!fewer.contains(n)) by {
                if fewer.contains(n) {
                    let i = fewer.index_of(n);
                    assert(before(names[i], names[k - 1]));
                    lemma_asymmetric(n, n);
                }
            }
            lemma_placed_len(samples, order_of(samples, n, (m - 1) as nat), m - 1);
        } else {
            if fewer.contains(n) {
                let i = fewer.index_of(n);
                assert(some[i] == n);
            }
            if some.contains(n) {
                let i = some.index_of(n);
                assert(fewer[i] == n);
            }
        }
    }
}

proof fn lemma_placed_len(samples: Seq<MetricSample>, order: Seq<int>, j: int)
    ensures
        placed(samples, order, j).len() == order.len() + 1,
    decreases order.len(),
{
    if order.len() > 0 && listing_before(
        samples[j].labels.pairs(),
        samples[order.last()].labels.pairs(),
    ) {
        lemma_placed_len(samples, order.drop_last(), j);
    }
}

/// The class of a floating-point number is told by its exponent, its fraction
/// and its sign.
pub proof fn law_number_classes(bits: u64, sign: u64, exponent: u64, fraction: u64)
    requires
        sign <= 1,
        exponent <= 0x7ff,
        fraction < 0x10_0000_0000_0000,
        bits == sign * 0x8000_0000_0000_0000 + exponent * 0x10_0000_0000_0000 + fraction,
    ensures
        exponent < 0x7ff ==> class_of(GaugeValue::Bits(bits)) == NumberClass::Finite,
        exponent == 0x7ff && fraction != 0 ==> class_of(GaugeValue::Bits(bits))
            == NumberClass::NotANumber,
        exponent == 0x7ff && fraction == 0 && sign == 0 ==> class_of(GaugeValue::Bits(bits))
            == NumberClass::PositiveInfinity,
        exponent == 0x7ff && fraction == 0 && sign == 1 ==> class_of(GaugeValue::Bits(bits))
            == NumberClass::NegativeInfinity,
{
    assert(bits % 0x10_0000_0000_0000 == fraction);
    assert(bits / 0x10_0000_0000_0000 == sign * 0x800 + exponent);
    assert(bits / 0x8000_0000_0000_0000 == sign);
}

/// Numbers that are not finite have names of their own, and a finite one that is
/// not exact is written as it was given.
pub proof fn law_special_numbers_named(bits: u64, finite: Seq<char>)
    ensures
        ({
            let t = gauge_text(GaugeValue::Bits(bits), finite);
            match class_of(GaugeValue::Bits(bits)) {
                NumberClass::Finite => t == finite,
                NumberClass::PositiveInfinity => t == seq!['+', 'I', 'n', 'f'],
                NumberClass::NegativeInfinity => t == seq!['-', 'I', 'n', 'f'],
                NumberClass::NotANumber => t == seq!['N', 'a', 'N'],
            }
        }),
        gauge_text(GaugeValue::Infinite, finite) == seq!['+', 'I', 'n', 'f'],
{
    reveal_strlit("+Inf");
    reveal_strlit("-Inf");
    reveal_strlit("NaN");
    assert("+Inf"@ =~= seq!['+', 'I', 'n', 'f']);
    assert("-Inf"@ =~= seq!['-', 'I', 'n', 'f']);
    assert("NaN"@ =~= seq!['N', 'a', 'N']);
}

/// Each character is escaped for itself: backslashes and line feeds always,
/// quotation marks only within quotes, and every other character never.
pub proof fn law_escape_exact(s: Seq<char>, c: char, quotes: bool)
    ensures
        escaped(seq![], quotes) == Seq::<char>::empty(),
        c == '\\' ==> escaped(s.push(c), quotes) == escaped(s, quotes) + seq!['\\', '\\'],
        c == '\n' ==> escaped(s.push(c), quotes) == escaped(s, quotes) + seq!['\\', 'n'],
        c == '"' && quotes ==> escaped(s.push(c), quotes) == escaped(s, quotes) + seq!['\\', '"'],
        c == '"' && !quotes ==> escaped(s.push(c), quotes) == escaped(s, quotes) + seq!['"'],
        c != '\\' && c != '\n' && c != '"' ==> escaped(s.push(c), quotes) == escaped(s, quotes)
            + seq![c],
{
    lemma_escape_push(s, c, quotes);
}

proof fn lemma_escape_push(s: Seq<char>, c: char, quotes: bool)
    ensures
        escaped(s.push(c), quotes) == escaped(s, quotes) + escaped_char(c, quotes),
    decreases s.len(),
{
    let t = s.push(c);
    if s.len() == 0 {
        assert(t.skip(1) =~= seq![]);
        assert(escaped(t.skip(1), quotes) =~= seq![]);
        assert(escaped(t, quotes) =~= escaped(s, quotes) + escaped_char(c, quotes));
    } else {
        lemma_escape_push(s.skip(1), c, quotes);
        assert(t.skip(1) =~= s.skip(1).push(c));
        assert(t[0] == s[0]);
        assert(escaped(t, quotes) =~= escaped(s, quotes) + escaped_char(c, quotes));
    }
}

/// Whole numbers are written digit by digit up to two to the power of 53, in
/// front of and behind zero; beyond that, and for numbers of thousandths with
/// more than fifteen digits, the text of the number is taken as it is given.
pub proof fn law_exact_range(n: i128, m: i64, finite: Seq<char>)
    ensures
        m <= -1000000000000000 || m >= 1000000000000000 ==> gauge_text(
            GaugeValue::Thousandths(m),
            finite,
        ) == finite,
        -9007199254740992 <= n <= 9007199254740992 ==> gauge_text(GaugeValue::Whole(n), finite)
            == signed_dec(n as int),
        n < -9007199254740992 || n > 9007199254740992 ==> gauge_text(GaugeValue::Whole(n), finite)
            == finite,
{
}

/// Samples of one name with the same labels keep their order.
pub proof fn law_order_stable(samples: Seq<MetricSample>, n: Seq<char>, a: int, b: int)
    requires
        0 <= a < b < order_of(samples, n, samples.len()).len(),
        samples[order_of(samples, n, samples.len())[a]].labels.pairs() == samples[order_of(
            samples,
            n,
            samples.len(),
        )[b]].labels.pairs(),
    ensures
        order_of(samples, n, samples.len())[a] < order_of(samples, n, samples.len())[b],
{
    let order = order_of(samples, n, samples.len());
    lemma_order_stable(samples, n, samples.len());
    lemma_listing_asymmetric(samples[order[a]].labels.pairs(), samples[order[b]].labels.pairs());
    assert(kept(samples, order[a], order[b]));
}

/// The sample `i` comes before the sample `j` in the order of the labels, or was
/// there first.
pub open spec fn kept(samples: Seq<MetricSample>, i: int, j: int) -> bool {
    listing_before(samples[i].labels.pairs(), samples[j].labels.pairs()) || i < j
}

proof fn lemma_order_stable(samples: Seq<MetricSample>, n: Seq<char>, k: nat)
    requires
        k <= samples.len(),
    ensures
        forall|a: int, b: int|
            0 <= a < b < order_of(samples, n, k).len() ==> #[trigger] kept(
                samples,
                order_of(samples, n, k)[a],
                order_of(samples, n, k)[b],
            ),
    decreases k,
{
    if k > 0 {
        lemma_order_stable(samples, n, (k - 1) as nat);
        let earlier = order_of(samples, n, (k - 1) as nat);
        if samples[k - 1].name@ == n {
            law_group_lines(samples, n, (k - 1) as nat);
            assert forall|a: int| 0 <= a < earlier.len() implies #[trigger] earlier[a] < k - 1 by {
                assert(earlier.contains(earlier[a]));
            }
            lemma_placed_stable(samples, earlier, k - 1);
        }
    }
}

proof fn lemma_placed_stable(samples: Seq<MetricSample>, order: Seq<int>, j: int)
    requires
        forall|a: int| 0 <= a < order.len() ==> #[trigger] order[a] < j,
        forall|a: int, b: int|
            0 <= a < b < order.len() ==> #[trigger] kept(samples, order[a], order[b]),
    ensures
        ({
            let q = placed(samples, order, j);
            &&& q.len() == order.len() + 1
            &&& forall|a: int|
                0 <= a < q.len() ==> #[trigger] q[a] == j || order.contains(q[a])
            &&& forall|a: int, b: int|
                0 <= a < b < q.len() ==> #[trigger] kept(samples, q[a], q[b])
        }),
    decreases order.len(),
{
    let q = placed(samples, order, j);
    if order.len() > 0 && listing_before(
        samples[j].labels.pairs(),
        samples[order.last()].labels.pairs(),
    ) {
        let front = order.drop_last();
        let last = order.last();
        assert forall|a: int| 0 <= a < front.len() implies #[trigger] front[a] < j by {
            assert(front[a] == order[a]);
        }
        assert forall|a: int, b: int| 0 <= a < b < front.len() implies #[trigger] kept(
            samples,
            front[a],
            front[b],
        ) by {
            assert(kept(samples, order[a], order[b]));
        }
        lemma_placed_stable(samples, front, j);
        let p = placed(samples, front, j);
        assert(q =~= p.push(last));
        assert forall|a: int| 0 <= a < q.len() implies #[trigger] q[a] == j || order.contains(
            q[a],
        ) by {
            if a < p.len() {
                assert(q[a] == p[a]);
                if p[a] != j {
                    let c = front.index_of(p[a]);
                    assert(order[c] == p[a]);
                }
            } else {
                assert(order[order.len() - 1] == q[a]);
            }
        }
        assert forall|a: int, b: int| 0 <= a < b < q.len() implies #[trigger] kept(
            samples,
            q[a],
            q[b],
        ) by {
            if b < p.len() {
                assert(kept(samples, p[a], p[b]));
            } else if p[a] != j {
                let c = front.index_of(p[a]);
                assert(order[c] == p[a]);
                assert(kept(samples, order[c], order[order.len() - 1]));
            }
        }
    } else {
        assert(q =~= order.push(j));
        assert forall|a: int, b: int| 0 <= a < b < q.len() implies #[trigger] kept(
            samples,
            q[a],
            q[b],
        ) by {
            if b < order.len() {
                assert(kept(samples, order[a], order[b]));
            } else {
                assert(q[a] == order[a]);
            }
        }
        assert forall|a: int| 0 <= a < q.len() implies #[trigger] q[a] == j || order.contains(
            q[a],
        ) by {
            if a < order.len() {
                assert(q[a] == order[a]);
            }
        }
    }
}

} // verus!
