//! `/proc/softirqs`: per-CPU counts of network softirqs.
//!
//! The header names the CPU of each column.  Only the rows `NET_RX` and
//! `NET_TX` are read.
use crate::labels::{no_labels, Labels};
use crate::metric::{
    counter_view, counts, holds, is_counter, lemma_holds, lemma_holds_through, push_counter, views,
    MetricSample, SampleView,
};
use crate::text::{
    chars_eq, chars_of, copy_chars, dec, find_char, first_index, has_prefix,
    law_unsigned_round_trip, lemma_first_index, lines, lines_spec, parse_unsigned, parsed_unsigned,
    starts_with, string_of, trim, trim_spec, word_views, words, words_spec,
};
use vstd::prelude::*;
use vstd::slice::slice_subrange;

verus! {

/// The file.
pub const PATH: &'static str = "/proc/softirqs";

/// The CPU identifiers of a header: what follows `CPU` in the words that start with it.
pub open spec fn cpu_ids(ws: Seq<Seq<char>>) -> Seq<Seq<char>>
    decreases ws.len(),
{
    if ws.len() == 0 {
        seq![]
    } else {
        let earlier = cpu_ids(ws.drop_last());
        if has_prefix(ws.last(), "CPU"@) {
            earlier.push(ws.last().skip("CPU"@.len() as int))
        } else {
            earlier
        }
    }
}

/// The count in a column; zero when it is no number.
pub open spec fn count_in(word: Seq<char>) -> u64 {
    match parsed_unsigned(word, 10, u64::MAX as nat) {
        Some(n) => n as u64,
        None => 0,
    }
}

/// The label of a row, for the rows that are read.
pub open spec fn row_kind(name: Seq<char>) -> Option<Seq<char>> {
    if name == "NET_RX"@ {
        Some("net_rx"@)
    } else if name == "NET_TX"@ {
        Some("net_tx"@)
    } else {
        None
    }
}

/// The sample of one CPU in a row.
pub open spec fn cpu_sample(cpu: Seq<char>, kind: Seq<char>, value: u64) -> SampleView {
    counter_view(
        "nft_softirq_total"@,
        "Per-CPU softirq invocation count (NET_RX and NET_TX)."@,
        no_labels().insert("cpu"@, cpu).insert("kind"@, kind),
        value,
    )
}

/// The smaller of two numbers.
pub open spec fn at_most(a: nat, b: nat) -> nat {
    if a <= b {
        a
    } else {
        b
    }
}

/// The samples of a row: one for each CPU that has a column.
pub open spec fn row_samples(cpus: Seq<Seq<char>>, line: Seq<char>) -> Seq<SampleView> {
    let c = first_index(line, ':') as int;
    let counts = words_spec(line.skip(c + 1));
    match row_kind(trim_spec(line.take(c))) {
        Some(kind) if c < line.len() => Seq::new(
            at_most(cpus.len(), counts.len()),
            |i: int| cpu_sample(cpus[i], kind, count_in(counts[i])),
        ),
        _ => seq![],
    }
}

/// The samples of the first `k` rows.
pub open spec fn rows_samples(cpus: Seq<Seq<char>>, rows: Seq<Seq<char>>, k: nat) -> Seq<SampleView>
    decreases k,
{
    if k == 0 {
        seq![]
    } else {
        rows_samples(cpus, rows, (k - 1) as nat) + row_samples(cpus, rows[k - 1])
    }
}

/// The samples of the whole file; none without a header that names CPUs.
pub open spec fn softirq_samples(all: Seq<Seq<char>>) -> Seq<SampleView> {
    let cpus = cpu_ids(words_spec(all[0]));
    if all.len() == 0 || cpus.len() == 0 {
        seq![]
    } else {
        rows_samples(cpus, all.skip(1), (all.len() - 1) as nat)
    }
}

fn read_cpu_ids(line: &[char]) -> (r: Vec<Vec<char>>)
    ensures
        word_views(r@) == cpu_ids(words_spec(line@)),
{
    let ws = words(line);
    let ghost specs = words_spec(line@);
    let mut r: Vec<Vec<char>> = Vec::new();
    let mut i: usize = 0;
    proof {
        reveal_strlit("CPU");
        assert(word_views(r@) =~= cpu_ids(specs.take(0)));
    }
    while i < ws.len()
        invariant
            i <= ws.len(),
            "CPU"@.len() == 3,
            specs == word_views(ws@),
            word_views(r@) == cpu_ids(specs.take(i as int)),
        decreases ws.len() - i,
    {
        let ghost done = r@;
        let w = ws[i].as_slice();
        proof {
            assert(specs[i as int] == w@);
            assert(specs.take(i as int + 1).drop_last() =~= specs.take(i as int));
        }
        if starts_with(w, "CPU") {
            let id = copy_chars(w, 3, w.len());
            proof {
                assert(id@ =~= w@.skip(3));
            }
            r.push(id);
            proof {
                assert(word_views(r@) =~= word_views(done).push(id@));
            }
        }
        i += 1;
    }
    proof {
        assert(specs.take(i as int) =~= specs);
    }
    r
}

fn push_row(out: &mut Vec<MetricSample>, cpus: &Vec<Vec<char>>, line: &[char])
    ensures
        views(final(out)@) == views(old(out)@) + row_samples(word_views(cpus@), line@),
{
    let ghost start = views(out@);
    let ghost all = row_samples(word_views(cpus@), line@);
    let c: usize = find_char(line, 0, ':');
    proof {
        assert(line@.skip(0) =~= line@);
        assert(start + Seq::<SampleView>::empty() =~= start);
    }
    if c >= line.len() {
        return;
    }
    let name = slice_subrange(line, 0, c);
    let trimmed = trim(name);
    proof {
        assert(name@ =~= line@.take(c as int));
    }
    let kind: &'static str = if chars_eq(trimmed, "NET_RX") {
        "net_rx"
    } else if chars_eq(trimmed, "NET_TX") {
        "net_tx"
    } else {
        return;
    };
    let tail = slice_subrange(line, c + 1, line.len());
    let counts = words(tail);
    proof {
        assert(tail@ =~= line@.skip(c as int + 1));
        assert(start + all.take(0) =~= start);
    }
    let mut i: usize = 0;
    while i < cpus.len() && i < counts.len()
        invariant
            i <= cpus.len(),
            i <= counts.len(),
            word_views(counts@) == words_spec(line@.skip(c as int + 1)),
            all.len() == at_most(cpus@.len(), counts@.len()),
            forall|j: int| #![trigger all[j]]
                0 <= j < all.len() ==> all[j] == cpu_sample(
                    word_views(cpus@)[j],
                    kind@,
                    count_in(word_views(counts@)[j]),
                ),
            views(out@) == start + all.take(i as int),
        decreases cpus.len() - i,
    {
        let value: u64 = match parse_unsigned(counts[i].as_slice(), 10) {
            Some(n) => n,
            None => 0,
        };
        let cpu = string_of(cpus[i].as_slice());
        let labels = Labels::new().with("cpu", cpu.as_str()).with("kind", kind);
        push_counter(
            out,
            "nft_softirq_total",
            "Per-CPU softirq invocation count (NET_RX and NET_TX).",
            &labels,
            value,
        );
        proof {
            assert(word_views(cpus@)[i as int] == cpus@[i as int]@);
            assert(word_views(counts@)[i as int] == counts@[i as int]@);
            assert(all[i as int] == cpu_sample(cpu@, kind@, value));
            assert(start + all.take(i as int + 1) =~= (start + all.take(i as int)).push(all[i as int]));
        }
        i += 1;
    }
    proof {
        assert(all.take(i as int) =~= all);
    }
}

/// Parses the whole file.  A row with fewer columns than the header yields
/// samples for its columns only.
pub fn parse(text: &str) -> (r: Vec<MetricSample>)
    ensures
        views(r@) == softirq_samples(lines_spec(text@)),
{
    let chars = chars_of(text);
    let all = lines(chars.as_slice());
    let ghost specs = lines_spec(text@);
    let mut out: Vec<MetricSample> = Vec::new();
    proof {
        assert(specs.len() == all@.len());
        assert(views(out@) =~= Seq::<SampleView>::empty());
    }
    if all.len() == 0 {
        return out;
    }
    let cpus = read_cpu_ids(all[0].as_slice());
    let ghost ids = word_views(cpus@);
    proof {
        assert(specs[0] == all@[0]@);
        assert(ids.len() == cpus@.len());
    }
    if cpus.len() == 0 {
        return out;
    }
    let mut i: usize = 1;
    while i < all.len()
        invariant
            1 <= i <= all.len(),
            word_views(all@) == specs,
            ids == word_views(cpus@),
            views(out@) == rows_samples(ids, specs.skip(1), (i - 1) as nat),
        decreases all.len() - i,
    {
        push_row(&mut out, &cpus, all[i].as_slice());
        proof {
            assert(specs.skip(1)[i - 1] == all@[i as int]@);
        }
        i += 1;
    }
    out
}

/// Collector for network softirqs.
pub struct SoftirqCollector;

impl SoftirqCollector {
    /// Name of the collector.
    pub fn name(&self) -> (r: &'static str)
        ensures
            r@ == "softirq"@,
    {
        "softirq"
    }
}

/// Only the receive and transmit softirqs are reported, as counters.
pub proof fn law_network_rows_only(cpus: Seq<Seq<char>>, rows: Seq<Seq<char>>, k: nat, i: int)
    requires
        0 <= i < rows_samples(cpus, rows, k).len(),
    ensures
        rows_samples(cpus, rows, k)[i].name == "nft_softirq_total"@,
        rows_samples(cpus, rows, k)[i].labels["kind"@] == "net_rx"@ || rows_samples(
            cpus,
            rows,
            k,
        )[i].labels["kind"@] == "net_tx"@,
        cpus.contains(rows_samples(cpus, rows, k)[i].labels["cpu"@]),
    decreases k,
{
    reveal_strlit("cpu");
    reveal_strlit("kind");
    assert("cpu"@.len() != "kind"@.len());
    if k > 0 {
        let earlier = rows_samples(cpus, rows, (k - 1) as nat);
        if i < earlier.len() {
            law_network_rows_only(cpus, rows, (k - 1) as nat, i);
        } else {
            let j = i - earlier.len();
            let row = row_samples(cpus, rows[k - 1]);
            assert(rows_samples(cpus, rows, k)[i] == row[j]);
            assert(row[j].labels["cpu"@] == cpus[j]);
        }
    }
}

/// A row reports a CPU at most once.
pub proof fn law_row_bounded_by_cpus(cpus: Seq<Seq<char>>, line: Seq<char>)
    ensures
        row_samples(cpus, line).len() <= cpus.len(),
{
}

/// The counts of a network row go out in the order of the processors in the
/// header, under the kind of the row.
pub proof fn law_counts_named(
    cpus: Seq<Seq<char>>,
    head: Seq<char>,
    tail: Seq<char>,
    i: int,
)
    requires
        !head.contains(':'),
        0 <= i < cpus.len(),
        i < words_spec(tail).len(),
    ensures
        ({
            let s = row_samples(cpus, head + seq![':'] + tail);
            &&& trim_spec(head) == "NET_RX"@ ==> counts(
                s,
                "nft_softirq_total"@,
                no_labels().insert("cpu"@, cpus[i]).insert("kind"@, "net_rx"@),
                count_in(words_spec(tail)[i]),
            )
            &&& trim_spec(head) == "NET_TX"@ ==> counts(
                s,
                "nft_softirq_total"@,
                no_labels().insert("cpu"@, cpus[i]).insert("kind"@, "net_tx"@),
                count_in(words_spec(tail)[i]),
            )
            &&& trim_spec(head) != "NET_RX"@ && trim_spec(head) != "NET_TX"@ ==> s.len() == 0
        }),
{
    let line = head + seq![':'] + tail;
    lemma_first_index(line, ':');
    let c = first_index(line, ':') as int;
    assert(line[head.len() as int] == ':');
    if c < head.len() {
        assert(line[c] == head[c]);
    }
    assert(c == head.len());
    assert(line.take(c) =~= head);
    assert(line.skip(c + 1) =~= tail);
    let s = row_samples(cpus, line);
    reveal_strlit("NET_RX");
    reveal_strlit("NET_TX");
    assert("NET_RX"@[4] == 'R' && "NET_TX"@[4] == 'T');
    let n = count_in(words_spec(tail)[i]);
    if trim_spec(head) == "NET_RX"@ {
        assert(is_counter(
            s[i],
            "nft_softirq_total"@,
            no_labels().insert("cpu"@, cpus[i]).insert("kind"@, "net_rx"@),
            n,
        ));
    }
    if trim_spec(head) == "NET_TX"@ {
        assert(is_counter(
            s[i],
            "nft_softirq_total"@,
            no_labels().insert("cpu"@, cpus[i]).insert("kind"@, "net_tx"@),
            n,
        ));
    }
}

/// The header names the processors: `CPU` and the number.
pub proof fn law_processors_named(ws: Seq<Seq<char>>, id: Seq<char>)
    ensures
        cpu_ids(ws.push(seq!['C', 'P', 'U'] + id)) == cpu_ids(ws).push(id),
        cpu_ids(seq![]).len() == 0,
{
    reveal_strlit("CPU");
    assert("CPU"@ =~= seq!['C', 'P', 'U']);
    let w = seq!['C', 'P', 'U'] + id;
    assert(ws.push(w).drop_last() =~= ws);
    assert(w.take(3) =~= seq!['C', 'P', 'U']);
    assert(w.skip(3) =~= id);
}

/// No row below the header is lost.
pub proof fn law_rows_exported(all: Seq<Seq<char>>, i: int)
    requires
        1 <= i < all.len(),
        cpu_ids(words_spec(all[0])).len() > 0,
    ensures
        holds(softirq_samples(all), row_samples(cpu_ids(words_spec(all[0])), all[i])),
{
    lemma_row_held(
        cpu_ids(words_spec(all[0])),
        all.skip(1),
        (all.len() - 1) as nat,
        i - 1,
    );
}

proof fn lemma_row_held(cpus: Seq<Seq<char>>, rows: Seq<Seq<char>>, k: nat, i: int)
    requires
        0 <= i < k <= rows.len(),
    ensures
        holds(rows_samples(cpus, rows, k), row_samples(cpus, rows[i])),
    decreases k,
{
    let all = rows_samples(cpus, rows, k);
    let earlier = rows_samples(cpus, rows, (k - 1) as nat);
    let last = row_samples(cpus, rows[k - 1]);
    if i == k - 1 {
        assert(all =~= earlier + last + seq![]);
        lemma_holds(all, earlier, last, seq![]);
    } else {
        lemma_row_held(cpus, rows, (k - 1) as nat, i);
        assert(all =~= seq![] + earlier + last);
        lemma_holds(all, seq![], earlier, last);
        lemma_holds_through(all, earlier, row_samples(cpus, rows[i]));
    }
}

/// Words of the header that name no processor are passed over, and without a
/// processor there is nothing to report.
pub proof fn law_header_decides(ws: Seq<Seq<char>>, w: Seq<char>, all: Seq<Seq<char>>)
    ensures
        !has_prefix(w, "CPU"@) ==> cpu_ids(ws.push(w)) == cpu_ids(ws),
        all.len() > 0 && cpu_ids(words_spec(all[0])).len() == 0 ==> softirq_samples(all).len()
            == 0,
{
    assert(ws.push(w).drop_last() =~= ws);
}

/// A count is its decimal number, and zero where it is none.
pub proof fn law_count_decimal(n: u64, word: Seq<char>)
    ensures
        count_in(dec(n as nat)) == n,
        parsed_unsigned(word, 10, u64::MAX as nat) is None ==> count_in(word) == 0,
{
    law_unsigned_round_trip(n);
}

} // verus!
