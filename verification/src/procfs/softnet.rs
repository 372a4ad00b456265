//! `/proc/net/softnet_stat`: per-CPU softirq receive health.
//!
//! Each line holds hexadecimal columns for one CPU.  The CPU is named by a
//! column of its own, since offline CPUs have no line.
use crate::labels::{no_labels, Labels};
use crate::metric::{
    counter_view, counts, gauge_view, is_counter, is_gauge, push_counter, push_gauge, reads, views,
    whole, GaugeValue, MetricSample, SampleView,
};
use crate::text::{
    chars_of, dec, dec_text, digit_value, hex, hex_fixed, law_hex_fixed_round_trip,
    law_hex_round_trip, lines, lines_spec, parse_unsigned, parsed_unsigned, pow16, word_views,
    words, words_spec,
};
use vstd::prelude::*;

verus! {

/// The file.
pub const PATH: &'static str = "/proc/net/softnet_stat";

/// Columns.
pub const COL_PROCESSED: usize = 0;
pub const COL_DROPPED: usize = 1;
pub const COL_TIME_SQUEEZE: usize = 2;
pub const COL_RECEIVED_RPS: usize = 9;
pub const COL_FLOW_LIMIT: usize = 10;
pub const COL_BACKLOG: usize = 11;
pub const COL_CPU: usize = 12;

/// Fewest columns of a usable line.
pub const MIN_COLS: usize = 13;

/// The number in a column; zero when it is no hexadecimal number.
pub open spec fn column(word: Seq<char>) -> u64 {
    match parsed_unsigned(word, 16, u64::MAX as nat) {
        Some(n) => n as u64,
        None => 0,
    }
}

/// The numbers of a line.
pub open spec fn columns(line: Seq<char>) -> Seq<u64> {
    words_spec(line).map_values(|w: Seq<char>| column(w))
}

/// The samples of one line; none when it is too short.
pub open spec fn line_samples(line: Seq<char>) -> Seq<SampleView> {
    let cols = columns(line);
    let labels = no_labels().insert("cpu"@, dec(cols[COL_CPU as int] as nat));
    if cols.len() < MIN_COLS {
        seq![]
    } else {
        seq![
            counter_view(
                "nft_softnet_processed_total"@,
                "Packets processed in the per-CPU softirq receive path (softnet processed)."@,
                labels,
                cols[COL_PROCESSED as int],
            ),
            counter_view(
                "nft_softnet_dropped_total"@,
                "Packets dropped because the per-CPU backlog queue was full."@,
                labels,
                cols[COL_DROPPED as int],
            ),
            counter_view(
                "nft_softnet_time_squeeze_total"@,
                "Times the NAPI poll loop ran out of budget/time with work remaining (time_squeeze)."@,
                labels,
                cols[COL_TIME_SQUEEZE as int],
            ),
            counter_view(
                "nft_softnet_received_rps_total"@,
                "Times this CPU was woken to process packets steered to it via RPS."@,
                labels,
                cols[COL_RECEIVED_RPS as int],
            ),
            counter_view(
                "nft_softnet_flow_limit_count_total"@,
                "Packets dropped by the flow-limit mechanism (CONFIG_NET_FLOW_LIMIT)."@,
                labels,
                cols[COL_FLOW_LIMIT as int],
            ),
            gauge_view(
                "nft_softnet_backlog_length"@,
                "Current per-CPU backlog queue length (input + process queues)."@,
                labels,
                whole(cols[COL_BACKLOG as int] as int),
            ),
        ]
    }
}

/// The samples of all lines, in order.
pub open spec fn lines_samples(all: Seq<Seq<char>>) -> Seq<SampleView>
    decreases all.len(),
{
    if all.len() == 0 {
        seq![]
    } else {
        lines_samples(all.drop_last()) + line_samples(all.last())
    }
}

fn read_columns(line: &[char]) -> (r: Vec<u64>)
    ensures
        r@ == columns(line@),
{
    let ws = words(line);
    let mut r: Vec<u64> = Vec::new();
    let mut i: usize = 0;
    proof {
        assert(r@ =~= columns(line@).take(0));
    }
    while i < ws.len()
        invariant
            i <= ws.len(),
            word_views(ws@) == words_spec(line@),
            r@ == columns(line@).take(i as int),
        decreases ws.len() - i,
    {
        let n: u64 = match parse_unsigned(ws[i].as_slice(), 16) {
            Some(n) => n,
            None => 0,
        };
        r.push(n);
        proof {
            assert(word_views(ws@)[i as int] == ws@[i as int]@);
            assert(columns(line@).take(i as int + 1) =~= columns(line@).take(i as int).push(n));
        }
        i += 1;
    }
    proof {
        assert(columns(line@).take(i as int) =~= columns(line@));
    }
    r
}

fn push_line(out: &mut Vec<MetricSample>, line: &[char])
    ensures
        views(final(out)@) == views(old(out)@) + line_samples(line@),
{
    let ghost start = views(out@);
    let cols = read_columns(line);
    if cols.len() >= MIN_COLS {
        let labels = Labels::new().with("cpu", dec_text(cols[COL_CPU]).as_str());
        push_counter(
            out,
            "nft_softnet_processed_total",
            "Packets processed in the per-CPU softirq receive path (softnet processed).",
            &labels,
            cols[COL_PROCESSED],
        );
        push_counter(
            out,
            "nft_softnet_dropped_total",
            "Packets dropped because the per-CPU backlog queue was full.",
            &labels,
            cols[COL_DROPPED],
        );
        push_counter(
            out,
            "nft_softnet_time_squeeze_total",
            "Times the NAPI poll loop ran out of budget/time with work remaining (time_squeeze).",
            &labels,
            cols[COL_TIME_SQUEEZE],
        );
        push_counter(
            out,
            "nft_softnet_received_rps_total",
            "Times this CPU was woken to process packets steered to it via RPS.",
            &labels,
            cols[COL_RECEIVED_RPS],
        );
        push_counter(
            out,
            "nft_softnet_flow_limit_count_total",
            "Packets dropped by the flow-limit mechanism (CONFIG_NET_FLOW_LIMIT).",
            &labels,
            cols[COL_FLOW_LIMIT],
        );
        push_gauge(
            out,
            "nft_softnet_backlog_length",
            "Current per-CPU backlog queue length (input + process queues).",
            &labels,
            GaugeValue::Whole(cols[COL_BACKLOG] as i128),
        );
    }
    proof {
        assert(views(out@) =~= start + line_samples(line@));
    }
}

/// Parses the whole file; lines that are too short are skipped.
pub fn parse(text: &str) -> (r: Vec<MetricSample>)
    ensures
        views(r@) == lines_samples(lines_spec(text@)),
{
    let chars = chars_of(text);
    let all = lines(chars.as_slice());
    let ghost specs = lines_spec(text@);
    let mut out: Vec<MetricSample> = Vec::new();
    let mut i: usize = 0;
    proof {
        assert(views(out@) =~= lines_samples(specs.take(0)));
    }
    while i < all.len()
        invariant
            i <= all.len(),
            word_views(all@) == specs,
            views(out@) == lines_samples(specs.take(i as int)),
        decreases all.len() - i,
    {
        push_line(&mut out, all[i].as_slice());
        proof {
            assert(specs.take(i as int + 1).drop_last() =~= specs.take(i as int));
            assert(specs[i as int] == all@[i as int]@);
        }
        i += 1;
    }
    proof {
        assert(specs.take(i as int) =~= specs);
    }
    out
}

/// Collector for per-CPU softirq receive health.
pub struct SoftnetCollector;

impl SoftnetCollector {
    /// Name of the collector.
    pub fn name(&self) -> (r: &'static str)
        ensures
            r@ == "softnet"@,
    {
        "softnet"
    }
}

/// A line gives its six samples or none, and all six name the CPU of the
/// line's own CPU column, not its position in the file.
pub proof fn law_six_per_line(line: Seq<char>)
    ensures
        line_samples(line).len() == if columns(line).len() < MIN_COLS {
            0nat
        } else {
            6nat
        },
        forall|i: int|
            0 <= i < line_samples(line).len() ==> (#[trigger] line_samples(line)[i]).labels
                == no_labels().insert("cpu"@, dec(columns(line)[COL_CPU as int] as nat)),
{
}

/// Every line contributes on its own: lines before and after a line do not
/// change what it gives.
pub proof fn law_lines_independent(first: Seq<Seq<char>>, second: Seq<Seq<char>>)
    ensures
        lines_samples(first + second) == lines_samples(first) + lines_samples(second),
    decreases second.len(),
{
    if second.len() == 0 {
        assert(first + second =~= first);
    } else {
        law_lines_independent(first, second.drop_last());
        assert((first + second).drop_last() =~= first + second.drop_last());
    }
}

/// Every column goes out under its own name, with the processor of its line.
pub proof fn law_columns_named(
    line: Seq<char>,
    ws: Seq<Seq<char>>,
    labels: Map<Seq<char>, Seq<char>>,
    s: Seq<SampleView>,
)
    requires
        ws == words_spec(line),
        ws.len() >= 13,
        labels == no_labels().insert("cpu"@, dec(column(ws[12]) as nat)),
        s == line_samples(line),
    ensures
        s.len() == 6,
        counts(s, "nft_softnet_processed_total"@, labels, column(ws[0])),
        counts(s, "nft_softnet_dropped_total"@, labels, column(ws[1])),
        counts(s, "nft_softnet_time_squeeze_total"@, labels, column(ws[2])),
        counts(s, "nft_softnet_received_rps_total"@, labels, column(ws[9])),
        counts(s, "nft_softnet_flow_limit_count_total"@, labels, column(ws[10])),
        reads(s, "nft_softnet_backlog_length"@, labels, GaugeValue::Whole(column(ws[11]) as i128)),
{
    assert(columns(line).len() == ws.len());
    assert(is_counter(s[0], "nft_softnet_processed_total"@, labels, column(ws[0])));
    assert(is_counter(s[1], "nft_softnet_dropped_total"@, labels, column(ws[1])));
    assert(is_counter(s[2], "nft_softnet_time_squeeze_total"@, labels, column(ws[2])));
    assert(is_counter(s[3], "nft_softnet_received_rps_total"@, labels, column(ws[9])));
    assert(is_counter(s[4], "nft_softnet_flow_limit_count_total"@, labels, column(ws[10])));
    assert(is_gauge(
        s[5],
        "nft_softnet_backlog_length"@,
        labels,
        GaugeValue::Whole(column(ws[11]) as i128),
    ));
}

/// Columns are hexadecimal: a number reads back from its digits, with and
/// without leading zeros, and what is none reads as zero.
pub proof fn law_column_hexadecimal(n: u64, m: u32, word: Seq<char>)
    ensures
        parsed_unsigned(word, 16, u64::MAX as nat) is None ==> column(word) == 0,
        column(hex(n as nat)) == n,
        column(hex_fixed(m as nat, 8)) == m,
{
    law_hex_round_trip(n as nat);
    law_hex_fixed_round_trip(m as nat, 8);
    reveal_with_fuel(pow16, 9);
    assert(digit_value('+', 16) is None);
    assert(digit_value(hex(n as nat)[0], 16) is Some);
    assert(digit_value(hex_fixed(m as nat, 8)[0], 16) is Some);
}

/// One line gives its own samples, and no line gives none.
pub proof fn law_single_line(line: Seq<char>)
    ensures
        lines_samples(seq![line]) == line_samples(line),
        lines_samples(seq![]).len() == 0,
{
    assert(seq![line].drop_last() =~= seq![]);
    assert(lines_samples(seq![line].drop_last()) =~= seq![]);
    assert(lines_samples(seq![line]) =~= line_samples(line));
}

} // verus!
