//! `/proc/net/sockstat`: socket allocation by protocol.
//!
//! Each line is a protocol with a colon, followed by pairs of a key and a
//! number.
use crate::labels::{no_labels, Labels};
use crate::metric::{
    gauge_view, is_gauge, push_gauge, views, whole, GaugeValue, MetricSample, SampleView,
};
use crate::text::{
    chars_of, lines, lines_spec, lowered, parse_i64, parsed_i64, string_of, to_lower, word_views,
    words, words_spec,
};
use vstd::prelude::*;
use vstd::slice::slice_subrange;

verus! {

/// The file.
pub const PATH: &'static str = "/proc/net/sockstat";

/// The sample of a key of a protocol.
pub open spec fn stat_sample(protocol: Seq<char>, key: Seq<char>, value: int) -> SampleView {
    gauge_view(
        "nft_sockstat"@,
        "Socket allocation snapshot from /proc/net/sockstat. TCP/UDP mem values are in pages (multiply by page size to get bytes)."@,
        no_labels().insert("protocol"@, protocol).insert("key"@, key),
        whole(value),
    )
}

/// The samples of the pairs in `rest`.  A pair whose value is no number is
/// skipped, and so is a key without a value at the end.
pub open spec fn pair_samples(protocol: Seq<char>, rest: Seq<Seq<char>>) -> Seq<SampleView>
    decreases rest.len(),
{
    if rest.len() < 2 {
        seq![]
    } else {
        (match parsed_i64(rest[1]) {
            Some(value) => seq![stat_sample(protocol, rest[0], value)],
            None => seq![],
        }) + pair_samples(protocol, rest.skip(2))
    }
}

/// The samples of one line; none when its first word has no colon at the end.
pub open spec fn line_samples(line: Seq<char>) -> Seq<SampleView> {
    let ws = words_spec(line);
    if ws.len() == 0 || ws[0].len() == 0 || ws[0].last() != ':' {
        seq![]
    } else {
        pair_samples(lowered(ws[0].drop_last()), ws.skip(1))
    }
}

/// The samples of all lines, in order.
pub open spec fn lines_samples(all: Seq<Seq<char>>) -> Seq<SampleView>
    decreases all.len(),
{
    if all.len() == 0 {
        seq![]
    } else {
        lines_samples(all.drop_last()) + line_samples(all.last())
    }
}

fn push_line(out: &mut Vec<MetricSample>, line: &[char])
    ensures
        views(final(out)@) == views(old(out)@) + line_samples(line@),
{
    let ghost start = views(out@);
    let ws = words(line);
    let ghost specs = words_spec(line@);
    proof {
        assert(specs.len() == ws@.len());
        if ws@.len() > 0 {
            assert(specs[0] == ws@[0]@);
        }
        assert(start + Seq::<SampleView>::empty() =~= start);
    }
    if ws.len() == 0 {
        return;
    }
    let first = ws[0].as_slice();
    if first.len() == 0 || first[first.len() - 1] != ':' {
        return;
    }
    let head = slice_subrange(first, 0, first.len() - 1);
    let protocol = to_lower(head);
    proof {
        assert(head@ =~= specs[0].drop_last());
    }
    let ghost rest = specs.skip(1);
    let mut i: usize = 1;
    proof {
        assert(rest.skip(0) =~= rest);
    }
    while ws.len() - i >= 2
        invariant
            1 <= i <= ws.len(),
            specs == word_views(ws@),
            rest == specs.skip(1),
            views(out@) + pair_samples(protocol@, rest.skip(i - 1)) == start + pair_samples(
                protocol@,
                rest,
            ),
        decreases ws.len() - i,
    {
        let ghost before = views(out@);
        let ghost left = rest.skip(i - 1);
        proof {
            assert(left[0] == ws@[i as int]@);
            assert(left[1] == ws@[i as int + 1]@);
            assert(left.skip(2) =~= rest.skip(i + 1));
        }
        if let Some(value) = parse_i64(ws[i + 1].as_slice()) {
            let key = string_of(ws[i].as_slice());
            let labels = Labels::new().with("protocol", protocol.as_str()).with(
                "key",
                key.as_str(),
            );
            push_gauge(
                out,
                "nft_sockstat",
                "Socket allocation snapshot from /proc/net/sockstat. TCP/UDP mem values are in pages (multiply by page size to get bytes).",
                &labels,
                GaugeValue::Whole(value as i128),
            );
            proof {
                assert(views(out@) =~= before + seq![stat_sample(protocol@, key@, value as int)]);
            }
        }
        proof {
            assert(views(out@) + pair_samples(protocol@, left.skip(2)) =~= before + pair_samples(
                protocol@,
                left,
            ));
        }
        i += 2;
    }
    proof {
        assert(views(out@) + pair_samples(protocol@, rest.skip(i - 1)) =~= views(out@));
    }
}

/// Parses the whole file; lines without a protocol and values that are no
/// numbers are skipped.
pub fn parse(text: &str) -> (r: Vec<MetricSample>)
    ensures
        views(r@) == lines_samples(lines_spec(text@)),
{
    let chars = chars_of(text);
    let all = lines(chars.as_slice());
    let ghost specs = lines_spec(text@);
    let mut out: Vec<MetricSample> = Vec::new();
    let mut i: usize = 0;
    proof {
        assert(views(out@) =~= lines_samples(specs.take(0)));
    }
    while i < all.len()
        invariant
            i <= all.len(),
            word_views(all@) == specs,
            views(out@) == lines_samples(specs.take(i as int)),
        decreases all.len() - i,
    {
        push_line(&mut out, all[i].as_slice());
        proof {
            assert(specs.take(i as int + 1).drop_last() =~= specs.take(i as int));
            assert(specs[i as int] == all@[i as int]@);
        }
        i += 1;
    }
    proof {
        assert(specs.take(i as int) =~= specs);
    }
    out
}

/// Collector for socket allocation.
pub struct SockstatCollector;

impl SockstatCollector {
    /// Name of the collector.
    pub fn name(&self) -> (r: &'static str)
        ensures
            r@ == "sockstat"@,
    {
        "sockstat"
    }
}

/// The pairs of one line all carry the line's protocol.
proof fn lemma_pairs_share_protocol(protocol: Seq<char>, rest: Seq<Seq<char>>, i: int)
    requires
        0 <= i < pair_samples(protocol, rest).len(),
    ensures
        pair_samples(protocol, rest)[i].name == "nft_sockstat"@,
        pair_samples(protocol, rest)[i].labels["protocol"@] == protocol,
    decreases rest.len(),
{
    reveal_strlit("protocol");
    reveal_strlit("key");
    assert("protocol"@.len() != "key"@.len());
    let head: Seq<SampleView> = match parsed_i64(rest[1]) {
        Some(value) => seq![stat_sample(protocol, rest[0], value)],
        None => seq![],
    };
    if i >= head.len() {
        lemma_pairs_share_protocol(protocol, rest.skip(2), i - head.len());
    }
}

/// Protocol labels are in lower case: lowering them again changes nothing.
pub proof fn law_protocol_lowered(all: Seq<Seq<char>>, i: int)
    requires
        0 <= i < lines_samples(all).len(),
    ensures
        lines_samples(all)[i].name == "nft_sockstat"@,
        lowered(lines_samples(all)[i].labels["protocol"@])
            == lines_samples(all)[i].labels["protocol"@],
    decreases all.len(),
{
    let earlier = lines_samples(all.drop_last());
    if i < earlier.len() {
        law_protocol_lowered(all.drop_last(), i);
    } else {
        let protocol = lowered(words_spec(all.last())[0].drop_last());
        let rest = words_spec(all.last()).skip(1);
        lemma_pairs_share_protocol(protocol, rest, i - earlier.len());
        assert(lowered(protocol) =~= protocol);
    }
}

/// A line names a protocol and lists keys with their numbers; each key goes out
/// with the number behind it, and a number that cannot be read takes only its
/// own key with it.
pub proof fn law_pairs_reported(
    protocol: Seq<char>,
    key: Seq<char>,
    word: Seq<char>,
    rest: Seq<Seq<char>>,
)
    ensures
        (match parsed_i64(word) {
            Some(n) => pair_samples(protocol, seq![key, word] + rest).len() == 1 + pair_samples(
                protocol,
                rest,
            ).len() && is_gauge(
                pair_samples(protocol, seq![key, word] + rest)[0],
                "nft_sockstat"@,
                no_labels().insert("protocol"@, protocol).insert("key"@, key),
                GaugeValue::Whole(n as i128),
            ) && pair_samples(protocol, seq![key, word] + rest).skip(1) == pair_samples(
                protocol,
                rest,
            ),
            None => pair_samples(protocol, seq![key, word] + rest) == pair_samples(protocol, rest),
        }),
{
    let all = seq![key, word] + rest;
    assert(all.skip(2) =~= rest);
    assert(all[0] == key && all[1] == word);
    let out = pair_samples(protocol, all);
    match parsed_i64(word) {
        Some(n) => {
            assert(out.skip(1) =~= pair_samples(protocol, rest));
        },
        None => {
            assert(out =~= pair_samples(protocol, rest));
        },
    }
}

/// The protocol is the first word without its colon, in small letters.
pub proof fn law_protocol_named(line: Seq<char>, protocol: Seq<char>, rest: Seq<Seq<char>>)
    requires
        words_spec(line) == seq![protocol.push(':')] + rest,
    ensures
        line_samples(line) == pair_samples(lowered(protocol), rest),
{
    let ws = words_spec(line);
    assert(ws[0] == protocol.push(':'));
    assert(protocol.push(':').drop_last() =~= protocol);
    assert(ws.skip(1) =~= rest);
}

/// Lines stand for themselves, whatever stands around them.
pub proof fn law_lines_independent(first: Seq<Seq<char>>, second: Seq<Seq<char>>)
    ensures
        lines_samples(first + second) == lines_samples(first) + lines_samples(second),
    decreases second.len(),
{
    if second.len() == 0 {
        assert(first + second =~= first);
        assert(lines_samples(first) + lines_samples(second) =~= lines_samples(first));
    } else {
        law_lines_independent(first, second.drop_last());
        assert((first + second).drop_last() =~= first + second.drop_last());
        assert(lines_samples(first + second) =~= lines_samples(first) + lines_samples(second));
    }
}

/// A line whose first word ends in no colon is passed over.
pub proof fn law_unnamed_line_skipped(line: Seq<char>)
    requires
        words_spec(line).len() == 0 || words_spec(line)[0].len() == 0 || words_spec(
            line,
        )[0].last() != ':',
    ensures
        line_samples(line).len() == 0,
{
}

/// One line gives its own samples, and no line gives none.
pub proof fn law_single_line(line: Seq<char>)
    ensures
        lines_samples(seq![line]) == line_samples(line),
        lines_samples(seq![]).len() == 0,
{
    assert(seq![line].drop_last() =~= seq![]);
    assert(lines_samples(seq![line].drop_last()) =~= seq![]);
    assert(lines_samples(seq![line]) =~= line_samples(line));
}

/// A key without a number is passed over.
pub proof fn law_lone_key_skipped(protocol: Seq<char>, key: Seq<char>)
    ensures
        pair_samples(protocol, seq![key]).len() == 0,
        pair_samples(protocol, seq![]).len() == 0,
{
}

} // verus!
