//! `/proc/net/snmp` and `/proc/net/netstat`: protocol counters.
//!
//! Both files hold pairs of lines.  The first line of a pair is a protocol with
//! a colon and field names, the second the same protocol and the values.
use crate::labels::{no_labels, Labels};
use crate::metric::{
    gauge_view, is_gauge, push_gauge, reads, views, whole, GaugeValue, MetricSample, SampleView,
};
use crate::text::{
    chars_of, lines, lines_spec, parse_i64, parsed_i64, str_eq, string_of, word_views, words,
    words_spec,
};
use vstd::prelude::*;
use vstd::slice::slice_subrange;

verus! {

/// The primary file.
pub const PATH_SNMP: &'static str = "/proc/net/snmp";

/// The secondary file.
pub const PATH_NETSTAT: &'static str = "/proc/net/netstat";

/// `s` without its trailing colons.
pub open spec fn without_colons(s: Seq<char>) -> Seq<char>
    decreases s.len(),
{
    if s.len() > 0 && s.last() == ':' {
        without_colons(s.drop_last())
    } else {
        s
    }
}

/// The first word of a line ends with a colon.
pub open spec fn names_protocol(ws: Seq<Seq<char>>) -> bool {
    ws.len() > 0 && ws[0].len() > 0 && ws[0].last() == ':'
}

/// A header line: a protocol and fields, of which the first is no number.
pub open spec fn is_header(ws: Seq<Seq<char>>) -> bool {
    ws.len() >= 2 && names_protocol(ws) && parsed_i64(ws[1]) is None
}

/// The sample of a field of a protocol.
pub open spec fn field_sample(protocol: Seq<char>, field: Seq<char>, value: int) -> SampleView {
    gauge_view(
        "nft_netstat"@,
        "Linux IP/TCP/UDP/ICMP MIB field value from /proc/net/snmp and /proc/net/netstat."@,
        no_labels().insert("protocol"@, protocol).insert("field"@, field),
        whole(value),
    )
}

/// The samples of the first `k` columns after the protocol; a value that is no
/// number is skipped.
pub open spec fn column_samples(
    protocol: Seq<char>,
    header: Seq<Seq<char>>,
    data: Seq<Seq<char>>,
    k: nat,
) -> Seq<SampleView>
    decreases k,
{
    if k == 0 {
        seq![]
    } else {
        let earlier = column_samples(protocol, header, data, (k - 1) as nat);
        match parsed_i64(data[k as int]) {
            Some(value) => earlier.push(field_sample(protocol, header[k as int], value)),
            None => earlier,
        }
    }
}

/// The samples of paired lines.
///
/// A header is paired with the next line when that starts with the same
/// protocol.  The pair is used when both have the same number of columns.  A
/// line that is no header, or has no partner, is skipped.
pub open spec fn paired_samples(all: Seq<Seq<char>>) -> Seq<SampleView>
    decreases all.len(),
{
    if all.len() < 2 {
        seq![]
    } else {
        let header = words_spec(all[0]);
        let data = words_spec(all[1]);
        if is_header(header) && names_protocol(data) && without_colons(data[0]) == without_colons(
            header[0],
        ) {
            (if data.len() == header.len() {
                column_samples(
                    without_colons(header[0]),
                    header,
                    data,
                    (header.len() - 1) as nat,
                )
            } else {
                seq![]
            }) + paired_samples(all.skip(2))
        } else {
            paired_samples(all.skip(1))
        }
    }
}

fn strip_colons(s: &[char]) -> (r: String)
    ensures
        r@ == without_colons(s@),
{
    let mut n: usize = s.len();
    proof {
        assert(s@.take(n as int) =~= s@);
    }
    while n > 0 && s[n - 1] == ':'
        invariant
            n <= s.len(),
            without_colons(s@) == without_colons(s@.take(n as int)),
        decreases n,
    {
        proof {
            assert(s@.take(n as int).drop_last() =~= s@.take(n as int - 1));
        }
        n -= 1;
    }
    let head = slice_subrange(s, 0, n);
    proof {
        assert(head@ =~= s@.take(n as int));
    }
    string_of(head)
}

fn ends_with_colon(ws: &Vec<Vec<char>>) -> (r: bool)
    ensures
        r == names_protocol(word_views(ws@)),
{
    if ws.len() == 0 {
        return false;
    }
    let first = &ws[0];
    proof {
        assert(word_views(ws@)[0] == first@);
    }
    first.len() > 0 && first[first.len() - 1] == ':'
}

fn push_columns(
    out: &mut Vec<MetricSample>,
    protocol: &str,
    header: &Vec<Vec<char>>,
    data: &Vec<Vec<char>>,
)
    requires
        header@.len() == data@.len(),
        header@.len() >= 1,
    ensures
        views(final(out)@) == views(old(out)@) + column_samples(
            protocol@,
            word_views(header@),
            word_views(data@),
            (header@.len() - 1) as nat,
        ),
{
    let ghost start = views(out@);
    let ghost h = word_views(header@);
    let ghost d = word_views(data@);
    let mut i: usize = 1;
    proof {
        assert(start + column_samples(protocol@, h, d, 0) =~= start);
    }
    while i < header.len()
        invariant
            1 <= i <= header@.len() == data@.len(),
            h == word_views(header@),
            d == word_views(data@),
            views(out@) == start + column_samples(protocol@, h, d, (i - 1) as nat),
        decreases header.len() - i,
    {
        let ghost done = column_samples(protocol@, h, d, (i - 1) as nat);
        proof {
            assert(h[i as int] == header@[i as int]@);
            assert(d[i as int] == data@[i as int]@);
        }
        if let Some(value) = parse_i64(data[i].as_slice()) {
            let field = string_of(header[i].as_slice());
            let labels = Labels::new().with("protocol", protocol).with("field", field.as_str());
            push_gauge(
                out,
                "nft_netstat",
                "Linux IP/TCP/UDP/ICMP MIB field value from /proc/net/snmp and /proc/net/netstat.",
                &labels,
                GaugeValue::Whole(value as i128),
            );
            proof {
                let own = field_sample(protocol@, field@, value as int);
                assert(start + done.push(own) =~= (start + done).push(own));
            }
        }
        i += 1;
    }
}

/// Parses a file of paired lines and appends its samples.
pub fn parse_paired_lines(text: &str, out: &mut Vec<MetricSample>)
    ensures
        views(final(out)@) == views(old(out)@) + paired_samples(lines_spec(text@)),
{
    let chars = chars_of(text);
    let all = lines(chars.as_slice());
    let ghost specs = lines_spec(text@);
    let ghost start = views(out@);
    let mut i: usize = 0;
    proof {
        assert(specs.skip(0) =~= specs);
    }
    while all.len() - i >= 2
        invariant
            i <= all.len(),
            word_views(all@) == specs,
            views(out@) + paired_samples(specs.skip(i as int)) == start + paired_samples(specs),
        decreases all.len() - i,
    {
        let ghost rest = specs.skip(i as int);
        let ghost before = views(out@);
        let header = words(all[i].as_slice());
        let data = words(all[i + 1].as_slice());
        proof {
            assert(rest[0] == all@[i as int]@);
            assert(rest[1] == all@[i as int + 1]@);
            assert(rest.skip(1) =~= specs.skip(i as int + 1));
            assert(rest.skip(2) =~= specs.skip(i as int + 2));
            assert(words_spec(rest[0]).len() == header@.len());
            assert(words_spec(rest[1]).len() == data@.len());
            if header@.len() > 0 {
                assert(words_spec(rest[0])[0] == header@[0]@);
            }
            if header@.len() > 1 {
                assert(words_spec(rest[0])[1] == header@[1]@);
            }
            if data@.len() > 0 {
                assert(words_spec(rest[1])[0] == data@[0]@);
            }
        }
        if header.len() < 2 || !ends_with_colon(&header) || !ends_with_colon(&data)
            || parse_i64(header[1].as_slice()).is_some() {
            i += 1;
            continue;
        }
        let protocol = strip_colons(header[0].as_slice());
        let partner = strip_colons(data[0].as_slice());
        if !str_eq(protocol.as_str(), partner.as_str()) {
            i += 1;
            continue;
        }
        if data.len() == header.len() {
            push_columns(out, protocol.as_str(), &header, &data);
        }
        proof {
            assert(views(out@) + paired_samples(rest.skip(2)) =~= before + paired_samples(rest));
        }
        i += 2;
    }
    proof {
        assert(views(out@) + paired_samples(specs.skip(i as int)) =~= views(out@));
    }
}

/// Collector for protocol counters.
pub struct NetstatCollector;

impl NetstatCollector {
    /// Name of the collector.
    pub fn name(&self) -> (r: &'static str)
        ensures
            r@ == "netstat"@,
    {
        "netstat"
    }

    /// Turns the contents of both files into samples.
    pub fn collect(&self, snmp: &str, netstat: &str) -> (r: Vec<MetricSample>)
        ensures
            views(r@) == paired_samples(lines_spec(snmp@)) + paired_samples(lines_spec(netstat@)),
    {
        let mut out: Vec<MetricSample> = Vec::new();
        parse_paired_lines(snmp, &mut out);
        proof {
            assert(views(out@) =~= paired_samples(lines_spec(snmp@)));
        }
        parse_paired_lines(netstat, &mut out);
        out
    }
}

/// A pair of lines gives at most one sample per column after the protocol, each
/// named `nft_netstat` and labelled with the protocol of the pair.
pub proof fn law_columns_bounded(
    protocol: Seq<char>,
    header: Seq<Seq<char>>,
    data: Seq<Seq<char>>,
    k: nat,
)
    ensures
        column_samples(protocol, header, data, k).len() <= k,
        forall|i: int|
            0 <= i < column_samples(protocol, header, data, k).len() ==> {
                let s = #[trigger] column_samples(protocol, header, data, k)[i];
                s.name == "nft_netstat"@ && s.labels["protocol"@] == protocol
            },
    decreases k,
{
    reveal_strlit("protocol");
    reveal_strlit("field");
    assert("protocol"@.len() != "field"@.len());
    if k > 0 {
        law_columns_bounded(protocol, header, data, (k - 1) as nat);
    }
}

/// A pair whose lines differ in their number of columns gives nothing, and what
/// follows it is still read.
pub proof fn law_mismatched_pair_skipped(all: Seq<Seq<char>>)
    requires
        all.len() >= 2,
        is_header(words_spec(all[0])),
        names_protocol(words_spec(all[1])),
        without_colons(words_spec(all[0])[0]) == without_colons(words_spec(all[1])[0]),
        words_spec(all[0]).len() != words_spec(all[1]).len(),
    ensures
        paired_samples(all) == paired_samples(all.skip(2)),
{
    assert(Seq::<SampleView>::empty() + paired_samples(all.skip(2)) =~= paired_samples(
        all.skip(2),
    ));
}

/// Every number goes out under the name that stands above it.
pub proof fn law_column_reported(
    protocol: Seq<char>,
    header: Seq<Seq<char>>,
    data: Seq<Seq<char>>,
    k: nat,
    i: int,
    n: int,
)
    requires
        1 <= i <= k,
        parsed_i64(data[i]) == Some(n),
    ensures
        reads(
            column_samples(protocol, header, data, k),
            "nft_netstat"@,
            no_labels().insert("protocol"@, protocol).insert("field"@, header[i]),
            GaugeValue::Whole(n as i128),
        ),
    decreases k,
{
    let out = column_samples(protocol, header, data, k);
    let earlier = column_samples(protocol, header, data, (k - 1) as nat);
    let labels = no_labels().insert("protocol"@, protocol).insert("field"@, header[i]);
    let value = GaugeValue::Whole(n as i128);
    if i == k {
        assert(is_gauge(out[out.len() - 1], "nft_netstat"@, labels, value));
    } else {
        law_column_reported(protocol, header, data, (k - 1) as nat, i, n);
        let j = choose|j: int|
            0 <= j < earlier.len() && is_gauge(
                #[trigger] earlier[j],
                "nft_netstat"@,
                labels,
                value,
            );
        assert(out[j] == earlier[j]);
    }
}

/// Where all numbers can be read, there is one sample for each of them.
pub proof fn law_no_column_lost(
    protocol: Seq<char>,
    header: Seq<Seq<char>>,
    data: Seq<Seq<char>>,
    k: nat,
)
    requires
        forall|i: int| 1 <= i <= k ==> parsed_i64(#[trigger] data[i]) is Some,
    ensures
        column_samples(protocol, header, data, k).len() == k,
    decreases k,
{
    if k > 0 {
        law_no_column_lost(protocol, header, data, (k - 1) as nat);
        assert(parsed_i64(data[k as int]) is Some);
    }
}

/// A line of names and the line of numbers below it make a pair, and the lines
/// behind it are read as if they stood alone; a line that starts no pair is
/// passed over.
pub proof fn law_pairs_read(names: Seq<char>, numbers: Seq<char>, rest: Seq<Seq<char>>)
    requires
        words_spec(names).len() >= 2,
        words_spec(names).len() == words_spec(numbers).len(),
        words_spec(names)[0] == words_spec(numbers)[0],
        words_spec(names)[0].len() > 0,
        words_spec(names)[0].last() == ':',
    ensures
        parsed_i64(words_spec(names)[1]) is None ==> paired_samples(seq![names, numbers] + rest)
            == column_samples(
            without_colons(words_spec(names)[0]),
            words_spec(names),
            words_spec(numbers),
            (words_spec(names).len() - 1) as nat,
        ) + paired_samples(rest),
        parsed_i64(words_spec(names)[1]) is Some ==> paired_samples(seq![names, numbers] + rest)
            == paired_samples(seq![numbers] + rest),
{
    let all = seq![names, numbers] + rest;
    assert(all[0] == names && all[1] == numbers);
    assert(all.skip(2) =~= rest);
    assert(all.skip(1) =~= seq![numbers] + rest);
}

/// The colons at the end of a protocol are no part of its name.
pub proof fn law_colons_stripped(s: Seq<char>)
    ensures
        without_colons(s.push(':')) == without_colons(s),
        s.len() == 0 || s.last() != ':' ==> without_colons(s) == s,
{
    assert(s.push(':').drop_last() =~= s);
}

/// A line of names whose numbers are missing, because the next line is of
/// another protocol, is passed over alone.
pub proof fn law_orphan_header_skipped(first: Seq<char>, second: Seq<char>, rest: Seq<Seq<char>>)
    requires
        !names_protocol(words_spec(second)) || without_colons(words_spec(first)[0])
            != without_colons(words_spec(second)[0]),
    ensures
        paired_samples(seq![first, second] + rest) == paired_samples(seq![second] + rest),
        paired_samples(seq![first]).len() == 0,
{
    let all = seq![first, second] + rest;
    assert(all[0] == first && all[1] == second);
    assert(all.skip(1) =~= seq![second] + rest);
}

} // verus!
