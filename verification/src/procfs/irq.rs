//! `/proc/interrupts`: interrupt counts by hardware interrupt.
//!
//! A row is an identifier with a colon, one count per CPU, and what describes
//! the interrupt; the device names follow the last run of two blanks.  Rows
//! whose identifier is no number are skipped, and the counts of a row are added
//! up.
use crate::labels::{no_labels, Labels};
use crate::metric::{counter_view, is_counter, push_counter, views, MetricSample, SampleView};
use crate::text::{
    all_space, ascii_digits, chars_of, dec, find_char, first_index, is_digits, is_space,
    law_trim_exact, law_unsigned_round_trip, lemma_first_index, lemma_trim_front, lines, lines_spec,
    parse_unsigned, parsed_unsigned, string_of, trim, trim_spec, trim_start, trim_start_spec,
    word_views,
};
use vstd::prelude::*;
use vstd::slice::slice_subrange;

verus! {

/// The file.
pub const PATH: &'static str = "/proc/interrupts";

/// `s` without leading blanks.
pub open spec fn skip_blanks(s: Seq<char>) -> Seq<char>
    decreases s.len(),
{
    if s.len() > 0 && s[0] == ' ' {
        skip_blanks(s.skip(1))
    } else {
        s
    }
}

/// Skipping blanks leaves no blank in front.
pub proof fn lemma_skip_blanks(s: Seq<char>)
    ensures
        skip_blanks(s).len() <= s.len(),
        skip_blanks(s).len() > 0 ==> skip_blanks(s)[0] != ' ',
    decreases s.len(),
{
    if s.len() > 0 && s[0] == ' ' {
        lemma_skip_blanks(s.skip(1));
    }
}

/// `a` plus `b`, but at most the largest number.
pub open spec fn saturating_sum(a: u64, b: u64) -> u64 {
    if a + b <= u64::MAX {
        (a + b) as u64
    } else {
        u64::MAX
    }
}

/// The count that a word of digits writes; zero when it is too large.
pub open spec fn count_in(word: Seq<char>) -> u64 {
    match parsed_unsigned(word, 10, u64::MAX as nat) {
        Some(n) => n as u64,
        None => 0,
    }
}

/// The sum of the leading counts of `rest` added to `acc`, how many there are,
/// and what follows them.
pub open spec fn leading_counts(rest: Seq<char>, acc: u64, found: nat) -> (u64, nat, Seq<char>)
    decreases rest.len(),
{
    let s = skip_blanks(rest);
    let n = first_index(s, ' ') as int;
    if s.len() == 0 || !ascii_digits(s.take(n)) {
        (acc, found, s)
    } else {
        proof {
            lemma_skip_blanks(rest);
            lemma_first_index(s, ' ');
        }
        leading_counts(s.skip(n), saturating_sum(acc, count_in(s.take(n))), found + 1)
    }
}

/// Two blanks stand at `i`.
pub open spec fn double_blank_at(s: Seq<char>, i: int) -> bool {
    0 <= i && i + 2 <= s.len() && s[i] == ' ' && s[i + 1] == ' '
}

/// Where the last two blanks stand among the first `n` places; `-1` without any.
pub open spec fn last_double_blank(s: Seq<char>, n: nat) -> int
    decreases n,
{
    if n == 0 {
        -1
    } else if double_blank_at(s, n - 1) {
        n - 1
    } else {
        last_double_blank(s, (n - 1) as nat)
    }
}

/// The device names in the description of an interrupt; empty without two
/// blanks in a row.
pub open spec fn device_in(metadata: Seq<char>) -> Seq<char> {
    let at = last_double_blank(metadata, metadata.len());
    if at < 0 {
        Seq::empty()
    } else {
        trim_spec(metadata.skip(at))
    }
}

/// The sample of one interrupt.
pub open spec fn irq_sample(irq: Seq<char>, device: Seq<char>, total: u64) -> SampleView {
    counter_view(
        "nft_irq_total"@,
        "Total interrupt count summed across all CPUs for this hardware IRQ."@,
        no_labels().insert("irq"@, irq).insert("device"@, device),
        total,
    )
}

/// The samples of one line: one for a row with a numeric identifier and a count.
pub open spec fn line_samples(line: Seq<char>) -> Seq<SampleView> {
    let trimmed = trim_start_spec(line);
    let c = first_index(trimmed, ':') as int;
    let irq = trim_spec(trimmed.take(c));
    let (total, found, rest) = leading_counts(trimmed.skip(c + 1), 0, 0);
    if c >= trimmed.len() || irq.len() == 0 || !ascii_digits(irq) || found == 0 {
        seq![]
    } else {
        seq![irq_sample(irq, device_in(trim_start_spec(rest)), total)]
    }
}

/// The samples of all lines, in order.
pub open spec fn lines_samples(all: Seq<Seq<char>>) -> Seq<SampleView>
    decreases all.len(),
{
    if all.len() == 0 {
        seq![]
    } else {
        lines_samples(all.drop_last()) + line_samples(all.last())
    }
}

/// Reads the leading counts of a row: their sum, whether there are any, and
/// where what follows them starts.
fn read_counts(rest: &[char]) -> (r: (u64, bool, usize))
    ensures
        r.2 <= rest@.len(),
        leading_counts(rest@, 0, 0).0 == r.0,
        leading_counts(rest@, 0, 0).2 == rest@.skip(r.2 as int),
        r.1 == (leading_counts(rest@, 0, 0).1 > 0),
{
    let mut total: u64 = 0;
    let ghost mut found: nat = 0;
    let mut any = false;
    let mut i: usize = 0;
    proof {
        assert(rest@.skip(0) =~= rest@);
    }
    loop
        invariant
            i <= rest@.len(),
            any == (found > 0),
            leading_counts(rest@.skip(i as int), total, found) == leading_counts(rest@, 0, 0),
        decreases rest@.len() - i,
    {
        let ghost here = rest@.skip(i as int);
        let mut j: usize = i;
        proof {
            lemma_skip_blanks(here);
        }
        while j < rest.len() && rest[j] == ' '
            invariant
                i <= j <= rest@.len(),
                here == rest@.skip(i as int),
                skip_blanks(here) == skip_blanks(rest@.skip(j as int)),
            decreases rest.len() - j,
        {
            proof {
                assert(rest@.skip(j as int).skip(1) =~= rest@.skip(j as int + 1));
            }
            j += 1;
        }
        let ghost s = rest@.skip(j as int);
        proof {
            assert(skip_blanks(here) == s);
        }
        if j == rest.len() {
            return (total, any, j);
        }
        let end: usize = find_char(rest, j, ' ');
        let token = slice_subrange(rest, j, end);
        proof {
            lemma_first_index(s, ' ');
            assert(token@ =~= s.take(end - j));
            assert(s.skip(end - j) =~= rest@.skip(end as int));
        }
        if !is_digits(token) {
            return (total, any, j);
        }
        let n: u64 = match parse_unsigned(token, 10) {
            Some(n) => n,
            None => 0,
        };
        total = total.saturating_add(n);
        any = true;
        proof {
            found = found + 1;
        }
        i = end;
    }
}

fn read_device(metadata: &[char]) -> (r: String)
    ensures
        r@ == device_in(metadata@),
{
    let mut n: usize = metadata.len();
    while n > 0
        invariant
            n <= metadata@.len(),
            last_double_blank(metadata@, metadata@.len()) == last_double_blank(metadata@, n as nat),
        decreases n,
    {
        let at: usize = n - 1;
        if metadata.len() - at >= 2 && metadata[at] == ' ' && metadata[at + 1] == ' ' {
            let tail = slice_subrange(metadata, at, metadata.len());
            proof {
                assert(double_blank_at(metadata@, at as int));
                assert(tail@ =~= metadata@.skip(at as int));
            }
            return string_of(trim(tail));
        }
        n -= 1;
    }
    String::new()
}

fn push_line(out: &mut Vec<MetricSample>, line: &[char])
    ensures
        views(final(out)@) == views(old(out)@) + line_samples(line@),
{
    let ghost start = views(out@);
    proof {
        assert(start + Seq::<SampleView>::empty() =~= start);
    }
    let trimmed = trim_start(line);
    let c: usize = find_char(trimmed, 0, ':');
    proof {
        assert(trimmed@.skip(0) =~= trimmed@);
    }
    if c >= trimmed.len() {
        return;
    }
    let id = slice_subrange(trimmed, 0, c);
    let irq = trim(id);
    proof {
        assert(id@ =~= trimmed@.take(c as int));
    }
    if irq.len() == 0 || !is_digits(irq) {
        return;
    }
    let rest = slice_subrange(trimmed, c + 1, trimmed.len());
    proof {
        assert(rest@ =~= trimmed@.skip(c as int + 1));
    }
    let (total, any, at) = read_counts(rest);
    if !any {
        return;
    }
    let tail = slice_subrange(rest, at, rest.len());
    proof {
        assert(tail@ =~= rest@.skip(at as int));
    }
    let device = read_device(trim_start(tail));
    let irq_text = string_of(irq);
    let labels = Labels::new().with("irq", irq_text.as_str()).with("device", device.as_str());
    push_counter(
        out,
        "nft_irq_total",
        "Total interrupt count summed across all CPUs for this hardware IRQ.",
        &labels,
        total,
    );
    proof {
        assert(views(out@) =~= start + line_samples(line@));
    }
}

/// Parses the whole file.
pub fn parse(text: &str) -> (r: Vec<MetricSample>)
    ensures
        views(r@) == lines_samples(lines_spec(text@)),
{
    let chars = chars_of(text);
    let all = lines(chars.as_slice());
    let ghost specs = lines_spec(text@);
    let mut out: Vec<MetricSample> = Vec::new();
    let mut i: usize = 0;
    proof {
        assert(views(out@) =~= lines_samples(specs.take(0)));
    }
    while i < all.len()
        invariant
            i <= all.len(),
            word_views(all@) == specs,
            views(out@) == lines_samples(specs.take(i as int)),
        decreases all.len() - i,
    {
        push_line(&mut out, all[i].as_slice());
        proof {
            assert(specs.take(i as int + 1).drop_last() =~= specs.take(i as int));
            assert(specs[i as int] == all@[i as int]@);
        }
        i += 1;
    }
    proof {
        assert(specs.take(i as int) =~= specs);
    }
    out
}

/// Collector for hardware interrupts.
pub struct IrqCollector;

impl IrqCollector {
    /// Name of the collector.
    pub fn name(&self) -> (r: &'static str)
        ensures
            r@ == "irq"@,
    {
        "irq"
    }
}

/// The number of series is bounded by the number of lines, whatever the number
/// of CPUs.
pub proof fn law_one_sample_per_line(all: Seq<Seq<char>>)
    ensures
        lines_samples(all).len() <= all.len(),
    decreases all.len(),
{
    if all.len() > 0 {
        law_one_sample_per_line(all.drop_last());
    }
}

/// Only rows with a numeric identifier give a sample, and that identifier is
/// its `irq` label: names such as `NMI` never appear.
pub proof fn law_numeric_identifiers(all: Seq<Seq<char>>, i: int)
    requires
        0 <= i < lines_samples(all).len(),
    ensures
        lines_samples(all)[i].name == "nft_irq_total"@,
        lines_samples(all)[i].labels.contains_key("irq"@),
        lines_samples(all)[i].labels["irq"@].len() > 0,
        ascii_digits(lines_samples(all)[i].labels["irq"@]),
    decreases all.len(),
{
    reveal_strlit("irq");
    reveal_strlit("device");
    assert("irq"@.len() != "device"@.len());
    if i < lines_samples(all.drop_last()).len() {
        law_numeric_identifiers(all.drop_last(), i);
    }
}

/// The counts of a line add up: a count in front of the others adds its number
/// to their sum and is one count more, and blanks do not matter.
pub proof fn law_counts_add_up(word: Seq<char>, rest: Seq<char>, acc: u64, found: nat)
    requires
        word.len() > 0,
        ascii_digits(word),
    ensures
        leading_counts(seq![' '] + rest, acc, found) == leading_counts(rest, acc, found),
        leading_counts(word + seq![' '] + rest, acc, found) == leading_counts(
            rest,
            saturating_sum(acc, count_in(word)),
            found + 1,
        ),
        acc + count_in(word) <= u64::MAX ==> saturating_sum(acc, count_in(word)) == acc + count_in(
            word,
        ),
        acc + count_in(word) > u64::MAX ==> saturating_sum(acc, count_in(word)) == u64::MAX,
{
    let gap = seq![' '] + rest;
    assert(gap.skip(1) =~= rest);
    assert(gap[0] == ' ');
    assert(skip_blanks(gap) == skip_blanks(rest));
    let s = word + seq![' '] + rest;
    assert('0' <= word[0] <= '9');
    assert(s[0] == word[0]);
    assert(skip_blanks(s) == s);
    lemma_first_index(s, ' ');
    let n = first_index(s, ' ') as int;
    assert(s[word.len() as int] == ' ');
    if n < word.len() {
        assert(s[n] == word[n]);
        assert('0' <= word[n] <= '9');
    }
    assert(n == word.len());
    assert(s.take(n) =~= word);
    assert(s.skip(n) =~= gap);
    let sum = saturating_sum(acc, count_in(word));
    assert(leading_counts(gap, sum, found + 1) == leading_counts(rest, sum, found + 1));
    assert(leading_counts(s, acc, found) == leading_counts(gap, sum, found + 1));
}

/// A count is its decimal number, and zero where it is beyond all numbers.
pub proof fn law_count_decimal(n: u64, word: Seq<char>)
    ensures
        count_in(dec(n as nat)) == n,
        parsed_unsigned(word, 10, u64::MAX as nat) is None ==> count_in(word) == 0,
{
    law_unsigned_round_trip(n);
}

/// The device is what follows the last double blank.
pub proof fn law_device_behind_gap(front: Seq<char>, name: Seq<char>)
    requires
        name.len() > 0,
        !is_space(name[0]),
        !is_space(name.last()),
        forall|i: int| !double_blank_at(name, i),
    ensures
        device_in(front + seq![' ', ' '] + name) == name,
{
    let s = front + seq![' ', ' '] + name;
    let at = front.len() as int;
    assert(double_blank_at(s, at));
    assert forall|i: int| at < i < s.len() implies !double_blank_at(s, i) by {
        if double_blank_at(s, i) {
            if i == at + 1 {
                assert(s[i + 1] == name[0]);
            } else {
                let j = i - at - 2;
                assert(s[i] == name[j] && s[i + 1] == name[j + 1]);
                assert(double_blank_at(name, j));
            }
        }
    }
    lemma_last_gap(s, s.len(), at);
    let pad = seq![' ', ' '];
    assert(s.skip(at) =~= pad + name + seq![]);
    law_trim_exact(pad, name, seq![]);
}

proof fn lemma_last_gap(s: Seq<char>, n: nat, at: int)
    requires
        0 <= at < n <= s.len(),
        double_blank_at(s, at),
        forall|i: int| at < i < n ==> !double_blank_at(s, i),
    ensures
        last_double_blank(s, n) == at,
    decreases n,
{
    if at < n - 1 {
        assert(!double_blank_at(s, n - 1));
        lemma_last_gap(s, (n - 1) as nat, at);
    }
}

/// A line with a numeric identifier and at least one count is reported with
/// their sum, under the identifier and the device.
pub proof fn law_line_reported(
    pad: Seq<char>,
    irq: Seq<char>,
    rest: Seq<char>,
    total: u64,
    found: nat,
    metadata: Seq<char>,
)
    requires
        all_space(pad),
        irq.len() > 0,
        ascii_digits(irq),
        leading_counts(rest, 0, 0) == (total, found, metadata),
    ensures
        found > 0 ==> line_samples(pad + irq + seq![':'] + rest) == seq![
            irq_sample(irq, device_in(trim_start_spec(metadata)), total),
        ],
        found == 0 ==> line_samples(pad + irq + seq![':'] + rest).len() == 0,
        is_counter(
            irq_sample(irq, device_in(trim_start_spec(metadata)), total),
            "nft_irq_total"@,
            no_labels().insert("irq"@, irq).insert(
                "device"@,
                device_in(trim_start_spec(metadata)),
            ),
            total,
        ),
{
    let line = pad + irq + seq![':'] + rest;
    let trimmed = irq + seq![':'] + rest;
    assert('0' <= irq[0] <= '9');
    assert('0' <= irq[irq.len() - 1] <= '9');
    assert(trimmed[0] == irq[0]);
    lemma_trim_front(pad, trimmed);
    assert(line =~= pad + trimmed);
    lemma_first_index(trimmed, ':');
    let c = first_index(trimmed, ':') as int;
    assert(trimmed[irq.len() as int] == ':');
    if c < irq.len() {
        assert(trimmed[c] == irq[c]);
        assert('0' <= irq[c] <= '9');
    }
    assert(c == irq.len());
    assert(trimmed.take(c) =~= irq);
    assert(trimmed.skip(c + 1) =~= rest);
    assert(seq![] + irq + seq![] =~= irq);
    law_trim_exact(seq![], irq, seq![]);
}

/// Lines stand for themselves, whatever stands around them.
pub proof fn law_lines_independent(first: Seq<Seq<char>>, second: Seq<Seq<char>>)
    ensures
        lines_samples(first + second) == lines_samples(first) + lines_samples(second),
    decreases second.len(),
{
    if second.len() == 0 {
        assert(first + second =~= first);
        assert(lines_samples(first) + lines_samples(second) =~= lines_samples(first));
    } else {
        law_lines_independent(first, second.drop_last());
        assert((first + second).drop_last() =~= first + second.drop_last());
        assert(lines_samples(first + second) =~= lines_samples(first) + lines_samples(second));
    }
}

/// Without a double blank there is no device.
pub proof fn law_no_gap_no_device(metadata: Seq<char>)
    requires
        forall|i: int| !double_blank_at(metadata, i),
    ensures
        device_in(metadata).len() == 0,
{
    lemma_no_gap(metadata, metadata.len());
}

proof fn lemma_no_gap(s: Seq<char>, n: nat)
    requires
        forall|i: int| !double_blank_at(s, i),
    ensures
        last_double_blank(s, n) == -1,
    decreases n,
{
    if n > 0 {
        lemma_no_gap(s, (n - 1) as nat);
    }
}

/// One line gives its own samples, and no line gives none.
pub proof fn law_single_line(line: Seq<char>)
    ensures
        lines_samples(seq![line]) == line_samples(line),
        lines_samples(seq![]).len() == 0,
{
    assert(seq![line].drop_last() =~= seq![]);
    assert(lines_samples(seq![line].drop_last()) =~= seq![]);
    assert(lines_samples(seq![line]) =~= line_samples(line));
}

} // verus!
