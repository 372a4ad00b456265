//! `PCIe` link and error counters of network devices.
//!
//! Only physical functions are read: virtual functions share the link of their
//! parent.  An error file holds a line for each kind of error and a summary
//! line, which is left out of the sum.
use crate::labels::{no_labels, Labels};
use crate::metric::{
    counter_view, counts, gauge_view, holds, is_counter, is_gauge, lemma_holds,
    lemma_holds_through, push_counter, push_gauge, reads, views, whole, GaugeValue, MetricSample,
    SampleView,
};
use crate::procfs::irq::saturating_sum;
use crate::text::{
    all_space, chars_of, dec, digit_value, find_char, first_index, has_prefix, is_space,
    law_limit_respected, law_trim_exact, law_unsigned_round_trip, law_words_separated,
    lemma_dec_digits, lemma_first_index, lines, lines_spec, no_space, parse_unsigned,
    parsed_unsigned, starts_with, string_of, trim, trim_spec, word_views, words, words_spec,
};
use vstd::prelude::*;
use vstd::slice::slice_subrange;

verus! {

/// What was read of one device.
#[derive(Clone, Debug)]
pub struct DeviceReading {
    /// Device name.
    pub device: String,
    /// Whether the link speed file could be read.
    pub speed_readable: bool,
    /// Whether the device is a virtual function.
    pub is_vf: bool,
    /// The link speed, if its file holds a number.
    pub link_speed: Option<GaugeValue>,
    /// Contents of `current_link_width`, if it could be read.
    pub link_width: Option<String>,
    /// Contents of `aer_dev_correctable`, if it could be read.
    pub correctable: Option<String>,
    /// Contents of `aer_dev_fatal`, if it could be read.
    pub fatal: Option<String>,
    /// Contents of `aer_dev_nonfatal`, if it could be read.
    pub nonfatal: Option<String>,
}

/// Whether a device is read: it must be a `PCIe` endpoint and no virtual function.
pub fn should_collect(speed_readable: bool, is_vf: bool) -> (r: bool)
    ensures
        r == (speed_readable && !is_vf),
{
    speed_readable && !is_vf
}

/// The word that writes the link speed: the first of the text.
pub open spec fn speed_word(text: Seq<char>) -> Option<Seq<char>> {
    let ws = words_spec(trim_spec(text));
    if ws.len() == 0 {
        None
    } else {
        Some(ws[0])
    }
}

/// Finds the word that writes the link speed.
pub fn link_speed_token(text: &str) -> (r: Option<String>)
    ensures
        r is Some <==> speed_word(text@) is Some,
        r matches Some(s) ==> speed_word(text@) == Some(s@),
{
    let chars = chars_of(text);
    let ws = words(trim(chars.as_slice()));
    let ghost specs = words_spec(trim_spec(text@));
    proof {
        assert(specs.len() == ws@.len());
    }
    if ws.len() == 0 {
        None
    } else {
        proof {
            assert(specs[0] == ws@[0]@);
        }
        Some(string_of(ws[0].as_slice()))
    }
}

/// The number of lanes in the contents of a file, if it is a 32-bit number.
pub open spec fn width_in(text: Option<String>) -> Option<nat> {
    match text {
        Some(text) => parsed_unsigned(trim_spec(text@), 10, u32::MAX as nat),
        None => None,
    }
}

/// What a line adds to the sum: the number after its first blank.  A line
/// without a key, the summary line, and a line without a number add nothing.
pub open spec fn line_count(line: Seq<char>) -> Option<u64> {
    let i = first_index(line, ' ') as int;
    let key = line.take(i);
    if i == 0 || i >= line.len() || has_prefix(key, "TOTAL_"@) {
        None
    } else {
        match parsed_unsigned(trim_spec(line.skip(i + 1)), 10, u64::MAX as nat) {
            Some(n) => Some(n as u64),
            None => None,
        }
    }
}

/// The sum of all lines.
pub open spec fn aer_sum(all: Seq<Seq<char>>) -> u64
    decreases all.len(),
{
    if all.len() == 0 {
        0
    } else {
        match line_count(all.last()) {
            Some(n) => saturating_sum(aer_sum(all.drop_last()), n),
            None => aer_sum(all.drop_last()),
        }
    }
}

/// The sample of an error file; none when it could not be read.
pub open spec fn aer_samples(
    text: Option<String>,
    name: Seq<char>,
    help: Seq<char>,
    labels: Map<Seq<char>, Seq<char>>,
) -> Seq<SampleView> {
    match text {
        Some(text) => seq![counter_view(name, help, labels, aer_sum(lines_spec(text@)))],
        None => seq![],
    }
}

fn count_line(line: &[char]) -> (r: Option<u64>)
    ensures
        r == line_count(line@),
{
    let i: usize = find_char(line, 0, ' ');
    proof {
        assert(line@.skip(0) =~= line@);
    }
    if i == 0 || i >= line.len() {
        return None;
    }
    let key = slice_subrange(line, 0, i);
    proof {
        assert(key@ =~= line@.take(i as int));
    }
    if starts_with(key, "TOTAL_") {
        return None;
    }
    let value = slice_subrange(line, i + 1, line.len());
    proof {
        assert(value@ =~= line@.skip(i as int + 1));
    }
    parse_unsigned(trim(value), 10)
}

/// Adds up the counts of an error file.
pub fn sum_aer(text: &str) -> (r: u64)
    ensures
        r == aer_sum(lines_spec(text@)),
{
    let chars = chars_of(text);
    let all = lines(chars.as_slice());
    let ghost specs = lines_spec(text@);
    let mut sum: u64 = 0;
    let mut i: usize = 0;
    proof {
        assert(specs.take(0) =~= seq![]);
    }
    while i < all.len()
        invariant
            i <= all.len(),
            word_views(all@) == specs,
            sum == aer_sum(specs.take(i as int)),
        decreases all.len() - i,
    {
        proof {
            assert(specs.take(i as int + 1).drop_last() =~= specs.take(i as int));
            assert(specs[i as int] == all@[i as int]@);
        }
        if let Some(n) = count_line(all[i].as_slice()) {
            sum = sum.saturating_add(n);
        }
        i += 1;
    }
    proof {
        assert(specs.take(i as int) =~= specs);
    }
    sum
}

/// Appends the sample of an error file.  A file that can be read yields a
/// sample even when no error is counted in it.
pub fn collect_aer(
    text: &Option<String>,
    metric_name: &'static str,
    help: &'static str,
    base_labels: &Labels,
    out: &mut Vec<MetricSample>,
)
    ensures
        views(final(out)@) == views(old(out)@) + aer_samples(
            *text,
            metric_name@,
            help@,
            base_labels@,
        ),
{
    let ghost start = views(out@);
    if let Some(text) = text {
        push_counter(out, metric_name, help, base_labels, sum_aer(text.as_str()));
    }
    proof {
        assert(views(out@) =~= start + aer_samples(*text, metric_name@, help@, base_labels@));
    }
}

/// The samples of one device; none when it is not read.
pub open spec fn device_samples(d: DeviceReading) -> Seq<SampleView> {
    let labels = no_labels().insert("device"@, d.device@);
    if !d.speed_readable || d.is_vf {
        seq![]
    } else {
        (match d.link_speed {
            Some(speed) => seq![
                gauge_view(
                    "nft_nic_pcie_link_speed_gts"@,
                    "PCIe current link speed in GT/s (from sysfs current_link_speed)."@,
                    labels,
                    speed,
                ),
            ],
            None => seq![],
        }) + (match width_in(d.link_width) {
            Some(width) => seq![
                gauge_view(
                    "nft_nic_pcie_link_width"@,
                    "PCIe current link width (number of lanes, from sysfs current_link_width)."@,
                    labels,
                    whole(width as int),
                ),
            ],
            None => seq![],
        }) + aer_samples(
            d.correctable,
            "nft_nic_pcie_aer_correctable_total"@,
            "PCIe AER correctable error event count, aggregated across all error bits; TOTAL_ summary excluded (from sysfs aer_dev_correctable)."@,
            labels,
        ) + aer_samples(
            d.fatal,
            "nft_nic_pcie_aer_fatal_total"@,
            "PCIe AER fatal uncorrectable error event count, aggregated across all error bits; TOTAL_ summary excluded (from sysfs aer_dev_fatal)."@,
            labels,
        ) + aer_samples(
            d.nonfatal,
            "nft_nic_pcie_aer_nonfatal_total"@,
            "PCIe AER non-fatal uncorrectable error event count, aggregated across all error bits; TOTAL_ summary excluded (from sysfs aer_dev_nonfatal)."@,
            labels,
        )
    }
}

/// Appends the samples of one device.
pub fn collect_dev(d: &DeviceReading, out: &mut Vec<MetricSample>)
    ensures
        views(final(out)@) == views(old(out)@) + device_samples(*d),
{
    let ghost start = views(out@);
    if !should_collect(d.speed_readable, d.is_vf) {
        proof {
            assert(start + device_samples(*d) =~= start);
        }
        return;
    }
    let labels = Labels::new().with("device", d.device.as_str());
    if let Some(speed) = d.link_speed {
        push_gauge(
            out,
            "nft_nic_pcie_link_speed_gts",
            "PCIe current link speed in GT/s (from sysfs current_link_speed).",
            &labels,
            speed,
        );
    }
    if let Some(text) = &d.link_width {
        let chars = chars_of(text.as_str());
        if let Some(width) = parse_unsigned(trim(chars.as_slice()), 10) {
            if width <= 0xffff_ffff {
                push_gauge(
                    out,
                    "nft_nic_pcie_link_width",
                    "PCIe current link width (number of lanes, from sysfs current_link_width).",
                    &labels,
                    GaugeValue::Whole(width as i128),
                );
            }
        }
    }
    collect_aer(
        &d.correctable,
        "nft_nic_pcie_aer_correctable_total",
        "PCIe AER correctable error event count, aggregated across all error bits; TOTAL_ summary excluded (from sysfs aer_dev_correctable).",
        &labels,
        out,
    );
    collect_aer(
        &d.fatal,
        "nft_nic_pcie_aer_fatal_total",
        "PCIe AER fatal uncorrectable error event count, aggregated across all error bits; TOTAL_ summary excluded (from sysfs aer_dev_fatal).",
        &labels,
        out,
    );
    collect_aer(
        &d.nonfatal,
        "nft_nic_pcie_aer_nonfatal_total",
        "PCIe AER non-fatal uncorrectable error event count, aggregated across all error bits; TOTAL_ summary excluded (from sysfs aer_dev_nonfatal).",
        &labels,
        out,
    );
    proof {
        assert(views(out@) =~= start + device_samples(*d));
    }
}

/// The samples of the first `k` devices.
pub open spec fn pcie_samples(devices: Seq<DeviceReading>, k: nat) -> Seq<SampleView>
    decreases k,
{
    if k == 0 {
        seq![]
    } else {
        pcie_samples(devices, (k - 1) as nat) + device_samples(devices[k - 1])
    }
}

/// Builds the samples of all devices.
pub fn parse_all(devices: &[DeviceReading]) -> (r: Vec<MetricSample>)
    ensures
        views(r@) == pcie_samples(devices@, devices@.len()),
{
    let mut out: Vec<MetricSample> = Vec::new();
    let mut i: usize = 0;
    proof {
        assert(views(out@) =~= pcie_samples(devices@, 0));
    }
    while i < devices.len()
        invariant
            i <= devices.len(),
            views(out@) == pcie_samples(devices@, i as nat),
        decreases devices.len() - i,
    {
        collect_dev(&devices[i], &mut out);
        i += 1;
    }
    out
}

/// Collector for `PCIe` links and errors.
pub struct NicPcieCollector;

impl NicPcieCollector {
    /// Name of the collector.
    pub fn name(&self) -> (r: &'static str)
        ensures
            r@ == "nic_pcie"@,
    {
        "nic_pcie"
    }
}

// ---------------------------------------------------------------------------
// Laws
// ---------------------------------------------------------------------------

/// The summary line never counts: a line whose key starts with `TOTAL_` leaves
/// the sum as it is.
pub proof fn law_summary_not_counted(all: Seq<Seq<char>>, line: Seq<char>)
    requires
        has_prefix(line, "TOTAL_"@),
    ensures
        aer_sum(all.push(line)) == aer_sum(all),
{
    reveal_strlit("TOTAL_");
    assert(all.push(line).drop_last() =~= all);
    let i = first_index(line, ' ') as int;
    crate::text::lemma_first_index(line, ' ');
    let prefix = "TOTAL_"@;
    assert forall|j: int| 0 <= j < 6 implies line[j] != ' ' by {
        assert(line.take(6)[j] == prefix[j]);
    }
    if i < line.len() {
        assert(i >= 6) by {
            if i < 6 {
                assert(line[i] == ' ');
            }
        }
        assert(line.take(i).take(6) =~= prefix) by {
            assert(line.take(i).take(6) =~= line.take(6));
        }
    }
}

/// Virtual functions are never read, whatever their files hold.
pub proof fn law_virtual_functions_skipped(d: DeviceReading)
    requires
        d.is_vf,
    ensures
        device_samples(d).len() == 0,
{
}

/// A device gives at most five samples, all with the device as their only
/// label.
pub proof fn law_device_bounded(d: DeviceReading)
    ensures
        device_samples(d).len() <= 5,
        forall|i: int|
            0 <= i < device_samples(d).len() ==> (#[trigger] device_samples(d)[i]).labels
                == no_labels().insert("device"@, d.device@),
{
}

/// Every error count adds to the sum: a line of a name and a number adds that
/// number, unless it is a summary.
pub proof fn law_errors_add_up(all: Seq<Seq<char>>, key: Seq<char>, n: u64)
    requires
        key.len() > 0,
        !key.contains(' '),
    ensures
        !has_prefix(key, "TOTAL_"@) ==> aer_sum(all.push(key + seq![' '] + dec(n as nat)))
            == saturating_sum(aer_sum(all), n),
        aer_sum(seq![]) == 0,
{
    let d = dec(n as nat);
    let line = key + seq![' '] + d;
    assert(all.push(line).drop_last() =~= all);
    lemma_first_index(line, ' ');
    let i = first_index(line, ' ') as int;
    assert(line[key.len() as int] == ' ');
    if i < key.len() {
        assert(line[i] == key[i]);
    }
    assert(i == key.len());
    assert(line.take(i) =~= key);
    assert(line.skip(i + 1) =~= d);
    law_unsigned_round_trip(n);
    lemma_dec_digits(n as nat);
    assert(digit_value(d[0], 10) is Some && digit_value(d[d.len() - 1], 10) is Some);
    assert(seq![] + d + seq![] =~= d);
    law_trim_exact(seq![], d, seq![]);
}

/// Every reading of a physical function goes out under its own name: the speed
/// and the width of the link, and the three sums of errors.
pub proof fn law_readings_named(
    d: DeviceReading,
    speed: GaugeValue,
    width: nat,
    correctable: String,
    fatal: String,
    nonfatal: String,
    labels: Map<Seq<char>, Seq<char>>,
    s: Seq<SampleView>,
)
    requires
        d.speed_readable,
        !d.is_vf,
        d.link_speed == Some(speed),
        width_in(d.link_width) == Some(width),
        d.correctable == Some(correctable),
        d.fatal == Some(fatal),
        d.nonfatal == Some(nonfatal),
        labels == no_labels().insert("device"@, d.device@),
        s == device_samples(d),
    ensures
        s.len() == 5,
        reads(s, "nft_nic_pcie_link_speed_gts"@, labels, speed),
        reads(s, "nft_nic_pcie_link_width"@, labels, GaugeValue::Whole(width as i128)),
        counts(
            s,
            "nft_nic_pcie_aer_correctable_total"@,
            labels,
            aer_sum(lines_spec(correctable@)),
        ),
        counts(s, "nft_nic_pcie_aer_fatal_total"@, labels, aer_sum(lines_spec(fatal@))),
        counts(s, "nft_nic_pcie_aer_nonfatal_total"@, labels, aer_sum(lines_spec(nonfatal@))),
{
    assert(is_gauge(s[0], "nft_nic_pcie_link_speed_gts"@, labels, speed));
    assert(is_gauge(s[1], "nft_nic_pcie_link_width"@, labels, GaugeValue::Whole(width as i128)));
    assert(is_counter(
        s[2],
        "nft_nic_pcie_aer_correctable_total"@,
        labels,
        aer_sum(lines_spec(correctable@)),
    ));
    assert(is_counter(
        s[3],
        "nft_nic_pcie_aer_fatal_total"@,
        labels,
        aer_sum(lines_spec(fatal@)),
    ));
    assert(is_counter(
        s[4],
        "nft_nic_pcie_aer_nonfatal_total"@,
        labels,
        aer_sum(lines_spec(nonfatal@)),
    ));
}

/// The speed is the number in front of its unit.
pub proof fn law_speed_before_unit(left: Seq<char>, speed: Seq<char>, unit: Seq<char>)
    requires
        all_space(left),
        speed.len() > 0,
        no_space(speed),
        unit.len() > 0,
        !is_space(unit.last()),
    ensures
        speed_word(left + speed + seq![' '] + unit) == Some(speed),
{
    let core = speed + seq![' '] + unit;
    assert(!is_space(speed[0]));
    assert(core[0] == speed[0]);
    assert(core.last() == unit.last());
    assert(left + speed + seq![' '] + unit =~= left + core + seq![]);
    law_trim_exact(left, core, seq![]);
    law_words_separated(speed, ' ', unit);
}

/// No device is lost.
pub proof fn law_devices_exported(devices: Seq<DeviceReading>, k: nat, i: int)
    requires
        0 <= i < k <= devices.len(),
    ensures
        holds(pcie_samples(devices, k), device_samples(devices[i])),
    decreases k,
{
    let all = pcie_samples(devices, k);
    let earlier = pcie_samples(devices, (k - 1) as nat);
    let last = device_samples(devices[k - 1]);
    if i == k - 1 {
        assert(all =~= earlier + last + seq![]);
        lemma_holds(all, earlier, last, seq![]);
    } else {
        law_devices_exported(devices, (k - 1) as nat, i);
        assert(all =~= seq![] + earlier + last);
        lemma_holds(all, seq![], earlier, last);
        lemma_holds_through(all, earlier, device_samples(devices[i]));
    }
}

/// A width is a decimal number with white space around it.
pub proof fn law_width_read(text: String, left: Seq<char>, n: u32, right: Seq<char>)
    requires
        all_space(left),
        all_space(right),
        text@ == left + dec(n as nat) + right,
    ensures
        width_in(Some(text)) == Some(n as nat),
        width_in(None) is None,
{
    let d = dec(n as nat);
    law_limit_respected(n as nat, u32::MAX as nat);
    lemma_dec_digits(n as nat);
    assert(digit_value(d[0], 10) is Some && digit_value(d[d.len() - 1], 10) is Some);
    law_trim_exact(left, d, right);
}

/// A line without a name or without a blank counts for nothing.
pub proof fn law_nameless_not_counted(all: Seq<Seq<char>>, line: Seq<char>)
    requires
        line.len() == 0 || line[0] == ' ' || !line.contains(' '),
    ensures
        aer_sum(all.push(line)) == aer_sum(all),
{
    assert(all.push(line).drop_last() =~= all);
    lemma_first_index(line, ' ');
    let i = first_index(line, ' ') as int;
    if i < line.len() {
        assert(line[i] == ' ');
    }
}

/// Where a reading is missing, only its own sample is missing.
pub proof fn law_missing_readings(d: DeviceReading)
    requires
        d.speed_readable,
        !d.is_vf,
    ensures
        device_samples(d).len() == (if d.link_speed is Some {
            1nat
        } else {
            0nat
        }) + (if width_in(d.link_width) is Some {
            1nat
        } else {
            0nat
        }) + (if d.correctable is Some {
            1nat
        } else {
            0nat
        }) + (if d.fatal is Some {
            1nat
        } else {
            0nat
        }) + (if d.nonfatal is Some {
            1nat
        } else {
            0nat
        }),
{
}

} // verus!
