//! Byte queue limits of network devices.
//!
//! Each transmit queue of a device has a limit and a number of bytes in flight;
//! both are added up over the queues of a device.
use crate::labels::{no_labels, Labels};
use crate::metric::{
    gauge_view, holds, is_gauge, lemma_holds, lemma_holds_through, push_gauge, reads, views, whole,
    GaugeValue, MetricSample, SampleView,
};
use crate::procfs::irq::saturating_sum;
use crate::text::{
    all_space, chars_of, dec, digit_value, has_prefix, law_trim_exact, law_unsigned_round_trip,
    lemma_dec_digits, parse_unsigned, parsed_unsigned, starts_with, trim, trim_spec,
};
use vstd::prelude::*;

verus! {

/// What was read of one queue directory of a device.
#[derive(Clone, Debug)]
pub struct QueueReading {
    /// Name of the directory entry.
    pub entry: String,
    /// Contents of `byte_queue_limits/limit`, if it could be read.
    pub limit: Option<String>,
    /// Contents of `byte_queue_limits/inflight`, if it could be read.
    pub inflight: Option<String>,
}

/// What was read of one device.
#[derive(Clone, Debug)]
pub struct DeviceQueues {
    /// Device name.
    pub device: String,
    /// Its queues; `None` when they could not be listed.
    pub queues: Option<Vec<QueueReading>>,
}

/// The number in the contents of a file, if it is one.
pub open spec fn number_in(text: Option<String>) -> Option<u64> {
    match text {
        Some(text) => match parsed_unsigned(trim_spec(text@), 10, u64::MAX as nat) {
            Some(n) => Some(n as u64),
            None => None,
        },
        None => None,
    }
}

/// Reads a single unsigned number from the contents of a file; `None` when the
/// file could not be read or holds something else.
pub fn read_u64(text: &Option<String>) -> (r: Option<u64>)
    ensures
        r == number_in(*text),
{
    match text {
        Some(text) => {
            let chars = chars_of(text.as_str());
            parse_unsigned(trim(chars.as_slice()), 10)
        },
        None => None,
    }
}

/// The queue is a transmit queue.
pub open spec fn is_tx(q: QueueReading) -> bool {
    has_prefix(q.entry@, "tx-"@)
}

/// The sum of the limits of the first `k` queues, and of their bytes in flight,
/// and whether any transmit queue has a limit.
pub open spec fn queue_sums(queues: Seq<QueueReading>, k: nat) -> (u64, u64, bool)
    decreases k,
{
    if k == 0 {
        (0, 0, false)
    } else {
        let (limit, inflight, found) = queue_sums(queues, (k - 1) as nat);
        let q = queues[k - 1];
        if !is_tx(q) {
            (limit, inflight, found)
        } else {
            (
                match number_in(q.limit) {
                    Some(n) => saturating_sum(limit, n),
                    None => limit,
                },
                match number_in(q.inflight) {
                    Some(n) => saturating_sum(inflight, n),
                    None => inflight,
                },
                found || number_in(q.limit) is Some,
            )
        }
    }
}

/// The samples of one device; none without a transmit queue with a limit.
pub open spec fn device_samples(d: DeviceQueues) -> Seq<SampleView> {
    let labels = no_labels().insert("device"@, d.device@);
    match d.queues {
        Some(queues) => {
            let (limit, inflight, found) = queue_sums(queues@, queues@.len());
            if found {
                seq![
                    gauge_view(
                        "nft_nic_bql_limit_bytes"@,
                        "Sum of BQL TX-queue byte limits across all TX queues of the device (byte_queue_limits/limit, dynamic bufferbloat cap)."@,
                        labels,
                        whole(limit as int),
                    ),
                    gauge_view(
                        "nft_nic_bql_inflight_bytes"@,
                        "Sum of bytes currently in-flight to the device driver ring buffer across all TX queues (byte_queue_limits/inflight = num_queued - num_completed)."@,
                        labels,
                        whole(inflight as int),
                    ),
                ]
            } else {
                seq![]
            }
        },
        None => seq![],
    }
}

/// The samples of the first `k` devices.
pub open spec fn bql_samples(devices: Seq<DeviceQueues>, k: nat) -> Seq<SampleView>
    decreases k,
{
    if k == 0 {
        seq![]
    } else {
        bql_samples(devices, (k - 1) as nat) + device_samples(devices[k - 1])
    }
}

fn sum_queues(queues: &Vec<QueueReading>) -> (r: (u64, u64, bool))
    ensures
        r == queue_sums(queues@, queues@.len()),
{
    let mut limit: u64 = 0;
    let mut inflight: u64 = 0;
    let mut found = false;
    let mut i: usize = 0;
    while i < queues.len()
        invariant
            i <= queues.len(),
            (limit, inflight, found) == queue_sums(queues@, i as nat),
        decreases queues.len() - i,
    {
        let q = &queues[i];
        let entry = chars_of(q.entry.as_str());
        if starts_with(entry.as_slice(), "tx-") {
            if let Some(n) = read_u64(&q.limit) {
                limit = limit.saturating_add(n);
                found = true;
            }
            if let Some(n) = read_u64(&q.inflight) {
                inflight = inflight.saturating_add(n);
            }
        }
        i += 1;
    }
    (limit, inflight, found)
}

fn push_device(out: &mut Vec<MetricSample>, d: &DeviceQueues)
    ensures
        views(final(out)@) == views(old(out)@) + device_samples(*d),
{
    let ghost start = views(out@);
    if let Some(queues) = &d.queues {
        let (limit, inflight, found) = sum_queues(queues);
        if found {
            let labels = Labels::new().with("device", d.device.as_str());
            push_gauge(
                out,
                "nft_nic_bql_limit_bytes",
                "Sum of BQL TX-queue byte limits across all TX queues of the device (byte_queue_limits/limit, dynamic bufferbloat cap).",
                &labels,
                GaugeValue::Whole(limit as i128),
            );
            push_gauge(
                out,
                "nft_nic_bql_inflight_bytes",
                "Sum of bytes currently in-flight to the device driver ring buffer across all TX queues (byte_queue_limits/inflight = num_queued - num_completed).",
                &labels,
                GaugeValue::Whole(inflight as i128),
            );
        }
    }
    proof {
        assert(views(out@) =~= start + device_samples(*d));
    }
}

/// Builds the samples of all devices.
pub fn parse_devices(devices: &[DeviceQueues]) -> (r: Vec<MetricSample>)
    ensures
        views(r@) == bql_samples(devices@, devices@.len()),
{
    let mut out: Vec<MetricSample> = Vec::new();
    let mut i: usize = 0;
    proof {
        assert(views(out@) =~= bql_samples(devices@, 0));
    }
    while i < devices.len()
        invariant
            i <= devices.len(),
            views(out@) == bql_samples(devices@, i as nat),
        decreases devices.len() - i,
    {
        push_device(&mut out, &devices[i]);
        i += 1;
    }
    out
}

/// Collector for byte queue limits.
pub struct NicBqlCollector;

impl NicBqlCollector {
    /// Name of the collector.
    pub fn name(&self) -> (r: &'static str)
        ensures
            r@ == "nic_bql"@,
    {
        "nic_bql"
    }
}

/// The number of series is bounded by the number of devices, whatever the
/// number of queues.
pub proof fn law_two_samples_per_device(devices: Seq<DeviceQueues>, k: nat)
    ensures
        bql_samples(devices, k).len() <= 2 * k,
    decreases k,
{
    if k > 0 {
        law_two_samples_per_device(devices, (k - 1) as nat);
    }
}

/// The sums are those of the transmit queues: one more queue adds its two
/// numbers, each to its own sum, and a queue of another kind adds nothing.
pub proof fn law_queues_add_up(queues: Seq<QueueReading>, q: QueueReading)
    ensures
        ({
            let sums = queue_sums(queues, queues.len());
            let more = queue_sums(queues.push(q), queues.len() + 1);
            &&& !has_prefix(q.entry@, "tx-"@) ==> more == sums
            &&& has_prefix(q.entry@, "tx-"@) ==> {
                &&& more.0 == match number_in(q.limit) {
                    Some(n) => saturating_sum(sums.0, n),
                    None => sums.0,
                }
                &&& more.1 == match number_in(q.inflight) {
                    Some(n) => saturating_sum(sums.1, n),
                    None => sums.1,
                }
                &&& more.2 <==> sums.2 || number_in(q.limit) is Some
            }
        }),
        queue_sums(seq![], 0) == (0u64, 0u64, false),
{
    lemma_prefix_sums(queues, q, queues.len());
}

proof fn lemma_prefix_sums(queues: Seq<QueueReading>, q: QueueReading, k: nat)
    requires
        k <= queues.len(),
    ensures
        queue_sums(queues.push(q), k) == queue_sums(queues, k),
    decreases k,
{
    if k > 0 {
        lemma_prefix_sums(queues, q, (k - 1) as nat);
    }
}

/// The limit goes out as the limit and the bytes in flight as the bytes in
/// flight, for a device with a readable limit.
pub proof fn law_sums_named(d: DeviceQueues, queues: Vec<QueueReading>)
    requires
        d.queues == Some(queues),
    ensures
        ({
            let sums = queue_sums(queues@, queues@.len());
            let labels = no_labels().insert("device"@, d.device@);
            let s = device_samples(d);
            &&& !sums.2 ==> s.len() == 0
            &&& sums.2 ==> {
                &&& s.len() == 2
                &&& reads(
                    s,
                    "nft_nic_bql_limit_bytes"@,
                    labels,
                    GaugeValue::Whole(sums.0 as i128),
                )
                &&& reads(
                    s,
                    "nft_nic_bql_inflight_bytes"@,
                    labels,
                    GaugeValue::Whole(sums.1 as i128),
                )
            }
        }),
{
    let sums = queue_sums(queues@, queues@.len());
    let labels = no_labels().insert("device"@, d.device@);
    let s = device_samples(d);
    if sums.2 {
        assert(is_gauge(
            s[0],
            "nft_nic_bql_limit_bytes"@,
            labels,
            GaugeValue::Whole(sums.0 as i128),
        ));
        assert(is_gauge(
            s[1],
            "nft_nic_bql_inflight_bytes"@,
            labels,
            GaugeValue::Whole(sums.1 as i128),
        ));
    }
}

/// No device is lost.
pub proof fn law_devices_exported(devices: Seq<DeviceQueues>, k: nat, i: int)
    requires
        0 <= i < k <= devices.len(),
    ensures
        holds(bql_samples(devices, k), device_samples(devices[i])),
    decreases k,
{
    let all = bql_samples(devices, k);
    let earlier = bql_samples(devices, (k - 1) as nat);
    let last = device_samples(devices[k - 1]);
    if i == k - 1 {
        assert(all =~= earlier + last + seq![]);
        lemma_holds(all, earlier, last, seq![]);
    } else {
        law_devices_exported(devices, (k - 1) as nat, i);
        assert(all =~= seq![] + earlier + last);
        lemma_holds(all, seq![], earlier, last);
        lemma_holds_through(all, earlier, device_samples(devices[i]));
    }
}

/// A number is read with white space around it; without a number there is none.
pub proof fn law_number_read(text: String, left: Seq<char>, n: u64, right: Seq<char>)
    requires
        all_space(left),
        all_space(right),
        text@ == left + dec(n as nat) + right,
    ensures
        number_in(Some(text)) == Some(n),
        number_in(None) is None,
{
    let d = dec(n as nat);
    law_unsigned_round_trip(n);
    lemma_dec_digits(n as nat);
    assert(digit_value(d[0], 10) is Some && digit_value(d[d.len() - 1], 10) is Some);
    law_trim_exact(left, d, right);
}

/// A device whose queues cannot be listed is left out.
pub proof fn law_unlisted_left_out(d: DeviceQueues)
    requires
        d.queues is None,
    ensures
        device_samples(d).len() == 0,
{
}

} // verus!
