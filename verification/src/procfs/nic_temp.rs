//! Temperatures of network devices, from hwmon.
//!
//! A sensor file holds thousandths of a degree Celsius.
use crate::labels::{no_labels, Labels};
use crate::metric::{
    gauge_view, holds, is_gauge, lemma_holds, lemma_holds_through, push_gauge, views, GaugeValue,
    MetricSample, SampleView,
};
use crate::text::{
    all_space, chars_of, dec, digit_value, join2, law_signed_round_trip, law_trim_exact,
    lemma_dec_digits, parse_i64, parsed_i64, push_dec, signed_dec, string_of, trim, trim_spec,
};
use vstd::prelude::*;
use vstd::string::*;

verus! {

/// Number of sensor channels that are tried for each hwmon instance.
pub const MAX_TEMP_SENSORS: u32 = 8;

/// What was read of one sensor channel.
#[derive(Clone, Debug)]
pub struct SensorReading {
    /// Device name.
    pub device: String,
    /// Name of the chip, if its file could be read.
    pub chip_name: Option<String>,
    /// Channel number.
    pub channel: u32,
    /// Contents of the sensor file, if it could be read.
    pub raw: Option<String>,
}

/// The label of a sensor: the chip name in front where it is known and not empty.
pub open spec fn sensor_text(chip: Option<Seq<char>>, channel: nat) -> Seq<char> {
    match chip {
        Some(name) if name.len() > 0 => name + "_temp"@ + dec(channel),
        _ => "temp"@ + dec(channel),
    }
}

/// The view of an optional string slice.
pub open spec fn opt_str(s: Option<&str>) -> Option<Seq<char>> {
    match s {
        Some(s) => Some(s@),
        None => None,
    }
}

/// The label of a sensor channel.
pub fn sensor_label(chip: Option<&str>, channel: u32) -> (r: String)
    ensures
        r@ == sensor_text(opt_str(chip), channel as nat),
{
    let mut r = match chip {
        Some(name) => {
            if name.is_empty() {
                "temp".to_owned()
            } else {
                join2(name, "_temp")
            }
        },
        None => "temp".to_owned(),
    };
    push_dec(&mut r, channel as u64);
    r
}

/// The trimmed contents of a file, if it could be read.
pub open spec fn optional_text(text: Option<String>) -> Option<Seq<char>> {
    match text {
        Some(text) => Some(trim_spec(text@)),
        None => None,
    }
}

/// Trims the contents of an optional file.
pub fn read_optional_text(text: &Option<String>) -> (r: Option<String>)
    ensures
        r is Some <==> optional_text(*text) is Some,
        r matches Some(s) ==> optional_text(*text) == Some(s@),
{
    match text {
        Some(text) => {
            let chars = chars_of(text.as_str());
            Some(string_of(trim(chars.as_slice())))
        },
        None => None,
    }
}

/// The samples of one sensor channel; none when its file could not be read or
/// holds no number.
pub open spec fn sensor_samples(s: SensorReading) -> Seq<SampleView> {
    match s.raw {
        Some(raw) => match parsed_i64(trim_spec(raw@)) {
            Some(millidegrees) => seq![
                gauge_view(
                    "nft_nic_temperature_celsius"@,
                    "NIC hardware temperature in degrees Celsius (hwmon sysfs, millidegrees / 1000)."@,
                    no_labels().insert("device"@, s.device@).insert(
                        "sensor"@,
                        sensor_text(optional_text(s.chip_name), s.channel as nat),
                    ),
                    GaugeValue::Thousandths(millidegrees as i64),
                ),
            ],
            None => seq![],
        },
        None => seq![],
    }
}

/// The samples of the first `k` channels.
pub open spec fn temp_samples(sensors: Seq<SensorReading>, k: nat) -> Seq<SampleView>
    decreases k,
{
    if k == 0 {
        seq![]
    } else {
        temp_samples(sensors, (k - 1) as nat) + sensor_samples(sensors[k - 1])
    }
}

fn push_sensor(out: &mut Vec<MetricSample>, s: &SensorReading)
    ensures
        views(final(out)@) == views(old(out)@) + sensor_samples(*s),
{
    let ghost start = views(out@);
    if let Some(raw) = &s.raw {
        let chars = chars_of(raw.as_str());
        if let Some(millidegrees) = parse_i64(trim(chars.as_slice())) {
            let chip = read_optional_text(&s.chip_name);
            let sensor = match &chip {
                Some(name) => sensor_label(Some(name.as_str()), s.channel),
                None => sensor_label(None, s.channel),
            };
            let labels = Labels::new().with("device", s.device.as_str()).with(
                "sensor",
                sensor.as_str(),
            );
            push_gauge(
                out,
                "nft_nic_temperature_celsius",
                "NIC hardware temperature in degrees Celsius (hwmon sysfs, millidegrees / 1000).",
                &labels,
                GaugeValue::Thousandths(millidegrees),
            );
        }
    }
    proof {
        assert(views(out@) =~= start + sensor_samples(*s));
    }
}

/// Builds the samples of all sensor channels.
pub fn collect_all(sensors: &[SensorReading]) -> (r: Vec<MetricSample>)
    ensures
        views(r@) == temp_samples(sensors@, sensors@.len()),
{
    let mut out: Vec<MetricSample> = Vec::new();
    let mut i: usize = 0;
    proof {
        assert(views(out@) =~= temp_samples(sensors@, 0));
    }
    while i < sensors.len()
        invariant
            i <= sensors.len(),
            views(out@) == temp_samples(sensors@, i as nat),
        decreases sensors.len() - i,
    {
        push_sensor(&mut out, &sensors[i]);
        i += 1;
    }
    out
}

/// Collector for device temperatures.
pub struct NicTempCollector;

impl NicTempCollector {
    /// Name of the collector.
    pub fn name(&self) -> (r: &'static str)
        ensures
            r@ == "nic_temp"@,
    {
        "nic_temp"
    }
}

/// A sensor gives at most one sample, so the number of series is bounded by the
/// number of sensors.
pub proof fn law_one_sample_per_sensor(sensors: Seq<SensorReading>, k: nat)
    ensures
        temp_samples(sensors, k).len() <= k,
    decreases k,
{
    if k > 0 {
        law_one_sample_per_sensor(sensors, (k - 1) as nat);
    }
}

/// Chips with different names never share the sensor label of a channel.
pub proof fn law_sensor_labels_distinct(a: Seq<char>, b: Seq<char>, channel: nat)
    requires
        a.len() > 0,
        b.len() > 0,
        sensor_text(Some(a), channel) == sensor_text(Some(b), channel),
    ensures
        a == b,
{
    let tail = "_temp"@ + dec(channel);
    assert(a + "_temp"@ + dec(channel) =~= a + tail);
    assert(b + "_temp"@ + dec(channel) =~= b + tail);
    let x = a + tail;
    let y = b + tail;
    assert(x.len() == y.len());
    assert(x.take(a.len() as int) =~= a);
    assert(y.take(b.len() as int) =~= b);
}

/// A reading in thousandths of a degree goes out as it is, whatever white space
/// stands around it, under its device and its sensor.
pub proof fn law_reading_exact(
    s: SensorReading,
    raw: String,
    n: i64,
    left: Seq<char>,
    right: Seq<char>,
)
    requires
        s.raw == Some(raw),
        all_space(left),
        all_space(right),
        raw@ == left + signed_dec(n as int) + right,
    ensures
        sensor_samples(s).len() == 1,
        is_gauge(
            sensor_samples(s)[0],
            "nft_nic_temperature_celsius"@,
            no_labels().insert("device"@, s.device@).insert(
                "sensor"@,
                sensor_text(optional_text(s.chip_name), s.channel as nat),
            ),
            GaugeValue::Thousandths(n),
        ),
{
    let text = signed_dec(n as int);
    law_signed_round_trip(n);
    lemma_dec_digits(if n < 0 {
        (-n) as nat
    } else {
        n as nat
    });
    let d = dec(
        if n < 0 {
            (-n) as nat
        } else {
            n as nat
        },
    );
    assert(digit_value(d[0], 10) is Some && digit_value(d[d.len() - 1], 10) is Some);
    assert(text.last() == d.last());
    law_trim_exact(left, text, right);
}

/// A sensor is named after its chip, where that has a name, and its channel.
pub proof fn law_sensor_named(chip: Seq<char>, channel: nat)
    ensures
        chip.len() > 0 ==> sensor_text(Some(chip), channel) == chip + seq![
            '_',
            't',
            'e',
            'm',
            'p',
        ] + dec(channel),
        sensor_text(None, channel) == seq!['t', 'e', 'm', 'p'] + dec(channel),
        sensor_text(Some(seq![]), channel) == sensor_text(None, channel),
{
    reveal_strlit("_temp");
    reveal_strlit("temp");
    assert("_temp"@ =~= seq!['_', 't', 'e', 'm', 'p']);
    assert("temp"@ =~= seq!['t', 'e', 'm', 'p']);
}

/// No sensor is lost.
pub proof fn law_sensors_exported(sensors: Seq<SensorReading>, k: nat, i: int)
    requires
        0 <= i < k <= sensors.len(),
    ensures
        holds(temp_samples(sensors, k), sensor_samples(sensors[i])),
    decreases k,
{
    let all = temp_samples(sensors, k);
    let earlier = temp_samples(sensors, (k - 1) as nat);
    let last = sensor_samples(sensors[k - 1]);
    if i == k - 1 {
        assert(all =~= earlier + last + seq![]);
        lemma_holds(all, earlier, last, seq![]);
    } else {
        law_sensors_exported(sensors, (k - 1) as nat, i);
        assert(all =~= seq![] + earlier + last);
        lemma_holds(all, seq![], earlier, last);
        lemma_holds_through(all, earlier, sensor_samples(sensors[i]));
    }
}

/// A sensor that cannot be read is left out.
pub proof fn law_unreadable_left_out(s: SensorReading)
    ensures
        s.raw is None ==> sensor_samples(s).len() == 0,
        s.raw matches Some(raw) ==> (parsed_i64(trim_spec(raw@)) is None ==> sensor_samples(
            s,
        ).len() == 0),
{
}

} // verus!
