//! Turning GNSS readings into position fixes, and the status lights that
//! follow them.
use vstd::prelude::*;
use crate::types::{Reading, LocationFix};

verus! {

/// What a GNSS channel measures.
#[derive(PartialEq, Eq, Debug, Clone, Copy)]
pub enum ChannelLabel {
    Latitude,
    Longitude,
    Altitude,
    Other,
}

/// One sample of a GNSS reading: its channel, its integer value if the
/// sample could be read, and the channel's decimal scaling.
#[derive(Clone, Copy)]
pub struct ChannelSample {
    pub label: ChannelLabel,
    pub value: Option<i32>,
    pub scaling: i8,
}

/// The last readable sample of channel `label`, if any.
pub open spec fn last_reading(samples: Seq<ChannelSample>, label: ChannelLabel) -> Option<Reading>
    decreases samples.len(),
{
    if samples.len() == 0 {
        None
    } else if samples.last().label == label && samples.last().value is Some {
        Some(Reading { value: samples.last().value.unwrap(), scaling: samples.last().scaling })
    } else {
        last_reading(samples.drop_last(), label)
    }
}

/// The fix a reading gives: complete when its time of fix and a latitude, a
/// longitude and an altitude sample could all be read.
pub open spec fn fix_of(time_of_fix: Option<u64>, samples: Seq<ChannelSample>) -> Option<LocationFix> {
    match (
        time_of_fix,
        last_reading(samples, ChannelLabel::Latitude),
        last_reading(samples, ChannelLabel::Longitude),
        last_reading(samples, ChannelLabel::Altitude),
    ) {
        (Some(t), Some(lat), Some(lon), Some(alt)) => Some(
            LocationFix { latitude: lat, longitude: lon, altitude: alt, time_of_fix: t },
        ),
        _ => None,
    }
}

/// Sample `i` is the last readable sample of channel `label`: it is of that
/// channel, its value could be read, and no later sample of the channel could.
pub open spec fn is_last_readable(s: Seq<ChannelSample>, label: ChannelLabel, i: int) -> bool {
    &&& 0 <= i < s.len()
    &&& s[i].label == label
    &&& s[i].value is Some
    &&& forall|j: int| i < j < s.len() ==> !((#[trigger] s[j]).label == label && s[j].value is Some)
}

/// The reading a readable sample gives: its value and its scaling.
pub open spec fn sample_reading(s: ChannelSample) -> Reading {
    Reading { value: s.value.unwrap(), scaling: s.scaling }
}

/// Some sample of channel `label` could be read.
pub open spec fn has_readable(s: Seq<ChannelSample>, label: ChannelLabel) -> bool {
    exists|i: int| 0 <= i < s.len() && (#[trigger] s[i]).label == label && s[i].value is Some
}

proof fn lemma_last_reading_found(s: Seq<ChannelSample>, label: ChannelLabel)
    ensures
        (last_reading(s, label) is Some) <==> has_readable(s, label),
        forall|i: int|
            #[trigger] is_last_readable(s, label, i) ==> last_reading(s, label) == Some(sample_reading(s[i])),
    decreases s.len(),
{
    if s.len() > 0 {
        let d = s.drop_last();
        let n = s.len() - 1;
        lemma_last_reading_found(d, label);
        assert forall|j: int| 0 <= j < d.len() implies #[trigger] d[j] == s[j] by {}
        if s.last().label == label && s.last().value is Some {
            assert forall|i: int| #[trigger] is_last_readable(s, label, i) implies i == n by {
                if i < n {
                    assert(s[n].label == label && s[n].value is Some);
                }
            }
        } else {
            if has_readable(s, label) {
                let i = choose|i: int| 0 <= i < s.len() && (#[trigger] s[i]).label == label && s[i].value is Some;
                assert(i < n);
                assert(d[i] == s[i]);
            }
            assert forall|i: int| #[trigger] is_last_readable(s, label, i) implies is_last_readable(d, label, i) by {
                assert(i < n);
                assert forall|j: int| i < j < d.len() implies !((#[trigger] d[j]).label == label && d[j].value is Some) by {
                    assert(d[j] == s[j]);
                }
            }
        }
    }
}

/// A reading gives a fix exactly when its time of fix is known and a
/// latitude, a longitude and an altitude sample could each be read. The fix
/// then has that time, and each of its channels the value and the scaling of
/// the last readable sample of that same channel.
pub proof fn law_fix_channels(time_of_fix: Option<u64>, samples: Seq<ChannelSample>)
    ensures
        (fix_of(time_of_fix, samples) is Some) <==> ((time_of_fix is Some) && has_readable(
            samples,
            ChannelLabel::Latitude,
        ) && has_readable(samples, ChannelLabel::Longitude) && has_readable(samples, ChannelLabel::Altitude)),
        fix_of(time_of_fix, samples) matches Some(f) ==> f.time_of_fix == time_of_fix.unwrap(),
        forall|i: int|
            #[trigger] is_last_readable(samples, ChannelLabel::Latitude, i) ==> (fix_of(time_of_fix, samples) matches Some(
                f,
            ) ==> f.latitude == sample_reading(samples[i])),
        forall|i: int|
            #[trigger] is_last_readable(samples, ChannelLabel::Longitude, i) ==> (fix_of(time_of_fix, samples) matches Some(
                f,
            ) ==> f.longitude == sample_reading(samples[i])),
        forall|i: int|
            #[trigger] is_last_readable(samples, ChannelLabel::Altitude, i) ==> (fix_of(time_of_fix, samples) matches Some(
                f,
            ) ==> f.altitude == sample_reading(samples[i])),
{
    lemma_last_reading_found(samples, ChannelLabel::Latitude);
    lemma_last_reading_found(samples, ChannelLabel::Longitude);
    lemma_last_reading_found(samples, ChannelLabel::Altitude);
}

/// The fix that one GNSS reading gives, if it is complete.
pub fn assemble_fix(time_of_fix: Option<u64>, samples: &Vec<ChannelSample>) -> (r: Option<LocationFix>)
    ensures
        r == fix_of(time_of_fix, samples@),
{
    let mut lat: Option<Reading> = None;
    let mut lon: Option<Reading> = None;
    let mut alt: Option<Reading> = None;
    let mut i: usize = 0;
    while i < samples.len()
        invariant
            i <= samples@.len(),
            lat == last_reading(samples@.take(i as int), ChannelLabel::Latitude),
            lon == last_reading(samples@.take(i as int), ChannelLabel::Longitude),
            alt == last_reading(samples@.take(i as int), ChannelLabel::Altitude),
        decreases samples.len() - i,
    {
        let s = samples[i];
        proof {
            assert(samples@.take(i + 1).drop_last() =~= samples@.take(i as int));
            assert(samples@.take(i + 1).last() == s);
        }
        match s.value {
            Some(v) => match s.label {
                ChannelLabel::Latitude => {
                    lat = Some(Reading { value: v, scaling: s.scaling });
                },
                ChannelLabel::Longitude => {
                    lon = Some(Reading { value: v, scaling: s.scaling });
                },
                ChannelLabel::Altitude => {
                    alt = Some(Reading { value: v, scaling: s.scaling });
                },
                ChannelLabel::Other => {},
            },
            None => {},
        }
        i += 1;
    }
    assert(samples@.take(i as int) =~= samples@);
    match (time_of_fix, lat, lon, alt) {
        (Some(t), Some(la), Some(lo), Some(al)) => Some(
            LocationFix { latitude: la, longitude: lo, altitude: al, time_of_fix: t },
        ),
        _ => None,
    }
}

/// `10^n`.
pub open spec fn ten_pow(n: nat) -> int
    decreases n,
{
    if n == 0 {
        1
    } else {
        10 * ten_pow((n - 1) as nat)
    }
}

/// `ten_pow(n)` is ten to the power `n`.
pub proof fn law_ten_pow_is_power(n: nat)
    ensures
        ten_pow(n) == vstd::arithmetic::power::pow(10, n),
    decreases n,
{
    reveal(vstd::arithmetic::power::pow);
    if n > 0 {
        law_ten_pow_is_power((n - 1) as nat);
    }
}

/// The divisor that turns a sample with decimal scaling `scaling` into its
/// value: `10^(-scaling)`.
pub fn scale_divisor(scaling: i8) -> (r: i32)
    requires
        -9 <= scaling <= 0,
    ensures
        r == ten_pow((-scaling) as nat),
{
    let n: u32 = (-scaling) as u32;
    let mut d: i32 = 1;
    let mut k: u32 = 0;
    while k < n
        invariant
            n == -scaling,
            n <= 9,
            k <= n,
            d == ten_pow(k as nat),
            d <= 1_000_000_000,
        decreases n - k,
    {
        assert(ten_pow((k + 1) as nat) == 10 * ten_pow(k as nat));
        assert(ten_pow(k as nat) <= 100_000_000) by {
            lemma_ten_pow_eight();
            lemma_ten_pow_mono(k as nat, 8);
        }
        assert(ten_pow(k as nat) >= 1) by {
            lemma_ten_pow_mono(k as nat, k as nat);
        }
        d = d * 10;
        k = k + 1;
    }
    d
}

proof fn lemma_ten_pow_eight()
    ensures
        ten_pow(8) == 100_000_000,
{
    assert(ten_pow(0) == 1);
    assert(ten_pow(1) == 10);
    assert(ten_pow(2) == 100);
    assert(ten_pow(3) == 1_000);
    assert(ten_pow(4) == 10_000);
    assert(ten_pow(5) == 100_000);
    assert(ten_pow(6) == 1_000_000);
    assert(ten_pow(7) == 10_000_000);
}

proof fn lemma_ten_pow_mono(a: nat, b: nat)
    requires
        a <= b,
    ensures
        ten_pow(a) <= ten_pow(b),
        ten_pow(a) >= 1,
    decreases b,
{
    if b > a {
        lemma_ten_pow_mono(a, (b - 1) as nat);
    } else if a > 0 {
        lemma_ten_pow_mono((a - 1) as nat, (a - 1) as nat);
    }
}

/// The GNSS side of a gateway: the last complete fix, and the red light
/// (no fix acquired yet) and blue light (the last reading gave a fix).
pub struct GnssTracker {
    pub location: Option<LocationFix>,
    pub red_led: bool,
    pub blue_led: bool,
}

/// The tracker after one reading: a complete fix becomes the location and
/// turns red off and blue on; otherwise blue goes off and the rest stays.
pub open spec fn gnss_step(g: GnssTracker, time_of_fix: Option<u64>, samples: Seq<ChannelSample>) -> GnssTracker {
    match fix_of(time_of_fix, samples) {
        Some(f) => GnssTracker { location: Some(f), red_led: false, blue_led: true },
        None => GnssTracker { location: g.location, red_led: g.red_led, blue_led: false },
    }
}

/// The tracker before any reading.
pub open spec fn gnss_start() -> GnssTracker {
    GnssTracker { location: None, red_led: true, blue_led: false }
}

/// The tracker after the readings `readings`, in order, from the start.
pub open spec fn gnss_after(readings: Seq<(Option<u64>, Seq<ChannelSample>)>) -> GnssTracker
    decreases readings.len(),
{
    if readings.len() == 0 {
        gnss_start()
    } else {
        let g = gnss_after(readings.drop_last());
        gnss_step(g, readings.last().0, readings.last().1)
    }
}

/// Some reading among `readings` gives a complete fix.
pub open spec fn some_fix(readings: Seq<(Option<u64>, Seq<ChannelSample>)>) -> bool {
    exists|i: int| 0 <= i < readings.len() && (fix_of((#[trigger] readings[i]).0, readings[i].1) is Some)
}

/// Whatever the readings: red is on exactly while none has given a fix, and
/// then the location is unknown; blue is on exactly when the last reading
/// gave a fix.
pub proof fn law_lights_follow_readings(readings: Seq<(Option<u64>, Seq<ChannelSample>)>)
    ensures
        gnss_after(readings).red_led == !some_fix(readings),
        gnss_after(readings).location is None == !some_fix(readings),
        gnss_after(readings).blue_led == (readings.len() > 0 && fix_of(
            readings.last().0,
            readings.last().1,
        ) is Some),
    decreases readings.len(),
{
    if readings.len() > 0 {
        let d = readings.drop_last();
        law_lights_follow_readings(d);
        if some_fix(d) {
            let i = choose|i: int| 0 <= i < d.len() && (fix_of((#[trigger] d[i]).0, d[i].1) is Some);
            assert(readings[i] == d[i]);
        }
        if some_fix(readings) && !some_fix(d) {
            let i = choose|i: int| 0 <= i < readings.len() && (fix_of((#[trigger] readings[i]).0, readings[i].1) is Some);
            if i < d.len() {
                assert(readings[i] == d[i]);
            }
        }
    }
}

impl GnssTracker {
    /// Red is on exactly while no fix has been acquired.
    pub open spec fn lights_agree(&self) -> bool {
        self.red_led == self.location is None
    }

    /// Before any fix: red on, blue off, no location.
    pub fn new() -> (r: GnssTracker)
        ensures
            r.location is None,
            r.red_led,
            !r.blue_led,
            r.lights_agree(),
            r == gnss_start(),
    {
        GnssTracker { location: None, red_led: true, blue_led: false }
    }

    /// Takes in one GNSS reading. A complete fix becomes the location and
    /// turns red off and blue on; otherwise blue goes off and the location
    /// and red stay. Returns the fix, if complete.
    pub fn on_reading(&mut self, time_of_fix: Option<u64>, samples: &Vec<ChannelSample>) -> (r: Option<LocationFix>)
        ensures
            r == fix_of(time_of_fix, samples@),
            r is Some ==> final(self).location == r && !final(self).red_led && final(self).blue_led,
            r is None ==> final(self).location == old(self).location && final(self).red_led
                == old(self).red_led && !final(self).blue_led,
            final(self).blue_led == r is Some,
            old(self).lights_agree() ==> final(self).lights_agree(),
            *final(self) == gnss_step(*old(self), time_of_fix, samples@),
    {
        let fix = assemble_fix(time_of_fix, samples);
        match fix {
            Some(f) => {
                self.red_led = false;
                self.blue_led = true;
                self.location = Some(f);
            },
            None => {
                self.blue_led = false;
            },
        }
        fix
    }
}

} // verus!
