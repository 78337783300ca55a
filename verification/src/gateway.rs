//! The gateway's decisions: which tags it remembers from the scan reports it
//! receives, when to publish a status update and what it holds, and what the
//! status resource answers.
//!
//! The gateway learns from each report when every listed tag was last heard,
//! forgets the tags not heard for `TAG_EXPIRY_MS`, and publishes at most
//! every `MIN_UPDATE_INTERVAL_MS` an update with the tags it remembers and
//! its last known location.
use vstd::prelude::*;
use vstd::string::StringSliceAdditionalSpecFns;
use crate::std_calls::push_char;
use crate::types::{
    TagsSeen, LocationFix, GatewayUpdate, UpdateView, fits_tag_name, update_ok, tags_ok,
};
use crate::gnss::{GnssTracker, ChannelSample};
use crate::entries::{
    has_key, value_of, lemma_with_value_unique, lemma_push_fresh_unique, lemma_value_of_index,
};
use crate::tag_store::{
    TagStore, TagEntry, after_sighting_at, age_secs, recent_entries, report_of, seen_by, store_ok,
    make_room, lemma_after_sighting_shape,
};

verus! {

/// Least time between two published updates, in milliseconds.
pub const MIN_UPDATE_INTERVAL_MS: u64 = 10_000;

/// Period of the update ticks when the button is not pressed, in milliseconds.
pub const UPDATE_PERIOD_MS: u64 = 60_000;

/// The battery level every update reports.
pub const REPORTED_BATTERY_LEVEL: u8 = 100;

/// How far the gateway's tag times run ahead of its clock, in milliseconds:
/// the longest age a report can give (`u16::MAX` seconds). A tag heard that
/// long before the gateway's clock started still has a time, so every
/// reported age is kept whole.
pub const TAG_CLOCK_OFFSET_MS: u64 = 65_535_000;

/// The latest clock reading the gateway takes: `u64::MAX - TAG_CLOCK_OFFSET_MS`.
pub const MAX_CLOCK_MS: u64 = 18_446_744_073_644_016_615;

/// The tag time at gateway clock `now`.
pub open spec fn tag_clock(now: u64) -> u64 {
    (now + TAG_CLOCK_OFFSET_MS) as u64
}

/// The tag time at gateway clock `now`.
pub fn tag_time(now: u64) -> (r: u64)
    requires
        now <= MAX_CLOCK_MS,
    ensures
        r == tag_clock(now),
{
    now + TAG_CLOCK_OFFSET_MS
}

/// The tag time at which a tag reported at gateway clock `now` as heard
/// `age` seconds ago was last heard.
pub open spec fn heard_at(now: u64, age: u16) -> u64 {
    (now + TAG_CLOCK_OFFSET_MS - age * 1000) as u64
}

/// The tag time at which a tag reported at `now` as heard `age` seconds ago
/// was last heard.
pub fn heard_at_time(now: u64, age: u16) -> (r: u64)
    requires
        now <= MAX_CLOCK_MS,
    ensures
        r == heard_at(now, age),
        now <= r <= tag_clock(now),
{
    now + (TAG_CLOCK_OFFSET_MS - age as u64 * 1000)
}

/// The age an update at `now` gives a tag that a report decoded at
/// `decoded` gave as `age`: `age` plus the whole seconds from `decoded` to
/// `now`, at most `u16::MAX`.
pub open spec fn carried_age(age: u16, decoded: u64, now: u64) -> u16 {
    if age + (now - decoded) / 1000 > u16::MAX {
        u16::MAX
    } else {
        (age + (now - decoded) / 1000) as u16
    }
}

/// A tag reported at `decoded` as heard `age` seconds before is reported
/// at any later `now` as heard `carried_age(age, decoded, now)` seconds
/// before, however long the gateway had been running at `decoded`.
pub proof fn law_reported_age(decoded: u64, age: u16, now: u64)
    requires
        decoded <= now <= MAX_CLOCK_MS,
    ensures
        age_secs(tag_clock(now), heard_at(decoded, age)) == carried_age(age, decoded, now),
{
    let d: int = now - decoded;
    assert(tag_clock(now) - heard_at(decoded, age) == d + age * 1000);
    assert((d + age * 1000) / 1000 == d / 1000 + age) by (nonlinear_arith)
        requires d >= 0, age >= 0;
}

/// The gateway's entries after taking in, at gateway clock `now`, a report
/// listing `tags`: each tag whose name fits, in order, is learned as last
/// heard `age` seconds before `now`.
pub open spec fn after_report(e: Seq<TagEntry>, tags: Seq<(Seq<char>, u16, i8)>, now: u64) -> Seq<TagEntry>
    decreases tags.len(),
{
    if tags.len() == 0 {
        e
    } else {
        let before = after_report(e, tags.drop_last(), now);
        let t = tags.last();
        if fits_tag_name(t.0) {
            after_sighting_at(before, t.0, tag_clock(now), heard_at(now, t.1), t.2)
        } else {
            before
        }
    }
}

proof fn lemma_after_report_shape(e: Seq<TagEntry>, tags: Seq<(Seq<char>, u16, i8)>, now: u64)
    requires
        store_ok(e, Seq::<u8>::empty()),
        seen_by(e, tag_clock(now)),
        now <= MAX_CLOCK_MS,
    ensures
        store_ok(after_report(e, tags, now), Seq::<u8>::empty()),
        seen_by(after_report(e, tags, now), tag_clock(now)),
    decreases tags.len(),
{
    if tags.len() > 0 {
        lemma_after_report_shape(e, tags.drop_last(), now);
        let t = tags.last();
        if fits_tag_name(t.0) {
            assert(vstd::utf8::encode_utf8(t.0).subrange(0, 0) =~= Seq::<u8>::empty());
            lemma_after_sighting_shape(
                after_report(e, tags.drop_last(), now),
                t.0,
                tag_clock(now),
                heard_at(now, t.1),
                t.2,
                Seq::<u8>::empty(),
            );
        }
    }
}

/// The last tag of a report decoded at `decoded`, if its name fits, is in
/// the gateway's memory afterwards, and the report of the memory at any
/// later `now` gives it its strength and `carried_age` of its reported age.
pub proof fn law_report_gives_carried_age(
    e: Seq<TagEntry>,
    tags: Seq<(Seq<char>, u16, i8)>,
    decoded: u64,
    now: u64,
)
    requires
        store_ok(e, Seq::<u8>::empty()),
        seen_by(e, tag_clock(decoded)),
        decoded <= now <= MAX_CLOCK_MS,
        tags.len() > 0,
        fits_tag_name(tags.last().0),
    ensures
        exists|j: int|
            0 <= j < after_report(e, tags, decoded).len() && #[trigger] report_of(
                after_report(e, tags, decoded),
                tag_clock(now),
            )[j] == (tags.last().0, carried_age(tags.last().1, decoded, now), tags.last().2),
{
    let t = tags.last();
    let before = after_report(e, tags.drop_last(), decoded);
    let after = after_report(e, tags, decoded);
    let h = heard_at(decoded, t.1);
    lemma_after_report_shape(e, tags.drop_last(), decoded);
    assert(vstd::utf8::encode_utf8(t.0).subrange(0, 0) =~= Seq::<u8>::empty());
    lemma_after_sighting_shape(before, t.0, tag_clock(decoded), h, t.2, Seq::<u8>::empty());
    if has_key(before, t.0) {
        lemma_with_value_unique(before, t.0, (h, t.2));
    } else {
        lemma_push_fresh_unique(make_room(before, tag_clock(decoded)), t.0, (h, t.2));
    }
    assert(value_of(after, t.0) == Some((h, t.2)));
    let j = choose|j: int| 0 <= j < after.len() && (#[trigger] after[j]).0 == t.0;
    lemma_value_of_index(after, j);
    law_reported_age(decoded, t.1, now);
    assert(report_of(after, tag_clock(now))[j] == (t.0, carried_age(t.1, decoded, now), t.2));
}

/// The update made from a report of the remembered tags.
pub open spec fn update_of(
    tags: Seq<(Seq<char>, u16, i8)>,
    location: Option<LocationFix>,
    gateway_id: Seq<char>,
) -> UpdateView {
    UpdateView {
        gateway_id,
        timestamp: match location {
            Some(l) => l.time_of_fix,
            None => 0,
        },
        detected_tags: tags,
        battery_level: Some(REPORTED_BATTERY_LEVEL),
        location,
    }
}

/// An update carries the gateway's id, the reported tags in order, the
/// last known location unchanged, its time of fix as the timestamp (0
/// without a location), and the fixed battery level.
pub proof fn law_update_carries(
    tags: Seq<(Seq<char>, u16, i8)>,
    location: Option<LocationFix>,
    gateway_id: Seq<char>,
)
    ensures
        update_of(tags, location, gateway_id).location == location,
        update_of(tags, location, gateway_id).detected_tags == tags,
        update_of(tags, location, gateway_id).gateway_id == gateway_id,
        location matches Some(l) ==> update_of(tags, location, gateway_id).timestamp == l.time_of_fix,
        location is None ==> update_of(tags, location, gateway_id).timestamp == 0,
        update_of(tags, location, gateway_id).battery_level == Some(REPORTED_BATTERY_LEVEL),
{
}

/// The update made from `tags`, with the last known location.
pub fn build_update(tags: &TagsSeen, location: Option<LocationFix>, gateway_id: String) -> (r: GatewayUpdate)
    ensures
        r@ == update_of(tags@, location, gateway_id@),
        r@.location == location,
        r@.detected_tags == tags@,
        r@.gateway_id == gateway_id@,
{
    let detected_tags = crate::types::copy_tags(&tags.tags);
    let timestamp = match location {
        Some(l) => l.time_of_fix,
        None => 0,
    };
    GatewayUpdate {
        gateway_id,
        timestamp,
        detected_tags,
        battery_level: Some(REPORTED_BATTERY_LEVEL),
        location,
    }
}

/// The lower-case hexadecimal digit of `n`, below 16.
pub open spec fn lower_hex_digit(n: u8) -> char {
    if n < 10 {
        ('0' as u8 + n) as char
    } else {
        ('a' as u8 + (n - 10)) as char
    }
}

/// The lower-case hexadecimal digit of `n`.
fn lower_hex_digit_char(n: u8) -> (c: char)
    requires
        n < 16,
    ensures
        c == lower_hex_digit(n),
{
    match n {
        0 => '0',
        1 => '1',
        2 => '2',
        3 => '3',
        4 => '4',
        5 => '5',
        6 => '6',
        7 => '7',
        8 => '8',
        9 => '9',
        10 => 'a',
        11 => 'b',
        12 => 'c',
        13 => 'd',
        14 => 'e',
        _ => 'f',
    }
}

/// `bytes` written as two lower-case hexadecimal digits each.
pub open spec fn hex_text(bytes: Seq<u8>) -> Seq<char> {
    Seq::new(
        2 * bytes.len(),
        |i: int|
            if i % 2 == 0 {
                lower_hex_digit(bytes[i / 2] / 16)
            } else {
                lower_hex_digit(bytes[i / 2] % 16)
            },
    )
}

/// Every nibble `n` of a device id is written as the `n`-th character of
/// `0123456789abcdef`, each byte as its high then its low nibble.
pub proof fn law_device_id_digits(bytes: Seq<u8>)
    ensures
        forall|n: u8|
            n < 16 ==> #[trigger] lower_hex_digit(n) == seq![
                '0', '1', '2', '3', '4', '5', '6', '7', '8', '9', 'a', 'b', 'c', 'd', 'e', 'f',
            ][n as int],
        hex_text(bytes).len() == 2 * bytes.len(),
        forall|k: int|
            0 <= k < bytes.len() ==> #[trigger] hex_text(bytes)[2 * k] == lower_hex_digit(bytes[k] / 16)
                && hex_text(bytes)[2 * k + 1] == lower_hex_digit(bytes[k] % 16),
{
    let t = seq!['0', '1', '2', '3', '4', '5', '6', '7', '8', '9', 'a', 'b', 'c', 'd', 'e', 'f'];
    assert forall|n: u8| n < 16 implies #[trigger] lower_hex_digit(n) == t[n as int] by {
        assert(lower_hex_digit(n) as u32 == if n < 10 { 48 + n } else { 87 + n });
        assert(t[n as int] as u32 == if n < 10 { 48 + n } else { 87 + n });
    }
}

/// Most bytes of a device id whose text fits in a tag name.
pub const MAX_DEVICE_ID_BYTES: usize = 32;

/// The gateway id of a device: its id bytes in lower-case hexadecimal, or
/// `unknown` when the device has none.
pub fn device_id_text(bytes: Option<&[u8]>) -> (r: String)
    requires
        bytes matches Some(b) ==> b@.len() <= MAX_DEVICE_ID_BYTES,
    ensures
        match bytes {
            Some(b) => r@ == hex_text(b@),
            None => r@ == "unknown"@,
        },
        fits_tag_name(r@),
{
    match bytes {
        Some(b) => {
            let mut r = String::new();
            let mut i: usize = 0;
            while i < b.len()
                invariant
                    i <= b@.len(),
                    r@.len() == 2 * i,
                    forall|k: int| 0 <= k < r@.len() ==> r@[k] == hex_text(b@)[k],
                decreases b.len() - i,
            {
                push_char(&mut r, lower_hex_digit_char(b[i] / 16));
                push_char(&mut r, lower_hex_digit_char(b[i] % 16));
                i += 1;
            }
            assert(r@ =~= hex_text(b@));
            proof {
                assert forall|k: int| 0 <= k < r@.len() implies '\0' <= #[trigger] r@[k] <= '\u{7f}' by {
                    let n: u8 = if k % 2 == 0 { b@[k / 2] / 16 } else { b@[k / 2] % 16 };
                    assert(r@[k] == lower_hex_digit(n));
                }
                vstd::utf8::is_ascii_chars_encode_utf8(r@);
            }
            r
        },
        None => {
            proof {
                reveal_strlit("unknown");
                vstd::utf8::is_ascii_chars_encode_utf8("unknown"@);
            }
            "unknown".to_owned()
        },
    }
}

/// Whether enough time has passed since the last update at `last` to
/// publish another at `now`.
pub fn update_due(now: u64, last: u64) -> (r: bool)
    requires
        last <= now,
    ensures
        r == (now - last >= MIN_UPDATE_INTERVAL_MS),
{
    now - last >= MIN_UPDATE_INTERVAL_MS
}

/// The time of the last published update after update ticks at `ticks`,
/// starting from `last`.
pub open spec fn last_after_ticks(last: u64, ticks: Seq<u64>) -> u64
    decreases ticks.len(),
{
    if ticks.len() == 0 {
        last
    } else {
        let l = last_after_ticks(last, ticks.drop_last());
        if ticks.last() - l >= MIN_UPDATE_INTERVAL_MS {
            ticks.last()
        } else {
            l
        }
    }
}

/// The times at which update ticks at `ticks`, starting from `last`, publish.
pub open spec fn publish_times(last: u64, ticks: Seq<u64>) -> Seq<u64>
    decreases ticks.len(),
{
    if ticks.len() == 0 {
        Seq::empty()
    } else {
        let p = publish_times(last, ticks.drop_last());
        if ticks.last() - last_after_ticks(last, ticks.drop_last()) >= MIN_UPDATE_INTERVAL_MS {
            p.push(ticks.last())
        } else {
            p
        }
    }
}

proof fn lemma_last_is_last_published(last: u64, ticks: Seq<u64>)
    ensures
        last_after_ticks(last, ticks) == if publish_times(last, ticks).len() == 0 {
            last
        } else {
            publish_times(last, ticks).last()
        },
    decreases ticks.len(),
{
    if ticks.len() > 0 {
        lemma_last_is_last_published(last, ticks.drop_last());
    }
}

/// Whatever the ticks, published updates are at least
/// `MIN_UPDATE_INTERVAL_MS` apart, and the first one at least that long
/// after the start.
pub proof fn law_updates_spaced(last: u64, ticks: Seq<u64>)
    ensures
        publish_times(last, ticks).len() > 0 ==> publish_times(last, ticks)[0] - last >= MIN_UPDATE_INTERVAL_MS,
        forall|i: int|
            0 <= i < publish_times(last, ticks).len() - 1 ==> publish_times(last, ticks)[i + 1]
                - #[trigger] publish_times(last, ticks)[i] >= MIN_UPDATE_INTERVAL_MS,
    decreases ticks.len(),
{
    if ticks.len() > 0 {
        let d = ticks.drop_last();
        law_updates_spaced(last, d);
        lemma_last_is_last_published(last, d);
        let p = publish_times(last, d);
        let q = publish_times(last, ticks);
        assert forall|i: int| 0 <= i < q.len() - 1 implies q[i + 1] - #[trigger] q[i] >= MIN_UPDATE_INTERVAL_MS by {
            if i + 1 < p.len() {
                assert(q[i] == p[i] && q[i + 1] == p[i + 1]);
            } else {
                assert(q[i] == p.last());
            }
        }
    }
}

/// Why the status resource gives no update.
#[derive(PartialEq, Eq, Debug, Clone, Copy)]
pub enum StatusError {
    /// No update has been published yet.
    ServiceUnavailable,
}

/// The status resource: answers with the last published update.
pub struct StatusRenderer {
    last_update: Option<GatewayUpdate>,
}

impl StatusRenderer {
    /// The last published update, if any.
    pub closed spec fn latest(&self) -> Option<UpdateView> {
        match self.last_update {
            Some(u) => Some(u@),
            None => None,
        }
    }

    /// The update held, if any, fits the wire form.
    pub open spec fn wf(&self) -> bool {
        self.latest() matches Some(u) ==> update_ok(u)
    }

    /// What a read answers: the last published update, or `ServiceUnavailable`.
    pub open spec fn served(&self) -> Result<UpdateView, StatusError> {
        match self.latest() {
            Some(u) => Ok(u),
            None => Err(StatusError::ServiceUnavailable),
        }
    }

    /// A resource before any update.
    pub fn new() -> (r: StatusRenderer)
        ensures
            r.latest() is None,
            r.wf(),
    {
        StatusRenderer { last_update: None }
    }

    /// Makes `update` the one the resource answers with; returns the one it replaces.
    pub fn publish(&mut self, update: GatewayUpdate) -> (r: Option<GatewayUpdate>)
        requires
            update.wf(),
        ensures
            final(self).latest() == Some(update@),
            final(self).wf(),
            match r {
                Some(u) => old(self).latest() == Some(u@),
                None => old(self).latest() is None,
            },
    {
        let previous = self.last_update.take();
        self.last_update = Some(update);
        previous
    }

    /// The answer to a read: a copy of the last published update, or
    /// `ServiceUnavailable` before the first.
    pub fn get(&self) -> (r: Result<GatewayUpdate, StatusError>)
        ensures
            match r {
                Ok(g) => self.served() == Ok::<UpdateView, StatusError>(g@),
                Err(e) => self.served() == Err::<UpdateView, StatusError>(e),
            },
    {
        match &self.last_update {
            Some(u) => Ok(u.duplicate()),
            None => Err(StatusError::ServiceUnavailable),
        }
    }
}

/// The gateway's state: the tags it remembers, the GNSS side, the status
/// resource and when the last update went out.
pub struct Gateway {
    pub tags: TagStore,
    pub gnss: GnssTracker,
    pub status: StatusRenderer,
    pub last_update_at: u64,
}

impl Gateway {
    /// The gateway's parts have their shapes; it remembers tags of any name.
    pub open spec fn wf(&self) -> bool {
        &&& self.tags.wf()
        &&& self.tags.prefix_bytes() == Seq::<u8>::empty()
        &&& self.status.wf()
    }

    /// A gateway started at `now`: no tags, no fix, no update published, the
    /// update clock started at `now`.
    pub fn new(now: u64) -> (r: Gateway)
        ensures
            r.wf(),
            r.tags.entries() == Seq::<TagEntry>::empty(),
            r.gnss.location is None,
            r.gnss.red_led,
            !r.gnss.blue_led,
            r.status.latest() is None,
            r.last_update_at == now,
    {
        let tags = TagStore::new("");
        proof {
            reveal_strlit("");
            assert(""@ =~= Seq::<char>::empty());
            assert(vstd::utf8::encode_utf8(Seq::<char>::empty()) =~= Seq::<u8>::empty());
        }
        Gateway { tags, gnss: GnssTracker::new(), status: StatusRenderer::new(), last_update_at: now }
    }

    /// Takes in, at `now`, a scan report: each listed tag whose name fits is
    /// remembered as last heard its reported age before `now`, so that an
    /// update at a later `t` reports it as its age plus the whole seconds
    /// from `now` to `t` (`law_reported_age`).
    pub fn on_scan_report(&mut self, report: &TagsSeen, now: u64)
        requires
            old(self).wf(),
            now <= MAX_CLOCK_MS,
            seen_by(old(self).tags.entries(), tag_clock(now)),
        ensures
            final(self).wf(),
            seen_by(final(self).tags.entries(), tag_clock(now)),
            final(self).tags.entries() == after_report(old(self).tags.entries(), report@, now),
            final(self).gnss == old(self).gnss,
            final(self).status == old(self).status,
            final(self).last_update_at == old(self).last_update_at,
    {
        let ghost e0 = self.tags.entries();
        let mut i: usize = 0;
        assert(report@.take(0) =~= Seq::<(Seq<char>, u16, i8)>::empty());
        while i < report.tags.len()
            invariant
                i <= report.tags@.len(),
                self.wf(),
                now <= MAX_CLOCK_MS,
                seen_by(self.tags.entries(), tag_clock(now)),
                self.tags.entries() == after_report(e0, report@.take(i as int), now),
                self.gnss == old(self).gnss,
                self.status == old(self).status,
                self.last_update_at == old(self).last_update_at,
            decreases report.tags.len() - i,
        {
            let t = &report.tags[i];
            let seen_at = heard_at_time(now, t.age);
            let name = t.id.as_str();
            let _ = self.tags.record_sighting_at(name, t.rssi, seen_at, tag_time(now));
            proof {
                let taken = report@.take(i + 1);
                assert(taken.drop_last() =~= report@.take(i as int));
                assert(taken.last() == t@);
                assert(name.spec_bytes().subrange(0, 0) =~= Seq::<u8>::empty());
                assert(name.spec_bytes() == vstd::utf8::encode_utf8(t.id@));
            }
            i += 1;
        }
        assert(report@.take(i as int) =~= report@);
    }

    /// Forgets, at `now`, every tag heard more than `TAG_EXPIRY_MS` before.
    pub fn on_cleanup(&mut self, now: u64)
        requires
            old(self).wf(),
            now <= MAX_CLOCK_MS,
            seen_by(old(self).tags.entries(), tag_clock(now)),
        ensures
            final(self).wf(),
            final(self).tags.entries() == recent_entries(old(self).tags.entries(), tag_clock(now)),
            final(self).gnss == old(self).gnss,
            final(self).status == old(self).status,
            final(self).last_update_at == old(self).last_update_at,
    {
        self.tags.remove_old_entries(tag_time(now));
    }

    /// Takes in one GNSS reading, as `GnssTracker::on_reading` does.
    pub fn on_gnss_reading(&mut self, time_of_fix: Option<u64>, samples: &Vec<ChannelSample>) -> (r: Option<LocationFix>)
        ensures
            r == crate::gnss::fix_of(time_of_fix, samples@),
            final(self).gnss == crate::gnss::gnss_step(old(self).gnss, time_of_fix, samples@),
            final(self).tags == old(self).tags,
            final(self).status == old(self).status,
            final(self).last_update_at == old(self).last_update_at,
    {
        self.gnss.on_reading(time_of_fix, samples)
    }

    /// Whether the clock at `now` is within what the tick, the report and
    /// the cleanup steps accept: at most `MAX_CLOCK_MS`, not before the last
    /// update, nor before any remembered sighting.
    pub fn clock_ok(&self, now: u64) -> (r: bool)
        ensures
            r == (now <= MAX_CLOCK_MS && self.last_update_at <= now && seen_by(
                self.tags.entries(),
                tag_clock(now),
            )),
    {
        if now > MAX_CLOCK_MS {
            return false;
        }
        self.last_update_at <= now && self.tags.all_seen_by(tag_time(now))
    }

    /// An update tick at `now`: unless the last update went out less than
    /// `MIN_UPDATE_INTERVAL_MS` ago, publishes the update made from the report
    /// of the remembered tags at `now` and the last known location. Returns
    /// whether it published.
    pub fn on_update_tick(&mut self, now: u64, gateway_id: String) -> (r: bool)
        requires
            old(self).wf(),
            old(self).last_update_at <= now,
            now <= MAX_CLOCK_MS,
            seen_by(old(self).tags.entries(), tag_clock(now)),
            fits_tag_name(gateway_id@),
        ensures
            final(self).wf(),
            r == (now - old(self).last_update_at >= MIN_UPDATE_INTERVAL_MS),
            r ==> final(self).status.latest() == Some(
                update_of(report_of(old(self).tags.entries(), tag_clock(now)), old(self).gnss.location, gateway_id@),
            ) && final(self).last_update_at == now,
            r ==> (final(self).status.latest() matches Some(u) && u.location == old(self).gnss.location
                && u.detected_tags == report_of(old(self).tags.entries(), tag_clock(now))),
            !r ==> final(self).status == old(self).status && final(self).last_update_at == old(
                self,
            ).last_update_at,
            final(self).tags == old(self).tags,
            final(self).gnss == old(self).gnss,
    {
        if !update_due(now, self.last_update_at) {
            return false;
        }
        let report = self.tags.scan_report(tag_time(now));
        let update = build_update(&report, self.gnss.location, gateway_id);
        assert(tags_ok(report@));
        let _ = self.status.publish(update);
        self.last_update_at = now;
        true
    }
}

/// A read answers with the update published last, whatever was published before it.
pub proof fn law_read_gives_last_published(after: StatusRenderer, update: GatewayUpdate)
    requires
        after.latest() == Some(update@),
    ensures
        after.served() == Ok::<UpdateView, StatusError>(update@),
{
}

/// Before any update is published, a read answers `ServiceUnavailable`.
pub proof fn law_unavailable_before_first_update(s: StatusRenderer)
    requires
        s.latest() is None,
    ensures
        s.served() == Err::<UpdateView, StatusError>(StatusError::ServiceUnavailable),
{
}

} // verus!
