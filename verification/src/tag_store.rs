//! The scanner's memory of recently heard tags.
//!
//! Each advertisement whose complete local name starts with the memory's
//! prefix refreshes that tag's sighting. The memory holds at most
//! `MAX_SEEN` tags: a new tag that finds it full first makes it forget the
//! tags heard more than `TAG_EXPIRY_MS` ago, and if none was, the oldest
//! sighting. Once a report of the memory has been sent, the memory is cleared.
use vstd::prelude::*;
use vstd::string::StringSliceAdditionalSpecFns;
use crate::entries::{
    has_key, keys_unique, with_value, swap_remove_at, value_of, lemma_value_of_index,
    lemma_with_value_unique, lemma_push_fresh_unique, lemma_swap_remove_unique,
    lemma_swap_remove_members, lemma_filter_unique, lemma_filter_members, lemma_filter_all,
    lemma_filter_drops, lemma_filter_values, keys_of,
};
use crate::types::{MAX_SEEN, TAG_NAME_MAX_LEN, fits_tag_name, DetectedTag, TagsSeen};
use crate::tag_map::{
    TagMap, tag_map_entries, listed_as, tag_map_new, tag_map_len, tag_map_contains,
    tag_map_insert, tag_map_remove, tag_map_retain_recent, tag_map_list, tag_map_clear,
};
use crate::advert::{advertised_name, advertised_name_bytes, starts_with_bytes, has_prefix};
use crate::std_calls::utf8_str;

verus! {

/// A tag heard more than this long ago, in milliseconds, is forgotten at the next cleanup.
pub const TAG_EXPIRY_MS: u64 = 600_000;

/// Period of the scan reports sent over the serial link, in milliseconds.
pub const SCAN_REPORT_PERIOD_MS: u64 = 2_000;

/// Period of the cleanup that forgets stale tags, in milliseconds.
pub const CLEANUP_PERIOD_MS: u64 = 30_000;

/// A tag name with its last sighting: (time in milliseconds, signal strength).
pub type TagEntry = (Seq<char>, (u64, i8));

/// A sighting at `seen_at` is still kept at `now`: it is at most `TAG_EXPIRY_MS` old.
pub open spec fn is_recent_spec(now: u64, seen_at: u64) -> bool {
    now - seen_at <= TAG_EXPIRY_MS
}

/// Whether a sighting at `seen_at` is still kept at `now`.
pub fn is_recent(now: u64, seen_at: u64) -> (r: bool)
    requires
        seen_at <= now,
    ensures
        r == is_recent_spec(now, seen_at),
{
    now - seen_at <= TAG_EXPIRY_MS
}

/// The entries still kept at `now`, in order.
pub open spec fn recent_entries(e: Seq<TagEntry>, now: u64) -> Seq<TagEntry> {
    e.filter(|x: TagEntry| is_recent_spec(now, x.1.0))
}

/// Sighting `a` is older than `b`: earlier, or as early and weaker.
pub open spec fn older(a: (u64, i8), b: (u64, i8)) -> bool {
    a.0 < b.0 || (a.0 == b.0 && a.1 < b.1)
}

/// Whether sighting `a` is older than `b`.
pub fn is_older(a: (u64, i8), b: (u64, i8)) -> (r: bool)
    ensures
        r == older(a, b),
{
    a.0 < b.0 || (a.0 == b.0 && a.1 < b.1)
}

/// Position of the oldest sighting; the first one among equally old ones.
pub open spec fn oldest_index(e: Seq<TagEntry>) -> int
    decreases e.len(),
{
    if e.len() <= 1 {
        0
    } else {
        let j = oldest_index(e.drop_last());
        if older(e.last().1, e[j].1) {
            e.len() - 1
        } else {
            j
        }
    }
}

/// No sighting is later than `now`.
pub open spec fn seen_by(e: Seq<TagEntry>, now: u64) -> bool {
    forall|i: int| 0 <= i < e.len() ==> (#[trigger] e[i]).1.0 <= now
}

/// A name a memory with `prefix` may hold: short enough, and starting with the prefix.
pub open spec fn name_ok(name: Seq<char>, prefix: Seq<u8>) -> bool {
    fits_tag_name(name) && starts_with_bytes(vstd::utf8::encode_utf8(name), prefix)
}

/// The shape every tag memory with `prefix` keeps: names unique, short
/// enough and starting with the prefix, at most `MAX_SEEN` of them.
pub open spec fn store_ok(e: Seq<TagEntry>, prefix: Seq<u8>) -> bool {
    &&& keys_unique(e)
    &&& e.len() <= MAX_SEEN
    &&& forall|i: int| 0 <= i < e.len() ==> name_ok((#[trigger] e[i]).0, prefix)
}

/// The entries left for a new tag heard at `now`: all of them if there is
/// room; else the recent ones; else those without the oldest one.
pub open spec fn make_room(e: Seq<TagEntry>, now: u64) -> Seq<TagEntry> {
    if e.len() < MAX_SEEN {
        e
    } else {
        let fresh = recent_entries(e, now);
        if fresh.len() < MAX_SEEN {
            fresh
        } else {
            swap_remove_at(fresh, oldest_index(fresh))
        }
    }
}

/// The entries after learning at `now` that `name` was last heard at
/// `seen_at` with strength `rssi`.
pub open spec fn after_sighting_at(e: Seq<TagEntry>, name: Seq<char>, now: u64, seen_at: u64, rssi: i8) -> Seq<TagEntry> {
    if has_key(e, name) {
        with_value(e, name, (seen_at, rssi))
    } else {
        make_room(e, now).push((name, (seen_at, rssi)))
    }
}

/// The entries after `name` is heard at `now` with strength `rssi`.
pub open spec fn after_sighting(e: Seq<TagEntry>, name: Seq<char>, now: u64, rssi: i8) -> Seq<TagEntry> {
    after_sighting_at(e, name, now, now, rssi)
}

/// What became of an advertisement.
#[derive(PartialEq, Eq, Debug, Clone, Copy)]
pub enum Sighting {
    /// It carries no complete local name that reads as UTF-8.
    NoName,
    /// Its name does not start with the prefix.
    OtherPrefix,
    /// Its name is longer than `TAG_NAME_MAX_LEN` bytes.
    NameTooLong,
    /// Its name is now remembered as just heard.
    Recorded,
}

/// What becomes of a name, given as UTF-8 bytes, under `prefix`.
pub open spec fn sighting_of(name: Seq<u8>, prefix: Seq<u8>) -> Sighting {
    if !starts_with_bytes(name, prefix) {
        Sighting::OtherPrefix
    } else if name.len() > TAG_NAME_MAX_LEN {
        Sighting::NameTooLong
    } else {
        Sighting::Recorded
    }
}

/// A name is recorded exactly when every byte of the prefix equals the
/// name's byte at the same position and the name is at most
/// `TAG_NAME_MAX_LEN` bytes; it is refused for its prefix exactly when some
/// prefix byte differs or the prefix is longer than the name.
pub proof fn law_sighting_outcome(name: Seq<u8>, prefix: Seq<u8>)
    ensures
        (sighting_of(name, prefix) == Sighting::Recorded) <==> (prefix.len() <= name.len() && (forall|i: int|
            0 <= i < prefix.len() ==> #[trigger] name[i] == prefix[i]) && name.len() <= TAG_NAME_MAX_LEN),
        (sighting_of(name, prefix) == Sighting::OtherPrefix) <==> !(prefix.len() <= name.len() && forall|i: int|
            0 <= i < prefix.len() ==> #[trigger] name[i] == prefix[i]),
{
    crate::advert::law_prefix_bytewise(name, prefix);
}

/// The tags a scanner has heard recently, with the prefix their names start with.
pub struct TagStore {
    seen: TagMap,
    prefix: String,
}

proof fn lemma_oldest_index_range(e: Seq<TagEntry>)
    requires
        e.len() >= 1,
    ensures
        0 <= oldest_index(e) < e.len(),
    decreases e.len(),
{
    if e.len() > 1 {
        lemma_oldest_index_range(e.drop_last());
    }
}

proof fn lemma_oldest_index_step(e: Seq<TagEntry>, i: int)
    requires
        1 <= i < e.len(),
    ensures
        oldest_index(e.take(i + 1)) == if older(e[i].1, e[oldest_index(e.take(i))].1) {
            i
        } else {
            oldest_index(e.take(i))
        },
{
    let t = e.take(i + 1);
    assert(t.drop_last() =~= e.take(i));
    lemma_oldest_index_range(e.take(i));
    assert(t[oldest_index(e.take(i))] == e[oldest_index(e.take(i))]);
}

proof fn lemma_filter_keeps_shape(e: Seq<TagEntry>, now: u64, prefix: Seq<u8>)
    requires
        store_ok(e, prefix),
        seen_by(e, now),
    ensures
        store_ok(recent_entries(e, now), prefix),
        seen_by(recent_entries(e, now), now),
        forall|k: Seq<char>| has_key(recent_entries(e, now), k) ==> has_key(e, k),
{
    let pred = |x: TagEntry| is_recent_spec(now, x.1.0);
    lemma_filter_unique(e, pred);
    lemma_filter_members(e, pred);
    let f = e.filter(pred);
    assert forall|i: int| 0 <= i < f.len() implies name_ok((#[trigger] f[i]).0, prefix) && f[i].1.0 <= now by {
        assert(e.contains(f[i]));
        let j = choose|j: int| 0 <= j < e.len() && e[j] == f[i];
        assert(name_ok(e[j].0, prefix));
    }
}

proof fn lemma_swap_remove_keeps_shape(e: Seq<TagEntry>, i: int, now: u64, prefix: Seq<u8>)
    requires
        store_ok(e, prefix),
        seen_by(e, now),
        0 <= i < e.len(),
    ensures
        store_ok(swap_remove_at(e, i), prefix),
        seen_by(swap_remove_at(e, i), now),
        forall|k: Seq<char>| has_key(swap_remove_at(e, i), k) ==> has_key(e, k),
{
    lemma_swap_remove_unique(e, i);
    lemma_swap_remove_members(e, i);
    let r = swap_remove_at(e, i);
    assert forall|j: int| 0 <= j < r.len() implies name_ok((#[trigger] r[j]).0, prefix) && r[j].1.0 <= now by {
        let m = choose|m: int| 0 <= m < e.len() && m != i && r[j] == e[m];
        assert(name_ok(e[m].0, prefix));
    }
    assert forall|k: Seq<char>| has_key(r, k) implies has_key(e, k) by {
        let j = choose|j: int| 0 <= j < r.len() && (#[trigger] r[j]).0 == k;
        let m = choose|m: int| 0 <= m < e.len() && m != i && r[j] == e[m];
        assert(e[m].0 == k);
    }
}

/// Learning of a sighting at or before `now` keeps the memory's shape and
/// leaves no sighting after `now`.
pub proof fn lemma_after_sighting_shape(
    e: Seq<TagEntry>,
    name: Seq<char>,
    now: u64,
    seen_at: u64,
    rssi: i8,
    prefix: Seq<u8>,
)
    requires
        store_ok(e, prefix),
        seen_by(e, now),
        name_ok(name, prefix),
        seen_at <= now,
    ensures
        store_ok(after_sighting_at(e, name, now, seen_at, rssi), prefix),
        seen_by(after_sighting_at(e, name, now, seen_at, rssi), now),
        !has_key(e, name) ==> !has_key(make_room(e, now), name) && make_room(e, now).len() < MAX_SEEN,
        !has_key(e, name) ==> store_ok(make_room(e, now), prefix) && seen_by(make_room(e, now), now),
{
    if has_key(e, name) {
        lemma_with_value_unique(e, name, (seen_at, rssi));
        let w = with_value(e, name, (seen_at, rssi));
        assert forall|i: int| 0 <= i < w.len() implies name_ok((#[trigger] w[i]).0, prefix) && w[i].1.0 <= now by {
            assert(name_ok(e[i].0, prefix));
        }
    } else {
        let m = make_room(e, now);
        if e.len() >= MAX_SEEN {
            lemma_filter_keeps_shape(e, now, prefix);
            let fresh = recent_entries(e, now);
            if fresh.len() >= MAX_SEEN {
                lemma_oldest_index_range(fresh);
                lemma_swap_remove_keeps_shape(fresh, oldest_index(fresh), now, prefix);
            }
        }
        assert(store_ok(m, prefix) && seen_by(m, now) && !has_key(m, name) && m.len() < MAX_SEEN);
        lemma_push_fresh_unique(m, name, (seen_at, rssi));
        let p = m.push((name, (seen_at, rssi)));
        assert forall|i: int| 0 <= i < p.len() implies name_ok((#[trigger] p[i]).0, prefix) && p[i].1.0 <= now by {
            if i < m.len() {
                assert(p[i] == m[i]);
            }
        }
    }
}

/// The report of entries `e` at `now`: each name, the whole seconds since
/// it was last heard (at most `u16::MAX`), and its strength, in order.
pub open spec fn report_of(e: Seq<TagEntry>, now: u64) -> Seq<(Seq<char>, u16, i8)> {
    Seq::new(e.len(), |i: int| (e[i].0, age_secs(now, e[i].1.0), e[i].1.1))
}

impl TagStore {
    /// The remembered tags with their last sightings, in the memory's order.
    pub closed spec fn entries(&self) -> Seq<TagEntry> {
        tag_map_entries(self.seen)
    }

    /// The UTF-8 bytes of the prefix that remembered names start with.
    pub closed spec fn prefix_bytes(&self) -> Seq<u8> {
        vstd::utf8::encode_utf8(self.prefix@)
    }

    /// The memory has its shape.
    pub open spec fn wf(&self) -> bool {
        store_ok(self.entries(), self.prefix_bytes())
    }

    /// An empty memory for the tags whose names start with `prefix`.
    pub fn new(prefix: &str) -> (r: TagStore)
        ensures
            r.wf(),
            r.entries() == Seq::<TagEntry>::empty(),
            r.prefix_bytes() == prefix.spec_bytes(),
    {
        TagStore { seen: tag_map_new(), prefix: prefix.to_owned() }
    }

    /// How many tags are remembered.
    pub fn len(&self) -> (r: usize)
        ensures
            r == self.entries().len(),
    {
        tag_map_len(&self.seen)
    }

    /// Whether no remembered sighting is later than `now`.
    pub fn all_seen_by(&self, now: u64) -> (r: bool)
        ensures
            r == seen_by(self.entries(), now),
    {
        let list = tag_map_list(&self.seen);
        let ghost e = self.entries();
        let mut i: usize = 0;
        while i < list.len()
            invariant
                e == self.entries(),
                listed_as(list@, e),
                i <= list@.len(),
                forall|j: int| 0 <= j < i ==> (#[trigger] e[j]).1.0 <= now,
            decreases list.len() - i,
        {
            if list[i].1 > now {
                assert(e[i as int].1.0 > now);
                return false;
            }
            i += 1;
        }
        true
    }

    /// The last sighting of `name`, if it is remembered.
    pub fn lookup(&self, name: &str) -> (r: Option<(u64, i8)>)
        requires
            self.wf(),
        ensures
            r == value_of(self.entries(), name@),
    {
        let list = tag_map_list(&self.seen);
        let ghost e = self.entries();
        let key = name.to_owned();
        let mut i: usize = 0;
        while i < list.len()
            invariant
                e == self.entries(),
                listed_as(list@, e),
                keys_unique(e),
                key@ == name@,
                i <= list@.len(),
                forall|j: int| 0 <= j < i ==> (#[trigger] e[j]).0 != name@,
            decreases list.len() - i,
        {
            if list[i].0 == key {
                proof {
                    lemma_value_of_index(e, i as int);
                }
                return Some((list[i].1, list[i].2));
            }
            i += 1;
        }
        assert(!has_key(e, name@));
        None
    }

    /// Forgets every tag heard more than `TAG_EXPIRY_MS` before `now`.
    pub fn remove_old_entries(&mut self, now: u64)
        requires
            old(self).wf(),
            seen_by(old(self).entries(), now),
        ensures
            final(self).wf(),
            final(self).prefix_bytes() == old(self).prefix_bytes(),
            final(self).entries() == recent_entries(old(self).entries(), now),
    {
        proof {
            lemma_filter_keeps_shape(self.entries(), now, self.prefix_bytes());
        }
        tag_map_retain_recent(&mut self.seen, now);
    }

    /// Forgets every tag; done once a report of them has been sent.
    pub fn clear(&mut self)
        ensures
            final(self).wf(),
            final(self).prefix_bytes() == old(self).prefix_bytes(),
            final(self).entries() == Seq::<TagEntry>::empty(),
    {
        tag_map_clear(&mut self.seen);
    }

    /// Forgets the oldest sighting: the earliest, among equally early ones the
    /// weakest, and among those the first in the memory's order.
    pub fn remove_oldest_entry(&mut self)
        requires
            old(self).wf(),
        ensures
            final(self).wf(),
            final(self).prefix_bytes() == old(self).prefix_bytes(),
            old(self).entries().len() == 0 ==> final(self).entries() == old(self).entries(),
            old(self).entries().len() > 0 ==> final(self).entries() == swap_remove_at(
                old(self).entries(),
                oldest_index(old(self).entries()),
            ),
    {
        let list = tag_map_list(&self.seen);
        let ghost e = self.entries();
        if list.len() == 0 {
            return;
        }
        let mut best: usize = 0;
        let mut i: usize = 1;
        assert(e.take(1).len() == 1);
        while i < list.len()
            invariant
                listed_as(list@, e),
                1 <= i <= list@.len(),
                best < i,
                best == oldest_index(e.take(i as int)),
            decreases list.len() - i,
        {
            proof {
                lemma_oldest_index_step(e, i as int);
            }
            if is_older((list[i].1, list[i].2), (list[best].1, list[best].2)) {
                best = i;
            }
            i += 1;
        }
        assert(e.take(i as int) =~= e);
        let key = list[best].0.clone();
        proof {
            lemma_swap_remove_keeps_shape(e, best as int, u64::MAX, self.prefix_bytes());
            assert(has_key(e, key@)) by {
                assert(e[best as int].0 == key@);
            }
        }
        tag_map_remove(&mut self.seen, &key);
        proof {
            let j = choose|j: int|
                0 <= j < e.len() && (#[trigger] e[j]).0 == key@ && self.entries() == swap_remove_at(e, j);
            assert(j == best);
        }
    }

    /// Learns at `now` that the tag `name` was last heard at `seen_at` with
    /// strength `rssi`, if its name starts with the memory's prefix and fits
    /// in `TAG_NAME_MAX_LEN` bytes.
    pub fn record_sighting_at(&mut self, name: &str, rssi: i8, seen_at: u64, now: u64) -> (r: Sighting)
        requires
            old(self).wf(),
            seen_by(old(self).entries(), now),
            seen_at <= now,
        ensures
            final(self).wf(),
            final(self).prefix_bytes() == old(self).prefix_bytes(),
            seen_by(final(self).entries(), now),
            r == sighting_of(name.spec_bytes(), old(self).prefix_bytes()),
            r == Sighting::Recorded ==> final(self).entries() == after_sighting_at(
                old(self).entries(),
                name@,
                now,
                seen_at,
                rssi,
            ),
            r != Sighting::Recorded ==> final(self).entries() == old(self).entries(),
    {
        if !has_prefix(name, self.prefix.as_str()) {
            return Sighting::OtherPrefix;
        }
        if name.as_bytes().len() > TAG_NAME_MAX_LEN {
            return Sighting::NameTooLong;
        }
        let key = name.to_owned();
        let ghost e = self.entries();
        proof {
            lemma_after_sighting_shape(e, name@, now, seen_at, rssi, self.prefix_bytes());
        }
        if !tag_map_contains(&self.seen, &key) {
            if tag_map_len(&self.seen) >= MAX_SEEN {
                self.remove_old_entries(now);
                if tag_map_len(&self.seen) >= MAX_SEEN {
                    self.remove_oldest_entry();
                }
            }
            assert(self.entries() == make_room(e, now));
        }
        let _ = tag_map_insert(&mut self.seen, key, (seen_at, rssi));
        Sighting::Recorded
    }

    /// Hears the tag `name` at `now` with strength `rssi`, if its name starts
    /// with the memory's prefix and fits in `TAG_NAME_MAX_LEN` bytes.
    pub fn record_sighting(&mut self, name: &str, rssi: i8, now: u64) -> (r: Sighting)
        requires
            old(self).wf(),
            seen_by(old(self).entries(), now),
        ensures
            final(self).wf(),
            final(self).prefix_bytes() == old(self).prefix_bytes(),
            seen_by(final(self).entries(), now),
            r == sighting_of(name.spec_bytes(), old(self).prefix_bytes()),
            r == Sighting::Recorded ==> final(self).entries() == after_sighting(
                old(self).entries(),
                name@,
                now,
                rssi,
            ),
            r != Sighting::Recorded ==> final(self).entries() == old(self).entries(),
    {
        self.record_sighting_at(name, rssi, now, now)
    }

    /// Hears one advertisement at `now` with strength `rssi`: its complete
    /// local name, read as UTF-8, is recorded as `record_sighting` does.
    pub fn on_adv_report(&mut self, data: &[u8], rssi: i8, now: u64) -> (r: Sighting)
        requires
            old(self).wf(),
            seen_by(old(self).entries(), now),
        ensures
            final(self).wf(),
            final(self).prefix_bytes() == old(self).prefix_bytes(),
            seen_by(final(self).entries(), now),
            match advertised_name(data@) {
                None => r == Sighting::NoName,
                Some(b) => if vstd::utf8::valid_utf8(b) {
                    r == sighting_of(b, old(self).prefix_bytes())
                } else {
                    r == Sighting::NoName
                },
            },
            r == Sighting::Recorded ==> final(self).entries() == after_sighting(
                old(self).entries(),
                vstd::utf8::decode_utf8(advertised_name(data@).unwrap()),
                now,
                rssi,
            ),
            r != Sighting::Recorded ==> final(self).entries() == old(self).entries(),
    {
        let bytes = match advertised_name_bytes(data) {
            Some(b) => b,
            None => return Sighting::NoName,
        };
        match utf8_str(bytes.as_slice()) {
            None => Sighting::NoName,
            Some(name) => {
                proof {
                    vstd::utf8::encode_utf8_decode_utf8(name@);
                }
                self.record_sighting(name, rssi, now)
            },
        }
    }

    /// The report of every remembered tag: its name, how many whole seconds
    /// before `now` it was last heard (at most `u16::MAX`), and its strength.
    pub fn scan_report(&self, now: u64) -> (r: TagsSeen)
        requires
            self.wf(),
            seen_by(self.entries(), now),
        ensures
            r@ == report_of(self.entries(), now),
            r.wf(),
    {
        let list = tag_map_list(&self.seen);
        let ghost e = self.entries();
        let mut tags: Vec<DetectedTag> = Vec::new();
        let mut i: usize = 0;
        while i < list.len()
            invariant
                listed_as(list@, e),
                seen_by(e, now),
                i <= list@.len(),
                tags@.len() == i,
                forall|j: int|
                    0 <= j < i ==> (#[trigger] tags@[j])@ == (e[j].0, age_secs(now, e[j].1.0), e[j].1.1),
            decreases list.len() - i,
        {
            assert(e[i as int].1.0 <= now);
            let age = seconds_since(now, list[i].1);
            tags.push(DetectedTag { id: list[i].0.clone(), age, rssi: list[i].2 });
            i += 1;
        }
        let r = TagsSeen { tags };
        assert(r@ =~= report_of(e, now));
        assert forall|j: int| 0 <= j < r@.len() implies fits_tag_name((#[trigger] r@[j]).0) by {
            assert(name_ok(e[j].0, self.prefix_bytes()));
        }
        r
    }
}

/// Whole seconds from `then` to `now` in milliseconds, at most `u16::MAX`.
pub open spec fn age_secs(now: u64, then: u64) -> u16 {
    if (now - then) / 1000 > u16::MAX as int {
        u16::MAX
    } else {
        ((now - then) / 1000) as u16
    }
}

/// Whole seconds from `then` to `now`, both in milliseconds, at most `u16::MAX`.
pub fn seconds_since(now: u64, then: u64) -> (r: u16)
    requires
        then <= now,
    ensures
        r == age_secs(now, then),
{
    let secs = (now - then) / 1000;
    if secs > u16::MAX as u64 {
        u16::MAX
    } else {
        secs as u16
    }
}


/// A tag that has been heard reads back the sighting just recorded.
pub proof fn law_sighting_reads_back(e: Seq<TagEntry>, name: Seq<char>, now: u64, rssi: i8, prefix: Seq<u8>)
    requires
        store_ok(e, prefix),
        seen_by(e, now),
        name_ok(name, prefix),
    ensures
        value_of(after_sighting(e, name, now, rssi), name) == Some((now, rssi)),
{
    lemma_after_sighting_shape(e, name, now, now, rssi, prefix);
    if has_key(e, name) {
        lemma_with_value_unique(e, name, (now, rssi));
    } else {
        lemma_push_fresh_unique(make_room(e, now), name, (now, rssi));
    }
}

/// Hearing a tag that is already remembered only refreshes its sighting:
/// the names and their order stay, and every other sighting stays.
pub proof fn law_refresh_keeps_others(e: Seq<TagEntry>, name: Seq<char>, now: u64, rssi: i8)
    requires
        keys_unique(e),
        has_key(e, name),
    ensures
        keys_of(after_sighting(e, name, now, rssi)) == keys_of(e),
        forall|k: Seq<char>| k != name ==> value_of(#[trigger] after_sighting(e, name, now, rssi), k) == value_of(e, k),
{
    lemma_with_value_unique(e, name, (now, rssi));
}

/// A new tag that finds room is added last and nothing is forgotten.
pub proof fn law_new_tag_with_room(e: Seq<TagEntry>, name: Seq<char>, now: u64, rssi: i8)
    requires
        keys_unique(e),
        !has_key(e, name),
        e.len() < MAX_SEEN,
    ensures
        after_sighting(e, name, now, rssi) == e.push((name, (now, rssi))),
        forall|k: Seq<char>| k != name ==> value_of(#[trigger] after_sighting(e, name, now, rssi), k) == value_of(e, k),
{
    lemma_push_fresh_unique(e, name, (now, rssi));
}

/// A new tag that finds the memory full while some tag is stale makes it
/// forget exactly the stale tags; the others keep their sightings.
pub proof fn law_full_forgets_stale(e: Seq<TagEntry>, name: Seq<char>, now: u64, rssi: i8, prefix: Seq<u8>)
    requires
        store_ok(e, prefix),
        seen_by(e, now),
        name_ok(name, prefix),
        !has_key(e, name),
        e.len() == MAX_SEEN,
        exists|i: int| 0 <= i < e.len() && !is_recent_spec(now, (#[trigger] e[i]).1.0),
    ensures
        forall|k: Seq<char>| k != name ==> (has_key(#[trigger] after_sighting(e, name, now, rssi), k) <==> (
            has_key(e, k) && is_recent_spec(now, value_of(e, k).unwrap().0))),
        forall|k: Seq<char>|
            k != name && has_key(#[trigger] after_sighting(e, name, now, rssi), k) ==> value_of(
                after_sighting(e, name, now, rssi),
                k,
            ) == value_of(e, k),
{
    let pred = |x: TagEntry| is_recent_spec(now, x.1.0);
    let i = choose|i: int| 0 <= i < e.len() && !is_recent_spec(now, (#[trigger] e[i]).1.0);
    lemma_filter_drops(e, pred, i);
    let fresh = recent_entries(e, now);
    lemma_filter_keeps_shape(e, now, prefix);
    assert(!has_key(fresh, name));
    lemma_push_fresh_unique(fresh, name, (now, rssi));
    let a = after_sighting(e, name, now, rssi);
    assert(a == fresh.push((name, (now, rssi))));
    assert forall|k: Seq<char>| k != name implies (has_key(#[trigger] after_sighting(e, name, now, rssi), k) <==> (
        has_key(e, k) && is_recent_spec(now, value_of(e, k).unwrap().0))) by {
        lemma_filter_values(e, pred, k);
        if has_key(a, k) {
            let j = choose|j: int| 0 <= j < a.len() && (#[trigger] a[j]).0 == k;
            assert(j < fresh.len());
            assert(a[j] == fresh[j]);
        }
        if has_key(fresh, k) {
            let j = choose|j: int| 0 <= j < fresh.len() && (#[trigger] fresh[j]).0 == k;
            assert(a[j] == fresh[j]);
        }
    }
    assert forall|k: Seq<char>|
        k != name && has_key(#[trigger] after_sighting(e, name, now, rssi), k) implies value_of(
            after_sighting(e, name, now, rssi),
            k,
        ) == value_of(e, k) by {
        lemma_filter_values(e, pred, k);
        let j = choose|j: int| 0 <= j < a.len() && (#[trigger] a[j]).0 == k;
        assert(a[j] == fresh[j]);
    }
}

/// A new tag that finds the memory full of recent tags makes it forget the
/// oldest sighting, the last entry taking its place, and goes last.
pub proof fn law_full_forgets_oldest(e: Seq<TagEntry>, name: Seq<char>, now: u64, rssi: i8)
    requires
        !has_key(e, name),
        e.len() == MAX_SEEN,
        forall|i: int| 0 <= i < e.len() ==> is_recent_spec(now, (#[trigger] e[i]).1.0),
    ensures
        after_sighting(e, name, now, rssi) == swap_remove_at(e, oldest_index(e)).push((name, (now, rssi))),
{
    let pred = |x: TagEntry| is_recent_spec(now, x.1.0);
    assert forall|i: int| 0 <= i < e.len() implies pred(#[trigger] e[i]) by {}
    lemma_filter_all(e, pred);
}

/// The oldest sighting: none is older, and every entry before it is newer.
pub proof fn law_oldest_is_first_minimal(e: Seq<TagEntry>)
    requires
        e.len() >= 1,
    ensures
        0 <= oldest_index(e) < e.len(),
        forall|j: int| 0 <= j < e.len() ==> !older(#[trigger] e[j].1, e[oldest_index(e)].1),
        forall|j: int| 0 <= j < oldest_index(e) ==> older(e[oldest_index(e)].1, #[trigger] e[j].1),
    decreases e.len(),
{
    lemma_oldest_index_range(e);
    if e.len() > 1 {
        let d = e.drop_last();
        law_oldest_is_first_minimal(d);
        assert forall|j: int| 0 <= j < d.len() implies #[trigger] e[j] == d[j] by {}
    }
}

/// A new tag that finds the memory full of tags heard at most
/// `TAG_EXPIRY_MS` before `now` makes it forget exactly one tag: the first
/// one whose sighting is oldest, by time and then by strength. The others
/// keep their sightings, and the new tag is remembered as just heard.
pub proof fn law_full_forgets_exactly_oldest(e: Seq<TagEntry>, name: Seq<char>, now: u64, rssi: i8)
    requires
        keys_unique(e),
        !has_key(e, name),
        e.len() == MAX_SEEN,
        forall|i: int| 0 <= i < e.len() ==> now - (#[trigger] e[i]).1.0 <= TAG_EXPIRY_MS,
    ensures
        after_sighting(e, name, now, rssi).len() == MAX_SEEN,
        value_of(after_sighting(e, name, now, rssi), name) == Some((now, rssi)),
        exists|g: int|
            0 <= g < e.len() && !has_key(after_sighting(e, name, now, rssi), e[g].0) && (forall|j: int|
                0 <= j < e.len() ==> e[g].1.0 < (#[trigger] e[j]).1.0 || (e[g].1.0 == e[j].1.0 && e[g].1.1
                    <= e[j].1.1)) && (forall|j: int|
                0 <= j < g ==> e[g].1.0 < (#[trigger] e[j]).1.0 || (e[g].1.0 == e[j].1.0 && e[g].1.1 < e[j].1.1))
                && (forall|k: Seq<char>|
                has_key(e, k) && k != e[g].0 ==> #[trigger] value_of(after_sighting(e, name, now, rssi), k)
                    == value_of(e, k)),
{
    assert forall|i: int| 0 <= i < e.len() implies is_recent_spec(now, (#[trigger] e[i]).1.0) by {}
    law_full_forgets_oldest(e, name, now, rssi);
    law_oldest_is_first_minimal(e);
    let g = oldest_index(e);
    let r = swap_remove_at(e, g);
    lemma_swap_remove_unique(e, g);
    lemma_swap_remove_members(e, g);
    assert(!has_key(r, name)) by {
        if has_key(r, name) {
            let j = choose|j: int| 0 <= j < r.len() && (#[trigger] r[j]).0 == name;
            let m = choose|m: int| 0 <= m < e.len() && m != g && #[trigger] r[j] == e[m];
            assert(e[m].0 == name);
        }
    }
    lemma_push_fresh_unique(r, name, (now, rssi));
    let a = after_sighting(e, name, now, rssi);
    assert(!has_key(a, e[g].0)) by {
        if has_key(a, e[g].0) {
            let j = choose|j: int| 0 <= j < a.len() && (#[trigger] a[j]).0 == e[g].0;
            if j < r.len() {
                assert(a[j] == r[j]);
            }
        }
    }
    assert forall|j: int| 0 <= j < e.len() implies e[g].1.0 < (#[trigger] e[j]).1.0 || (e[g].1.0 == e[j].1.0
        && e[g].1.1 <= e[j].1.1) by {
        assert(!older(e[j].1, e[g].1));
    }
    assert forall|j: int| 0 <= j < g implies e[g].1.0 < (#[trigger] e[j]).1.0 || (e[g].1.0 == e[j].1.0 && e[g].1.1
        < e[j].1.1) by {
        assert(older(e[g].1, e[j].1));
    }
    assert forall|k: Seq<char>| has_key(e, k) && k != e[g].0 implies #[trigger] value_of(a, k) == value_of(e, k) by {
        assert(k != name);
    }
}

/// A report lists every remembered tag once, in the memory's order, with
/// its strength and the whole seconds since it was last heard: `a` with
/// `1000 a <= now - t < 1000 (a + 1)` for a sighting at `t`, or `u16::MAX`
/// once that is more than `u16::MAX`.
pub proof fn law_report_lists_memory(e: Seq<TagEntry>, now: u64)
    requires
        seen_by(e, now),
    ensures
        report_of(e, now).len() == e.len(),
        forall|i: int|
            0 <= i < e.len() ==> (#[trigger] report_of(e, now)[i]).0 == e[i].0 && report_of(e, now)[i].2
                == e[i].1.1,
        forall|i: int|
            0 <= i < e.len() && now - e[i].1.0 < 65_536_000 ==> (#[trigger] report_of(e, now)[i]).1 * 1000 <= now
                - e[i].1.0 < report_of(e, now)[i].1 * 1000 + 1000,
        forall|i: int|
            0 <= i < e.len() && now - e[i].1.0 >= 65_536_000 ==> (#[trigger] report_of(e, now)[i]).1 == u16::MAX,
{
    assert forall|i: int| 0 <= i < e.len() && now - e[i].1.0 < 65_536_000 implies (#[trigger] report_of(e, now)[i]).1
        * 1000 <= now - e[i].1.0 < report_of(e, now)[i].1 * 1000 + 1000 by {
        let d: int = now - e[i].1.0;
        assert(e[i].1.0 <= now);
        assert(d / 1000 <= 65535);
        assert((d / 1000) * 1000 <= d < (d / 1000) * 1000 + 1000) by (nonlinear_arith)
            requires d >= 0;
    }
}

/// A cleanup at `now` forgets exactly the tags heard more than
/// `TAG_EXPIRY_MS` before `now`; the others keep their sightings.
pub proof fn law_cleanup_forgets_exactly_expired(e: Seq<TagEntry>, now: u64)
    requires
        keys_unique(e),
    ensures
        forall|k: Seq<char>| has_key(#[trigger] recent_entries(e, now), k) <==> (has_key(e, k) && now
            - value_of(e, k).unwrap().0 <= TAG_EXPIRY_MS),
        forall|k: Seq<char>|
            has_key(#[trigger] recent_entries(e, now), k) ==> value_of(recent_entries(e, now), k) == value_of(e, k),
{
    let pred = |x: TagEntry| is_recent_spec(now, x.1.0);
    assert forall|k: Seq<char>| has_key(#[trigger] recent_entries(e, now), k) <==> (has_key(e, k) && now
        - value_of(e, k).unwrap().0 <= TAG_EXPIRY_MS) by {
        lemma_filter_values(e, pred, k);
    }
    assert forall|k: Seq<char>|
        has_key(#[trigger] recent_entries(e, now), k) implies value_of(recent_entries(e, now), k) == value_of(e, k) by {
        lemma_filter_values(e, pred, k);
    }
}

/// A second cleanup at the same time changes nothing.
pub proof fn law_cleanup_idempotent(e: Seq<TagEntry>, now: u64)
    ensures
        recent_entries(recent_entries(e, now), now) == recent_entries(e, now),
{
    let pred = |x: TagEntry| is_recent_spec(now, x.1.0);
    let f = e.filter(pred);
    assert forall|i: int| 0 <= i < f.len() implies pred(#[trigger] f[i]) by {
        e.lemma_filter_pred(pred, i);
    }
    lemma_filter_all(f, pred);
}

} // verus!
