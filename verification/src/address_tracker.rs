//! The address scanner's memory of nearby devices.
//!
//! A device is remembered from the first advertisement heard from it; its
//! entry is not refreshed by later ones. The memory holds at most
//! `MAX_ADDRESSES` devices: a new device that finds it full first makes it
//! forget the devices heard more than `TAG_EXPIRY_MS` ago, and if none was,
//! the device heard first.
use vstd::prelude::*;
use crate::entries::{
    has_key, keys_unique, swap_remove_at, value_of, lemma_push_fresh_unique, lemma_swap_remove_unique,
    lemma_filter_unique, lemma_filter_members, lemma_filter_all, lemma_filter_drops, lemma_filter_values,
    lemma_swap_remove_members, lemma_value_of_index,
};
use crate::tag_store::{is_recent_spec, TAG_EXPIRY_MS};
use crate::address_map::{
    AddressMap, address_map_entries, address_map_new, address_map_len, address_map_contains,
    address_map_insert_new, address_map_remove, address_map_retain_recent, address_map_list,
};

verus! {

/// Most devices the address scanner remembers.
pub const MAX_ADDRESSES: usize = 128;

/// A device address with the time, in milliseconds, it was first heard.
pub type AddressEntry = ([u8; 6], u64);

/// The entries heard at most the expiry time before `now`, in order.
pub open spec fn recent_addresses(e: Seq<AddressEntry>, now: u64) -> Seq<AddressEntry> {
    e.filter(|x: AddressEntry| is_recent_spec(now, x.1))
}

/// Position of the earliest entry; the first one among equally early ones.
pub open spec fn earliest_index(e: Seq<AddressEntry>) -> int
    decreases e.len(),
{
    if e.len() <= 1 {
        0
    } else {
        let j = earliest_index(e.drop_last());
        if e.last().1 < e[j].1 {
            e.len() - 1
        } else {
            j
        }
    }
}

/// No entry is later than `now`.
pub open spec fn heard_by(e: Seq<AddressEntry>, now: u64) -> bool {
    forall|i: int| 0 <= i < e.len() ==> (#[trigger] e[i]).1 <= now
}

/// The shape every address memory keeps: addresses unique, at most `MAX_ADDRESSES` of them.
pub open spec fn tracker_ok(e: Seq<AddressEntry>) -> bool {
    keys_unique(e) && e.len() <= MAX_ADDRESSES
}

/// The entries left for a new device heard at `now`.
pub open spec fn make_room_for_address(e: Seq<AddressEntry>, now: u64) -> Seq<AddressEntry> {
    if e.len() < MAX_ADDRESSES {
        e
    } else {
        let fresh = recent_addresses(e, now);
        if fresh.len() < MAX_ADDRESSES {
            fresh
        } else {
            swap_remove_at(fresh, earliest_index(fresh))
        }
    }
}

/// The entries after `addr` is heard at `now`.
pub open spec fn after_address(e: Seq<AddressEntry>, addr: [u8; 6], now: u64) -> Seq<AddressEntry> {
    if has_key(e, addr) {
        e
    } else {
        make_room_for_address(e, now).push((addr, now))
    }
}

/// The bytes `serde_json::to_vec` writes for a list of device addresses:
/// a JSON array holding each address as an array of its six bytes.
pub uninterp spec fn address_list_json(addresses: Seq<[u8; 6]>) -> Seq<u8>;

/// `serde_json::to_vec` on a list of device addresses; its bytes are
/// `address_list_json` of the list. Such a list holds no map and its items
/// always serialize, so the call does not fail and the empty fallback is
/// not taken.
#[verifier::external_body]
fn addresses_to_json(addresses: &[[u8; 6]]) -> (r: Vec<u8>)
    ensures
        r@ == address_list_json(addresses@),
{
    serde_json::to_vec(addresses).unwrap_or_default()
}

/// The devices an address scanner has heard recently.
pub struct AddressTracker {
    seen: AddressMap,
}

proof fn lemma_earliest_index_range(e: Seq<AddressEntry>)
    requires
        e.len() >= 1,
    ensures
        0 <= earliest_index(e) < e.len(),
    decreases e.len(),
{
    if e.len() > 1 {
        lemma_earliest_index_range(e.drop_last());
    }
}

proof fn lemma_earliest_index_step(e: Seq<AddressEntry>, i: int)
    requires
        1 <= i < e.len(),
    ensures
        earliest_index(e.take(i + 1)) == if e[i].1 < e[earliest_index(e.take(i))].1 {
            i
        } else {
            earliest_index(e.take(i))
        },
{
    let t = e.take(i + 1);
    assert(t.drop_last() =~= e.take(i));
    lemma_earliest_index_range(e.take(i));
    assert(t[earliest_index(e.take(i))] == e[earliest_index(e.take(i))]);
}

proof fn lemma_filter_keeps_tracker(e: Seq<AddressEntry>, now: u64)
    requires
        tracker_ok(e),
        heard_by(e, now),
    ensures
        tracker_ok(recent_addresses(e, now)),
        heard_by(recent_addresses(e, now), now),
        forall|k: [u8; 6]| has_key(recent_addresses(e, now), k) ==> has_key(e, k),
{
    let pred = |x: AddressEntry| is_recent_spec(now, x.1);
    lemma_filter_unique(e, pred);
    lemma_filter_members(e, pred);
    let f = e.filter(pred);
    assert forall|i: int| 0 <= i < f.len() implies (#[trigger] f[i]).1 <= now by {
        assert(e.contains(f[i]));
    }
}

proof fn lemma_swap_remove_keeps_tracker(e: Seq<AddressEntry>, i: int, now: u64)
    requires
        tracker_ok(e),
        heard_by(e, now),
        0 <= i < e.len(),
    ensures
        tracker_ok(swap_remove_at(e, i)),
        heard_by(swap_remove_at(e, i), now),
        forall|k: [u8; 6]| has_key(swap_remove_at(e, i), k) ==> has_key(e, k),
{
    lemma_swap_remove_unique(e, i);
    crate::entries::lemma_swap_remove_members(e, i);
    let r = swap_remove_at(e, i);
    assert forall|j: int| 0 <= j < r.len() implies (#[trigger] r[j]).1 <= now by {
        let m = choose|m: int| 0 <= m < e.len() && m != i && r[j] == e[m];
    }
    assert forall|k: [u8; 6]| has_key(r, k) implies has_key(e, k) by {
        let j = choose|j: int| 0 <= j < r.len() && (#[trigger] r[j]).0 == k;
        let m = choose|m: int| 0 <= m < e.len() && m != i && r[j] == e[m];
        assert(e[m].0 == k);
    }
}

/// Hearing a device keeps the memory's shape and leaves no entry after `now`.
pub proof fn lemma_after_address_shape(e: Seq<AddressEntry>, addr: [u8; 6], now: u64)
    requires
        tracker_ok(e),
        heard_by(e, now),
    ensures
        tracker_ok(after_address(e, addr, now)),
        heard_by(after_address(e, addr, now), now),
        !has_key(e, addr) ==> !has_key(make_room_for_address(e, now), addr)
            && make_room_for_address(e, now).len() < MAX_ADDRESSES,
{
    if !has_key(e, addr) {
        let m = make_room_for_address(e, now);
        if e.len() >= MAX_ADDRESSES {
            lemma_filter_keeps_tracker(e, now);
            let fresh = recent_addresses(e, now);
            if fresh.len() >= MAX_ADDRESSES {
                lemma_earliest_index_range(fresh);
                lemma_swap_remove_keeps_tracker(fresh, earliest_index(fresh), now);
            }
        }
        assert(tracker_ok(m) && heard_by(m, now) && !has_key(m, addr) && m.len() < MAX_ADDRESSES);
        lemma_push_fresh_unique(m, addr, now);
        let p = m.push((addr, now));
        assert forall|i: int| 0 <= i < p.len() implies (#[trigger] p[i]).1 <= now by {
            if i < m.len() {
                assert(p[i] == m[i]);
            }
        }
    }
}

impl AddressTracker {
    /// The remembered devices with the time each was first heard, in the memory's order.
    pub closed spec fn entries(&self) -> Seq<AddressEntry> {
        address_map_entries(self.seen)
    }

    /// The memory has its shape.
    pub open spec fn wf(&self) -> bool {
        tracker_ok(self.entries())
    }

    /// An empty memory.
    pub fn new() -> (r: AddressTracker)
        ensures
            r.wf(),
            r.entries() == Seq::<AddressEntry>::empty(),
    {
        AddressTracker { seen: address_map_new() }
    }

    /// How many devices are remembered.
    pub fn len(&self) -> (r: usize)
        ensures
            r == self.entries().len(),
    {
        address_map_len(&self.seen)
    }

    /// Whether no device was heard after `now`.
    pub fn all_heard_by(&self, now: u64) -> (r: bool)
        ensures
            r == heard_by(self.entries(), now),
    {
        let list = address_map_list(&self.seen);
        let mut i: usize = 0;
        while i < list.len()
            invariant
                list@ == self.entries(),
                i <= list@.len(),
                forall|j: int| 0 <= j < i ==> (#[trigger] list@[j]).1 <= now,
            decreases list.len() - i,
        {
            if list[i].1 > now {
                return false;
            }
            i += 1;
        }
        true
    }

    /// The remembered addresses, in the memory's order.
    pub fn addresses(&self) -> (r: Vec<[u8; 6]>)
        ensures
            r@ == self.entries().map_values(|x: AddressEntry| x.0),
    {
        let list = address_map_list(&self.seen);
        let mut r: Vec<[u8; 6]> = Vec::new();
        let mut i: usize = 0;
        while i < list.len()
            invariant
                list@ == self.entries(),
                i <= list@.len(),
                r@ == list@.take(i as int).map_values(|x: AddressEntry| x.0),
            decreases list.len() - i,
        {
            r.push(list[i].0);
            proof {
                assert(list@.take(i + 1).drop_last() =~= list@.take(i as int));
            }
            i += 1;
            assert(r@ =~= list@.take(i as int).map_values(|x: AddressEntry| x.0));
        }
        assert(list@.take(i as int) =~= list@);
        r
    }

    /// The body of the periodic address report: the remembered addresses, in
    /// the memory's order, as JSON.
    pub fn report_body(&self) -> (r: Vec<u8>)
        ensures
            r@ == address_list_json(self.entries().map_values(|x: AddressEntry| x.0)),
    {
        let list = self.addresses();
        addresses_to_json(list.as_slice())
    }

    /// Forgets every device heard more than `TAG_EXPIRY_MS` before `now`.
    pub fn remove_old_entries(&mut self, now: u64)
        requires
            old(self).wf(),
            heard_by(old(self).entries(), now),
        ensures
            final(self).wf(),
            final(self).entries() == recent_addresses(old(self).entries(), now),
    {
        proof {
            lemma_filter_keeps_tracker(self.entries(), now);
        }
        address_map_retain_recent(&mut self.seen, now);
    }

    /// Forgets the device heard first; among equally early ones, the first
    /// in the memory's order.
    pub fn remove_oldest_entry(&mut self)
        requires
            old(self).wf(),
        ensures
            final(self).wf(),
            old(self).entries().len() == 0 ==> final(self).entries() == old(self).entries(),
            old(self).entries().len() > 0 ==> final(self).entries() == swap_remove_at(
                old(self).entries(),
                earliest_index(old(self).entries()),
            ),
    {
        let list = address_map_list(&self.seen);
        let ghost e = self.entries();
        if list.len() == 0 {
            return;
        }
        let mut best: usize = 0;
        let mut i: usize = 1;
        assert(e.take(1).len() == 1);
        while i < list.len()
            invariant
                list@ == e,
                1 <= i <= list@.len(),
                best < i,
                best == earliest_index(e.take(i as int)),
            decreases list.len() - i,
        {
            proof {
                lemma_earliest_index_step(e, i as int);
            }
            if list[i].1 < list[best].1 {
                best = i;
            }
            i += 1;
        }
        assert(e.take(i as int) =~= e);
        let key = list[best].0;
        proof {
            lemma_swap_remove_keeps_tracker(e, best as int, u64::MAX);
            assert(e[best as int].0 == key);
        }
        address_map_remove(&mut self.seen, &key);
        proof {
            let j = choose|j: int|
                0 <= j < e.len() && (#[trigger] e[j]).0 == key && self.entries() == swap_remove_at(e, j);
            assert(j == best);
        }
    }

    /// Hears the device `addr` at `now`. A device not yet remembered is added,
    /// after making room as needed; returns whether it was new.
    pub fn on_adv_report(&mut self, addr: [u8; 6], now: u64) -> (r: bool)
        requires
            old(self).wf(),
            heard_by(old(self).entries(), now),
        ensures
            final(self).wf(),
            heard_by(final(self).entries(), now),
            r == !has_key(old(self).entries(), addr),
            final(self).entries() == after_address(old(self).entries(), addr, now),
    {
        let ghost e = self.entries();
        proof {
            lemma_after_address_shape(e, addr, now);
        }
        if address_map_contains(&self.seen, &addr) {
            return false;
        }
        if address_map_len(&self.seen) >= MAX_ADDRESSES {
            self.remove_old_entries(now);
            if address_map_len(&self.seen) >= MAX_ADDRESSES {
                self.remove_oldest_entry();
            }
        }
        assert(self.entries() == make_room_for_address(e, now));
        let inserted = address_map_insert_new(&mut self.seen, addr, now);
        assert(inserted);
        true
    }
}


/// A device heard for the first time reads back the time it was heard.
pub proof fn law_new_address_reads_back(e: Seq<AddressEntry>, addr: [u8; 6], now: u64)
    requires
        tracker_ok(e),
        heard_by(e, now),
        !has_key(e, addr),
    ensures
        value_of(after_address(e, addr, now), addr) == Some(now),
{
    lemma_after_address_shape(e, addr, now);
    lemma_push_fresh_unique(make_room_for_address(e, now), addr, now);
}

/// Hearing a device already remembered changes nothing: its entry keeps
/// the time it was first heard.
pub proof fn law_known_address_unchanged(e: Seq<AddressEntry>, addr: [u8; 6], now: u64)
    requires
        has_key(e, addr),
    ensures
        after_address(e, addr, now) == e,
{
}

proof fn lemma_earliest_is_minimal(e: Seq<AddressEntry>)
    requires
        e.len() >= 1,
    ensures
        0 <= earliest_index(e) < e.len(),
        forall|j: int| 0 <= j < e.len() ==> e[earliest_index(e)].1 <= (#[trigger] e[j]).1,
        forall|j: int| 0 <= j < earliest_index(e) ==> e[earliest_index(e)].1 < (#[trigger] e[j]).1,
    decreases e.len(),
{
    lemma_earliest_index_range(e);
    if e.len() > 1 {
        let d = e.drop_last();
        lemma_earliest_is_minimal(d);
        assert forall|j: int| 0 <= j < d.len() implies #[trigger] e[j] == d[j] by {}
    }
}

/// A new device that finds the memory full while some remembered device was
/// heard more than `TAG_EXPIRY_MS` before `now` makes it forget exactly those
/// devices: afterwards it holds the new device, heard at `now`, and every
/// device heard at most `TAG_EXPIRY_MS` before `now`, each with its time.
pub proof fn law_full_address_forgets_stale(e: Seq<AddressEntry>, addr: [u8; 6], now: u64)
    requires
        tracker_ok(e),
        heard_by(e, now),
        !has_key(e, addr),
        e.len() == MAX_ADDRESSES,
        exists|i: int| 0 <= i < e.len() && now - (#[trigger] e[i]).1 > TAG_EXPIRY_MS,
    ensures
        forall|k: [u8; 6]|
            has_key(#[trigger] after_address(e, addr, now), k) <==> (k == addr || (has_key(e, k) && now
                - value_of(e, k).unwrap() <= TAG_EXPIRY_MS)),
        forall|k: [u8; 6]|
            k != addr && has_key(#[trigger] after_address(e, addr, now), k) ==> value_of(
                after_address(e, addr, now),
                k,
            ) == value_of(e, k),
        value_of(after_address(e, addr, now), addr) == Some(now),
{
    let pred = |x: AddressEntry| is_recent_spec(now, x.1);
    let i = choose|i: int| 0 <= i < e.len() && now - (#[trigger] e[i]).1 > TAG_EXPIRY_MS;
    lemma_filter_drops(e, pred, i);
    let fresh = recent_addresses(e, now);
    lemma_filter_keeps_tracker(e, now);
    assert(!has_key(fresh, addr));
    lemma_push_fresh_unique(fresh, addr, now);
    let a = after_address(e, addr, now);
    assert(a == fresh.push((addr, now)));
    assert forall|k: [u8; 6]| has_key(#[trigger] after_address(e, addr, now), k) <==> (k == addr || (has_key(e, k)
        && now - value_of(e, k).unwrap() <= TAG_EXPIRY_MS)) by {
        lemma_filter_values(e, pred, k);
        assert(a[a.len() - 1].0 == addr);
        if has_key(a, k) && k != addr {
            let j = choose|j: int| 0 <= j < a.len() && (#[trigger] a[j]).0 == k;
            assert(j < fresh.len());
            assert(a[j] == fresh[j]);
        }
        if has_key(fresh, k) {
            let j = choose|j: int| 0 <= j < fresh.len() && (#[trigger] fresh[j]).0 == k;
            assert(a[j] == fresh[j]);
        }
    }
    assert forall|k: [u8; 6]|
        k != addr && has_key(#[trigger] after_address(e, addr, now), k) implies value_of(
            after_address(e, addr, now),
            k,
        ) == value_of(e, k) by {
        lemma_filter_values(e, pred, k);
        let j = choose|j: int| 0 <= j < a.len() && (#[trigger] a[j]).0 == k;
        assert(a[j] == fresh[j]);
    }
}

/// A new device that finds the memory full of devices heard at most
/// `TAG_EXPIRY_MS` before `now` makes it forget exactly one device: the
/// first one heard no later than any other. All the others stay with their
/// times, and the new device is added, heard at `now`.
pub proof fn law_full_address_forgets_earliest(e: Seq<AddressEntry>, addr: [u8; 6], now: u64)
    requires
        tracker_ok(e),
        heard_by(e, now),
        !has_key(e, addr),
        e.len() == MAX_ADDRESSES,
        forall|i: int| 0 <= i < e.len() ==> now - (#[trigger] e[i]).1 <= TAG_EXPIRY_MS,
    ensures
        after_address(e, addr, now).len() == MAX_ADDRESSES,
        value_of(after_address(e, addr, now), addr) == Some(now),
        exists|g: int|
            0 <= g < e.len() && !has_key(after_address(e, addr, now), e[g].0) && (forall|j: int|
                0 <= j < e.len() ==> e[g].1 <= (#[trigger] e[j]).1) && (forall|j: int|
                0 <= j < g ==> e[g].1 < (#[trigger] e[j]).1) && (forall|k: [u8; 6]|
                has_key(e, k) && k != e[g].0 ==> #[trigger] value_of(after_address(e, addr, now), k) == value_of(
                    e,
                    k,
                )),
{
    let pred = |x: AddressEntry| is_recent_spec(now, x.1);
    assert forall|i: int| 0 <= i < e.len() implies pred(#[trigger] e[i]) by {}
    lemma_filter_all(e, pred);
    assert(recent_addresses(e, now) == e);
    lemma_earliest_is_minimal(e);
    let gi = earliest_index(e);
    let g = e[gi].0;
    let r = swap_remove_at(e, gi);
    lemma_swap_remove_unique(e, gi);
    lemma_swap_remove_members(e, gi);
    assert(!has_key(r, addr)) by {
        if has_key(r, addr) {
            let j = choose|j: int| 0 <= j < r.len() && (#[trigger] r[j]).0 == addr;
            let m = choose|m: int| 0 <= m < e.len() && m != gi && #[trigger] r[j] == e[m];
            assert(e[m].0 == addr);
        }
    }
    lemma_push_fresh_unique(r, addr, now);
    let a = after_address(e, addr, now);
    assert(a == r.push((addr, now)));
    assert(!has_key(a, g)) by {
        if has_key(a, g) {
            let j = choose|j: int| 0 <= j < a.len() && (#[trigger] a[j]).0 == g;
            if j < r.len() {
                assert(a[j] == r[j]);
            }
        }
    }
    assert forall|k: [u8; 6]| has_key(e, k) && k != g implies #[trigger] value_of(a, k) == value_of(e, k) by {
        assert(k != addr);
    }
}

} // verus!
