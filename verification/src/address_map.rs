//! The address scanner's map of device addresses to their first sighting: a
//! `heapless::index_map::FnvIndexMap`, reached through the calls below.
use vstd::prelude::*;
use crate::entries::{has_key, swap_remove_at};
use crate::tag_store::{is_recent, is_recent_spec};
use crate::address_tracker::{AddressEntry, MAX_ADDRESSES};

verus! {

/// Device address to the time, in milliseconds, it was first heard.
pub type AddressMap = heapless::index_map::FnvIndexMap<[u8; 6], u64, MAX_ADDRESSES>;

/// The entries of an address map, in the map's iteration order.
pub uninterp spec fn address_map_entries(m: AddressMap) -> Seq<AddressEntry>;

/// `FnvIndexMap::new`: an empty map.
#[verifier::external_body]
pub(crate) fn address_map_new() -> (m: AddressMap)
    ensures
        address_map_entries(m) == Seq::<AddressEntry>::empty(),
{
    heapless::index_map::FnvIndexMap::new()
}

/// `IndexMap::len`: the number of entries.
#[verifier::external_body]
pub(crate) fn address_map_len(m: &AddressMap) -> (r: usize)
    ensures
        r == address_map_entries(*m).len(),
{
    m.len()
}

/// `IndexMap::contains_key`: whether an entry has key `k`.
#[verifier::external_body]
pub(crate) fn address_map_contains(m: &AddressMap, k: &[u8; 6]) -> (r: bool)
    ensures
        r == has_key(address_map_entries(*m), *k),
{
    m.contains_key(k)
}

/// `IndexMap::insert` of a key that is not in the map: it goes last if the
/// map has room; a full map refuses it and stays as it was. Returns whether
/// the pair went in.
#[verifier::external_body]
pub(crate) fn address_map_insert_new(m: &mut AddressMap, k: [u8; 6], v: u64) -> (r: bool)
    requires
        !has_key(address_map_entries(*old(m)), k),
    ensures
        address_map_entries(*old(m)).len() < MAX_ADDRESSES ==> r && address_map_entries(*final(m))
            == address_map_entries(*old(m)).push((k, v)),
        address_map_entries(*old(m)).len() >= MAX_ADDRESSES ==> !r && address_map_entries(*final(m))
            == address_map_entries(*old(m)),
{
    match m.insert(k, v) {
        Ok(_) => true,
        Err(_) => false,
    }
}

/// `IndexMap::remove`: removes the entry with key `k`, the last entry taking
/// its place; without such an entry the map stays as it was.
#[verifier::external_body]
pub(crate) fn address_map_remove(m: &mut AddressMap, k: &[u8; 6])
    ensures
        !has_key(address_map_entries(*old(m)), *k) ==> address_map_entries(*final(m))
            == address_map_entries(*old(m)),
        has_key(address_map_entries(*old(m)), *k) ==> exists|i: int|
            0 <= i < address_map_entries(*old(m)).len() && (#[trigger] address_map_entries(
                *old(m),
            )[i]).0 == *k && address_map_entries(*final(m)) == swap_remove_at(
                address_map_entries(*old(m)),
                i,
            ),
{
    let _ = m.remove(k);
}

/// `IndexMap::retain` with `is_recent`: keeps, in order, the entries heard
/// at most the expiry time before `now`.
#[verifier::external_body]
pub(crate) fn address_map_retain_recent(m: &mut AddressMap, now: u64)
    requires
        forall|i: int|
            0 <= i < address_map_entries(*old(m)).len() ==> (#[trigger] address_map_entries(
                *old(m),
            )[i]).1 <= now,
    ensures
        address_map_entries(*final(m)) == address_map_entries(*old(m)).filter(
            |e: AddressEntry| is_recent_spec(now, e.1),
        ),
{
    m.retain(|_, v| is_recent(now, *v))
}

/// `IndexMap::iter`: the entries in iteration order.
#[verifier::external_body]
pub(crate) fn address_map_list(m: &AddressMap) -> (r: Vec<([u8; 6], u64)>)
    ensures
        r@ == address_map_entries(*m),
{
    m.iter().map(|(k, v)| (*k, *v)).collect()
}

} // verus!
