//! The scanner's map of tag names to their last sighting: a
//! `heapless::index_map::FnvIndexMap`, reached through the calls below.
use vstd::prelude::*;
use crate::entries::{has_key, with_value, swap_remove_at};
use crate::types::MAX_SEEN;
use crate::tag_store::{is_recent, is_recent_spec, TagEntry};

verus! {

/// Tag name to (time of the last sighting in milliseconds, signal strength).
pub type TagMap = heapless::index_map::FnvIndexMap<String, (u64, i8), MAX_SEEN>;

/// The entries of a tag map, in the map's iteration order.
pub uninterp spec fn tag_map_entries(m: TagMap) -> Seq<TagEntry>;

/// The entries of `v` are those of `e`, names taken as characters.
pub open spec fn listed_as(v: Seq<(String, u64, i8)>, e: Seq<TagEntry>) -> bool {
    &&& v.len() == e.len()
    &&& forall|i: int| 0 <= i < v.len() ==> (#[trigger] v[i]).0@ == e[i].0 && (v[i].1, v[i].2) == e[i].1
}

/// `FnvIndexMap::new`: an empty map.
#[verifier::external_body]
pub(crate) fn tag_map_new() -> (m: TagMap)
    ensures
        tag_map_entries(m) == Seq::<TagEntry>::empty(),
{
    heapless::index_map::FnvIndexMap::new()
}

/// `IndexMap::len`: the number of entries.
#[verifier::external_body]
pub(crate) fn tag_map_len(m: &TagMap) -> (r: usize)
    ensures
        r == tag_map_entries(*m).len(),
{
    m.len()
}

/// `IndexMap::contains_key`: whether an entry has key `k`.
#[verifier::external_body]
pub(crate) fn tag_map_contains(m: &TagMap, k: &String) -> (r: bool)
    ensures
        r == has_key(tag_map_entries(*m), k@),
{
    m.contains_key(k)
}

/// `IndexMap::insert`: an existing key keeps its place and takes the new
/// value; a new key goes last if the map has room; a full map refuses a new
/// key and stays as it was. Returns whether the pair went in.
#[verifier::external_body]
pub(crate) fn tag_map_insert(m: &mut TagMap, k: String, v: (u64, i8)) -> (r: bool)
    ensures
        has_key(tag_map_entries(*old(m)), k@) ==> r && tag_map_entries(*final(m)) == with_value(
            tag_map_entries(*old(m)),
            k@,
            v,
        ),
        !has_key(tag_map_entries(*old(m)), k@) && tag_map_entries(*old(m)).len() < MAX_SEEN ==> r
            && tag_map_entries(*final(m)) == tag_map_entries(*old(m)).push((k@, v)),
        !has_key(tag_map_entries(*old(m)), k@) && tag_map_entries(*old(m)).len() >= MAX_SEEN ==> !r
            && tag_map_entries(*final(m)) == tag_map_entries(*old(m)),
{
    match m.insert(k, v) {
        Ok(_) => true,
        Err(_) => false,
    }
}

/// `IndexMap::clear`: removes every entry.
#[verifier::external_body]
pub(crate) fn tag_map_clear(m: &mut TagMap)
    ensures
        tag_map_entries(*final(m)) == Seq::<TagEntry>::empty(),
{
    m.clear()
}

/// `IndexMap::remove`: removes the entry with key `k`, the last entry taking
/// its place; without such an entry the map stays as it was.
#[verifier::external_body]
pub(crate) fn tag_map_remove(m: &mut TagMap, k: &String)
    ensures
        !has_key(tag_map_entries(*old(m)), k@) ==> tag_map_entries(*final(m)) == tag_map_entries(
            *old(m),
        ),
        has_key(tag_map_entries(*old(m)), k@) ==> exists|i: int|
            0 <= i < tag_map_entries(*old(m)).len() && (#[trigger] tag_map_entries(*old(m))[i]).0
                == k@ && tag_map_entries(*final(m)) == swap_remove_at(tag_map_entries(*old(m)), i),
{
    let _ = m.remove(k);
}

/// `IndexMap::retain` with `is_recent`: keeps, in order, the entries last
/// seen at most the expiry time before `now`.
#[verifier::external_body]
pub(crate) fn tag_map_retain_recent(m: &mut TagMap, now: u64)
    requires
        forall|i: int|
            0 <= i < tag_map_entries(*old(m)).len() ==> (#[trigger] tag_map_entries(*old(m))[i]).1.0
                <= now,
    ensures
        tag_map_entries(*final(m)) == tag_map_entries(*old(m)).filter(
            |e: TagEntry| is_recent_spec(now, e.1.0),
        ),
{
    m.retain(|_, v| is_recent(now, v.0))
}

/// `IndexMap::iter`: the entries in iteration order, names copied out.
#[verifier::external_body]
pub(crate) fn tag_map_list(m: &TagMap) -> (r: Vec<(String, u64, i8)>)
    ensures
        listed_as(r@, tag_map_entries(*m)),
{
    m.iter().map(|(k, v)| (k.clone(), v.0, v.1)).collect()
}

} // verus!
