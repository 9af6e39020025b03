//! Trusted declarations for the hash containers of the `hashbrown` crate.
//!
//! The kernel keeps three hash containers: the swapper's map from virtual
//! page numbers to resident frames, the mapping's map from virtual page
//! numbers to swap trackers, and the processor's set of sleeping threads.
//! Verus does not read `hashbrown`, so the types are declared opaque, each
//! container's contents get a name, and every method the kernel calls goes
//! through a wrapper whose contract states, over that name, what the
//! crate's documentation promises of the call.

use vstd::prelude::*;
use std::collections::hash_map::RandomState;
use crate::frame::FrameTracker;
use crate::swap::SwapTracker;

verus! {

/// The swapper's map from virtual page numbers to resident frames.
pub type FrameMap = hashbrown::HashMap<u64, FrameTracker, RandomState>;

/// The mapping's map from virtual page numbers to swap trackers.
pub type SwapMap = hashbrown::HashMap<u64, SwapTracker, RandomState>;

/// The processor's set of sleeping thread ids.
pub type SleepSet = hashbrown::HashSet<i64, RandomState>;

#[verifier::external_type_specification]
#[verifier::external_body]
#[verifier::reject_recursive_types(K)]
#[verifier::reject_recursive_types(V)]
#[verifier::reject_recursive_types(S)]
pub struct ExHashMap<K, V, S>(hashbrown::HashMap<K, V, S>);

#[verifier::external_type_specification]
#[verifier::external_body]
#[verifier::reject_recursive_types(T)]
#[verifier::reject_recursive_types(S)]
pub struct ExHashSet<T, S>(hashbrown::HashSet<T, S>);

/// What a frame map holds: for each mapped virtual page number, the page
/// number and contents of the frame stored under it.
pub uninterp spec fn frame_map_view(m: FrameMap) -> Map<u64, (u64, Seq<u8>)>;

/// What a swap map holds: for each swapped-out virtual page number, the swap
/// slot index of the tracker stored under it.
pub uninterp spec fn swap_map_view(m: SwapMap) -> Map<u64, usize>;

/// What a sleeping set holds: the ids of the threads in it.
pub uninterp spec fn sleep_set_view(s: SleepSet) -> Set<i64>;

/// Relies on hashbrown's `HashMap::new`; nothing is assumed of the result,
/// a clearing call pins it down.
#[verifier::external_body]
pub(crate) fn frame_map_new() -> FrameMap {
    hashbrown::HashMap::with_hasher(RandomState::new())
}

/// Relies on hashbrown's `HashMap::clear`: afterwards the map holds nothing.
#[verifier::external_body]
pub(crate) fn frame_map_clear(m: &mut FrameMap)
    ensures
        frame_map_view(*final(m))
            == frame_map_view(*old(m)).remove_keys(frame_map_view(*old(m)).dom()),
{
    m.clear();
}

/// Relies on hashbrown's `HashMap::len`: the number of stored entries.
#[verifier::external_body]
pub(crate) fn frame_map_len(m: &FrameMap) -> (r: usize)
    ensures
        r == frame_map_view(*m).dom().len(),
{
    m.len()
}

/// Relies on hashbrown's `HashMap::insert`: the map then holds `frame` under
/// `vpn` and every other entry stays.
#[verifier::external_body]
pub(crate) fn frame_map_insert(
    m: &mut FrameMap,
    vpn: u64,
    frame: FrameTracker,
)
    ensures
        frame_map_view(*final(m))
            == frame_map_view(*old(m)).insert(vpn, (frame.ppn, frame.data@)),
{
    m.insert(vpn, frame);
}

/// Relies on hashbrown's `HashMap::remove`: takes the entry under `vpn` out
/// and returns it; without one the map stays as it was.
#[verifier::external_body]
pub(crate) fn frame_map_remove(
    m: &mut FrameMap,
    vpn: u64,
) -> (r: Option<FrameTracker>)
    ensures
        frame_map_view(*old(m)).contains_key(vpn) ==> {
            &&& r matches Some(f)
            &&& f.ppn == frame_map_view(*old(m))[vpn].0
            &&& f.data@ == frame_map_view(*old(m))[vpn].1
            &&& frame_map_view(*final(m)) == frame_map_view(*old(m)).remove(vpn)
        },
        !frame_map_view(*old(m)).contains_key(vpn) ==> {
            &&& r is None
            &&& frame_map_view(*final(m)) == frame_map_view(*old(m))
        },
{
    m.remove(&vpn)
}

/// Relies on hashbrown's `HashMap::get`: a reference to the entry under
/// `vpn`, or `None` without one.
#[verifier::external_body]
pub(crate) fn frame_map_get(
    m: &FrameMap,
    vpn: u64,
) -> (r: Option<&FrameTracker>)
    ensures
        r matches Some(f) ==> frame_map_view(*m).contains_key(vpn)
            && f.ppn == frame_map_view(*m)[vpn].0
            && f.data@ == frame_map_view(*m)[vpn].1,
        r is None ==> !frame_map_view(*m).contains_key(vpn),
{
    m.get(&vpn)
}

/// Relies on hashbrown's `HashMap::new`; nothing is assumed of the result,
/// a clearing call pins it down.
#[verifier::external_body]
pub(crate) fn swap_map_new() -> SwapMap {
    hashbrown::HashMap::with_hasher(RandomState::new())
}

/// Relies on hashbrown's `HashMap::clear`: afterwards the map holds nothing.
#[verifier::external_body]
pub(crate) fn swap_map_clear(m: &mut SwapMap)
    ensures
        swap_map_view(*final(m))
            == swap_map_view(*old(m)).remove_keys(swap_map_view(*old(m)).dom()),
{
    m.clear();
}

/// Relies on hashbrown's `HashMap::insert`: the map then holds `tracker`
/// under `vpn` and every other entry stays.
#[verifier::external_body]
pub(crate) fn swap_map_insert(
    m: &mut SwapMap,
    vpn: u64,
    tracker: SwapTracker,
)
    ensures
        swap_map_view(*final(m)) == swap_map_view(*old(m)).insert(vpn, tracker.index),
{
    m.insert(vpn, tracker);
}

/// Relies on hashbrown's `HashMap::remove`: takes the entry under `vpn` out
/// and returns it; without one the map stays as it was.
#[verifier::external_body]
pub(crate) fn swap_map_remove(
    m: &mut SwapMap,
    vpn: u64,
) -> (r: Option<SwapTracker>)
    ensures
        swap_map_view(*old(m)).contains_key(vpn) ==> {
            &&& r matches Some(t)
            &&& t.index == swap_map_view(*old(m))[vpn]
            &&& swap_map_view(*final(m)) == swap_map_view(*old(m)).remove(vpn)
        },
        !swap_map_view(*old(m)).contains_key(vpn) ==> {
            &&& r is None
            &&& swap_map_view(*final(m)) == swap_map_view(*old(m))
        },
{
    m.remove(&vpn)
}

/// Relies on hashbrown's `HashSet::new`; nothing is assumed of the result,
/// a clearing call pins it down.
#[verifier::external_body]
pub(crate) fn sleep_set_new() -> SleepSet {
    hashbrown::HashSet::with_hasher(RandomState::new())
}

/// Relies on hashbrown's `HashSet::clear`: afterwards the set holds nothing.
#[verifier::external_body]
pub(crate) fn sleep_set_clear(s: &mut SleepSet)
    ensures
        sleep_set_view(*final(s)) == sleep_set_view(*old(s)).difference(sleep_set_view(*old(s))),
{
    s.clear();
}

/// Relies on hashbrown's `HashSet::insert`: the set then holds `id` and
/// every other member stays.
#[verifier::external_body]
pub(crate) fn sleep_set_insert(s: &mut SleepSet, id: i64)
    ensures
        sleep_set_view(*final(s)) == sleep_set_view(*old(s)).insert(id),
{
    s.insert(id);
}

/// Relies on hashbrown's `HashSet::remove`: the set then no longer holds
/// `id` and every other member stays.
#[verifier::external_body]
pub(crate) fn sleep_set_remove(s: &mut SleepSet, id: i64)
    ensures
        sleep_set_view(*final(s)) == sleep_set_view(*old(s)).remove(id),
{
    s.remove(&id);
}

/// Relies on hashbrown's `HashSet::is_empty`: whether the set has no member.
#[verifier::external_body]
pub(crate) fn sleep_set_is_empty(s: &SleepSet) -> (r: bool)
    ensures
        r <==> sleep_set_view(*s) == Set::<i64>::empty(),
{
    s.is_empty()
}

/// Relies on hashbrown's `HashSet::contains`: whether the set holds `id`.
#[verifier::external_body]
pub(crate) fn sleep_set_contains(s: &SleepSet, id: i64) -> (r: bool)
    ensures
        r == sleep_set_view(*s).contains(id),
{
    s.contains(&id)
}

} // verus!
