//! The concurrent map that holds the program events of slots whose block is still to come.

use vstd::prelude::*;

use ahash::RandomState;
use dashmap::DashMap;

verus! {

/// Invocation statistics of one program within one slot.
#[derive(Copy, Clone, Debug, PartialEq, Eq, Hash)]
pub struct ProgramEvent {
    /// The slot, capped to what fits a `u32`.
    pub slot: u32,
    /// Block time in seconds; zero until the block is known.
    pub timestamp: u32,
    /// The address of the program.
    pub program_id: [u8; 32],
    /// Whether the invocations were part of vote transactions.
    pub is_vote: bool,
    /// How often the program was invoked.
    pub count: u32,
    /// How often by a transaction that failed.
    pub error_count: u32,
    /// The smallest share of compute units of an invocation.
    pub min_cus: u32,
    /// The largest share of compute units of an invocation.
    pub max_cus: u32,
    /// The shares of compute units of all invocations together.
    pub total_cus: u32,
}

/// `ahash::RandomState`, the hasher of the map.
#[verifier::external_type_specification]
#[verifier::external_body]
pub struct ExRandomState(ahash::RandomState);

/// `dashmap::DashMap`, a hash map that threads can share.
#[verifier::external_type_specification]
#[verifier::external_body]
#[verifier::reject_recursive_types(K)]
#[verifier::reject_recursive_types(V)]
#[verifier::reject_recursive_types(S)]
pub struct ExDashMap<K, V, S>(dashmap::DashMap<K, V, S>);

/// What a `DashMap` from slots to events holds.
pub uninterp spec fn slot_contents(map: DashMap<u64, Vec<ProgramEvent>, RandomState>) -> Map<u64, Seq<ProgramEvent>>;

/// A map without slots.
pub open spec fn no_slots() -> Map<u64, Seq<ProgramEvent>> {
    Map::empty()
}

/// The events of a slot, none where the slot is absent.
pub open spec fn events_of(pending: Map<u64, Seq<ProgramEvent>>, slot: u64) -> Seq<ProgramEvent> {
    if pending.dom().contains(slot) {
        pending[slot]
    } else {
        Seq::empty()
    }
}

/// `DashMap::with_hasher`: a new map holds nothing.
#[verifier::external_body]
pub(crate) fn new_slot_map() -> (r: DashMap<u64, Vec<ProgramEvent>, RandomState>)
    ensures
        slot_contents(r) == no_slots(),
{
    DashMap::with_hasher(RandomState::new())
}

/// `DashMap::entry` with `Entry::or_insert_with`: the entry of a slot, made empty where it is
/// absent. Its events are moved out, so that the slot is left with none; other slots keep theirs.
#[verifier::external_body]
pub(crate) fn take_entry(map: &mut DashMap<u64, Vec<ProgramEvent>, RandomState>, slot: u64) -> (r:
    Vec<ProgramEvent>)
    ensures
        r@ == events_of(slot_contents(*old(map)), slot),
        slot_contents(*final(map)) == slot_contents(*old(map)).insert(slot, Seq::empty()),
{
    std::mem::take(map.entry(slot).or_insert_with(Vec::new).value_mut())
}

/// `DashMap::insert`: the slot has these events afterwards, whatever it had before; other slots
/// keep theirs.
#[verifier::external_body]
pub(crate) fn insert_slot(map: &mut DashMap<u64, Vec<ProgramEvent>, RandomState>, slot: u64, events: Vec<ProgramEvent>)
    ensures
        slot_contents(*final(map)) == slot_contents(*old(map)).insert(slot, events@),
{
    map.insert(slot, events);
}

/// `DashMap::remove`: gives out the events of a slot, if it is there; the slot is gone
/// afterwards, and other slots keep theirs.
#[verifier::external_body]
pub(crate) fn remove_slot(map: &mut DashMap<u64, Vec<ProgramEvent>, RandomState>, slot: u64) -> (r:
    Option<Vec<ProgramEvent>>)
    ensures
        r is Some == slot_contents(*old(map)).dom().contains(slot),
        r is Some ==> r->0@ == slot_contents(*old(map))[slot],
        slot_contents(*final(map)) == slot_contents(*old(map)).remove(slot),
{
    map.remove(&slot).map(|entry| entry.1)
}

/// `DashMap::iter`: walks over each slot that the map holds once, in no particular order; of each
/// entry the slot is kept.
#[verifier::external_body]
pub(crate) fn slots(map: &DashMap<u64, Vec<ProgramEvent>, RandomState>) -> (r: Vec<u64>)
    ensures
        r@.no_duplicates(),
        r@.to_set() == slot_contents(*map).dom(),
{
    map.iter().map(|entry| *entry.key()).collect()
}

} // verus!
