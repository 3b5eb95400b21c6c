//! Finding the place in an epoch's archive from which a slot can be read.

use vstd::prelude::*;

use crate::epochs::{epoch_end, epoch_start, epoch_to_slot_range, slot_to_epoch, SLOTS_PER_EPOCH};
use crate::node_reader::NodeReader;

verus! {

/// What an epoch's index says of a slot.
#[derive(Copy, Clone, Debug, PartialEq, Eq)]
pub enum SlotLookup<E> {
    /// The slot's data starts at `offset` and has `length` bytes.
    Found { offset: u64, length: u64 },
    /// The slot was skipped.
    NotFound,
    /// The index could not be consulted.
    Failed(E),
}

/// Why no place could be found.
#[derive(Copy, Clone, Debug, PartialEq, Eq)]
pub enum SlotSeekError<E> {
    /// The index could not be consulted.
    Index(E),
    /// The index reports every slot of this epoch as skipped.
    EpochHasNoIndexedSlots(u64),
}

/// What to do next.
#[derive(Copy, Clone, Debug, PartialEq, Eq)]
pub enum SeekStep<E> {
    /// Look this slot up.
    Lookup(u64),
    /// Position the stream at this offset.
    SeekTo(u64),
    /// Give up.
    Fail(SlotSeekError<E>),
}

/// Where the search stands.
#[derive(Copy, Clone, Debug, PartialEq, Eq)]
pub enum SeekPhase {
    /// Looking for the first slot that is present, upwards; this one is being looked up.
    Forward(u64),
    /// Looking for the last slot that is present, downwards; this one is being looked up.
    Backward(u64),
    /// The place is found: this offset.
    Found(u64),
}

/// The search for the place from which `slot` can be read.
#[derive(Copy, Clone, Debug, PartialEq, Eq)]
pub struct SlotSeek {
    pub slot: u64,
    pub phase: SeekPhase,
}

impl SlotSeek {
    /// The first slot of the epoch.
    pub open spec fn first(self) -> int {
        epoch_start(self.slot as int / SLOTS_PER_EPOCH as int)
    }

    /// The last slot of the epoch.
    pub open spec fn last(self) -> int {
        epoch_end(self.slot as int / SLOTS_PER_EPOCH as int)
    }

    /// Whether the search stays within the epoch, upwards from its slot or downwards from it.
    pub open spec fn wf(self) -> bool {
        &&& self.last() <= u64::MAX
        &&& match self.phase {
            SeekPhase::Forward(current) => self.slot <= current <= self.last(),
            SeekPhase::Backward(candidate) => self.first() <= candidate < self.slot,
            SeekPhase::Found(_) => true,
        }
    }

    /// The slot that is being looked up; once the place is found, the slot of the search.
    pub open spec fn current(self) -> u64 {
        match self.phase {
            SeekPhase::Forward(current) => current,
            SeekPhase::Backward(candidate) => candidate,
            SeekPhase::Found(_) => self.slot,
        }
    }

    /// The search with slot `s` being looked up downwards, or its failure where `s` lies before
    /// the epoch.
    pub open spec fn down_to<E>(self, s: int) -> (SlotSeek, SeekStep<E>) {
        if s >= self.first() {
            (
                SlotSeek { phase: SeekPhase::Backward(s as u64), ..self },
                SeekStep::Lookup(s as u64),
            )
        } else {
            (
                self,
                SeekStep::Fail(
                    SlotSeekError::EpochHasNoIndexedSlots((self.slot / SLOTS_PER_EPOCH)),
                ),
            )
        }
    }

    /// The search with its place found.
    pub open spec fn found_at<E>(self, offset: u64) -> (SlotSeek, SeekStep<E>) {
        (SlotSeek { phase: SeekPhase::Found(offset), ..self }, SeekStep::SeekTo(offset))
    }

    /// Where the search goes once the slot being looked up has been answered for: to the first
    /// slot present at or after its own, else just past the data of the last one before it.
    pub open spec fn answered<E>(self, lookup: SlotLookup<E>) -> (SlotSeek, SeekStep<E>) {
        match (lookup, self.phase) {
            (_, SeekPhase::Found(offset)) => self.found_at(offset),
            (SlotLookup::Failed(e), _) => (self, SeekStep::Fail(SlotSeekError::Index(e))),
            (SlotLookup::Found { offset, .. }, SeekPhase::Forward(_)) => self.found_at(offset),
            (SlotLookup::Found { offset, length }, SeekPhase::Backward(_)) => self.found_at(
                (offset + length) as u64,
            ),
            (SlotLookup::NotFound, SeekPhase::Forward(current)) => if current < self.last() {
                (
                    SlotSeek { phase: SeekPhase::Forward((current + 1) as u64), ..self },
                    SeekStep::Lookup((current + 1) as u64),
                )
            } else {
                self.down_to(self.slot - 1)
            },
            (SlotLookup::NotFound, SeekPhase::Backward(candidate)) => self.down_to(candidate - 1),
        }
    }

    /// Starts the search: the slot itself is looked up first.
    pub fn new(slot: u64) -> (r: SlotSeek)
        requires
            epoch_end(slot as int / SLOTS_PER_EPOCH as int) <= u64::MAX,
        ensures
            r == (SlotSeek { slot, phase: SeekPhase::Forward(slot) }),
            r.wf(),
    {
        SlotSeek { slot, phase: SeekPhase::Forward(slot) }
    }

    fn step_down<E>(&mut self, from: u64) -> (r: SeekStep<E>)
        requires
            old(self).last() <= u64::MAX,
            old(self).first() <= from <= old(self).slot,
        ensures
            (*final(self), r) == old(self).down_to::<E>(from - 1),
    {
        let epoch: u64 = slot_to_epoch(self.slot);
        let (first, _) = epoch_to_slot_range(epoch);
        if from > first {
            self.phase = SeekPhase::Backward(from - 1);
            SeekStep::Lookup(from - 1)
        } else {
            SeekStep::Fail(SlotSeekError::EpochHasNoIndexedSlots(epoch))
        }
    }

    /// Whether the offset at which the data of a slot ends, where it is needed, fits a `u64`.
    pub open spec fn within_reach<E>(self, lookup: SlotLookup<E>) -> bool {
        self.phase is Backward ==> match lookup {
            SlotLookup::Found { offset, length } => offset + length <= u64::MAX,
            _ => true,
        }
    }

    /// Whether `event` can come next: a permit is granted once the place is found, anything else
    /// happens before. The offset at which the data of a slot ends fits a `u64`.
    pub open spec fn accepts<E>(self, event: SlotSeekEvent<E>) -> bool {
        match event {
            SlotSeekEvent::PermitGranted => self.phase is Found,
            SlotSeekEvent::LookedUp(lookup) => !(self.phase is Found) && self.within_reach(lookup),
            _ => !(self.phase is Found),
        }
    }

    /// The slot to look up.
    pub fn lookup(&self) -> (r: u64)
        ensures
            r == self.current(),
    {
        match self.phase {
            SeekPhase::Forward(current) => current,
            SeekPhase::Backward(candidate) => candidate,
            SeekPhase::Found(_) => self.slot,
        }
    }

    /// The offset that was found.
    fn target(&self) -> (r: u64)
        requires
            self.phase is Found,
        ensures
            self.phase == SeekPhase::Found(r),
    {
        match self.phase {
            SeekPhase::Found(offset) => offset,
            _ => 0,
        }
    }

    /// Takes what the index says of the slot being looked up.
    pub fn answer<E>(&mut self, lookup: SlotLookup<E>) -> (r: SeekStep<E>)
        requires
            old(self).wf(),
            old(self).within_reach(lookup),
        ensures
            (*final(self), r) == old(self).answered(lookup),
            final(self).wf(),
            final(self).slot == old(self).slot,
            r matches SeekStep::Lookup(s) ==> s == final(self).current() && old(self).first() <= s
                <= old(self).last(),
    {
        let phase: SeekPhase = self.phase;
        match (lookup, phase) {
            (_, SeekPhase::Found(offset)) => SeekStep::SeekTo(offset),
            (SlotLookup::Failed(e), _) => SeekStep::Fail(SlotSeekError::Index(e)),
            (SlotLookup::Found { offset, .. }, SeekPhase::Forward(_)) => {
                self.phase = SeekPhase::Found(offset);
                SeekStep::SeekTo(offset)
            },
            (SlotLookup::Found { offset, length }, SeekPhase::Backward(_)) => {
                self.phase = SeekPhase::Found(offset + length);
                SeekStep::SeekTo(offset + length)
            },
            (SlotLookup::NotFound, SeekPhase::Forward(current)) => {
                let (_, last) = epoch_to_slot_range(slot_to_epoch(self.slot));
                if current < last {
                    self.phase = SeekPhase::Forward(current + 1);
                    SeekStep::Lookup(current + 1)
                } else {
                    self.step_down(self.slot)
                }
            },
            (SlotLookup::NotFound, SeekPhase::Backward(candidate)) => self.step_down(candidate),
        }
    }

    /// How many slots the search may still look up, at most.
    pub open spec fn left(self) -> int {
        match self.phase {
            SeekPhase::Forward(current) => self.last() - current + 1 + self.slot - self.first(),
            SeekPhase::Backward(candidate) => candidate - self.first() + 1,
            SeekPhase::Found(_) => 0,
        }
    }
}

/// What came of the last action towards a slot.
#[derive(Copy, Clone, Debug, PartialEq, Eq)]
pub enum SlotSeekEvent<E> {
    /// The slot was asked for.
    Begin,
    /// The header has been read.
    HeaderRead,
    /// A slot was looked up.
    LookedUp(SlotLookup<E>),
    /// The seek-spacing permit was granted.
    PermitGranted,
}

/// What to do next to get to a slot.
#[derive(Copy, Clone, Debug, PartialEq, Eq)]
pub enum SlotSeekAction<E> {
    /// Read the header.
    ReadHeader,
    /// Look this slot up.
    Lookup(u64),
    /// Wait for the seek-spacing permit, for a seek to this offset.
    WaitForPermit(u64),
    /// Position the stream at this offset.
    SeekTo(u64),
    /// Give up.
    Fail(SlotSeekError<E>),
}

/// The search after `event`, whether the reader still holds its permit, and what to do next. The
/// header comes first where it is missing, and a permit is used up by each seek.
pub open spec fn approached<E>(
    header_missing: bool,
    primed: bool,
    search: SlotSeek,
    event: SlotSeekEvent<E>,
) -> (SlotSeek, bool, SlotSeekAction<E>) {
    match event {
        SlotSeekEvent::Begin => if header_missing {
            (search, primed, SlotSeekAction::ReadHeader)
        } else {
            (search, primed, SlotSeekAction::Lookup(search.current()))
        },
        SlotSeekEvent::HeaderRead => (search, primed, SlotSeekAction::Lookup(search.current())),
        SlotSeekEvent::PermitGranted => (
            search,
            primed,
            SlotSeekAction::SeekTo(search.phase->Found_0),
        ),
        SlotSeekEvent::LookedUp(lookup) => {
            let (next, step) = search.answered(lookup);
            match step {
                SeekStep::Lookup(s) => (next, primed, SlotSeekAction::Lookup(s)),
                SeekStep::Fail(e) => (next, primed, SlotSeekAction::Fail(e)),
                SeekStep::SeekTo(offset) => if primed {
                    (next, false, SlotSeekAction::SeekTo(offset))
                } else {
                    (next, false, SlotSeekAction::WaitForPermit(offset))
                },
            }
        },
    }
}

impl<R> NodeReader<R> {
    /// Decides what to do next on the way to the first section from which a slot can be read.
    pub fn seek_to_slot<E>(&mut self, search: &mut SlotSeek, event: SlotSeekEvent<E>) -> (r:
        SlotSeekAction<E>)
        requires
            old(search).wf(),
            old(search).accepts(event),
        ensures
            (*final(search), final(self).seek_permit_primed, r) == approached(
                !old(self).header_read,
                old(self).seek_permit_primed,
                *old(search),
                event,
            ),
            final(search).wf(),
            *final(self) == (NodeReader {
                seek_permit_primed: final(self).seek_permit_primed,
                ..*old(self)
            }),
    {
        match event {
            SlotSeekEvent::Begin => {
                if self.needs_header() {
                    SlotSeekAction::ReadHeader
                } else {
                    SlotSeekAction::Lookup(search.lookup())
                }
            },
            SlotSeekEvent::HeaderRead => SlotSeekAction::Lookup(search.lookup()),
            SlotSeekEvent::PermitGranted => SlotSeekAction::SeekTo(search.target()),
            SlotSeekEvent::LookedUp(lookup) => match search.answer(lookup) {
                SeekStep::Lookup(s) => SlotSeekAction::Lookup(s),
                SeekStep::Fail(e) => SlotSeekAction::Fail(e),
                SeekStep::SeekTo(offset) => self.seek_to_offset(offset),
            },
        }
    }

    /// Uses up the permit, or asks for one where there is none.
    fn seek_to_offset<E>(&mut self, offset: u64) -> (r: SlotSeekAction<E>)
        ensures
            *final(self) == (NodeReader { seek_permit_primed: false, ..*old(self) }),
            r == if old(self).seek_permit_primed {
                SlotSeekAction::<E>::SeekTo(offset)
            } else {
                SlotSeekAction::WaitForPermit(offset)
            },
    {
        if self.take_seek_permit() {
            SlotSeekAction::SeekTo(offset)
        } else {
            SlotSeekAction::WaitForPermit(offset)
        }
    }
}

/// Where the search ends when `index` answers every lookup.
pub open spec fn sought<E>(seek: SlotSeek, index: spec_fn(u64) -> SlotLookup<E>) -> SeekStep<E>
    decreases seek.left(),
    when seek.wf()
{
    let (next, step) = seek.answered(index(seek.current()));
    match step {
        SeekStep::Lookup(_) => sought(next, index),
        _ => step,
    }
}

/// The search for the place from which `slot` can be read, before anything was looked up.
pub open spec fn search_from(slot: u64) -> SlotSeek {
    SlotSeek { slot, phase: SeekPhase::Forward(slot) }
}

/// Slots that are absent are passed over, upwards.
proof fn lemma_forward<E>(slot: u64, current: u64, target: u64, index: spec_fn(u64) -> SlotLookup<E>)
    requires
        search_from(slot).wf(),
        slot <= current <= target <= search_from(slot).last(),
        forall|s: u64| current <= s < target ==> #[trigger] index(s) == SlotLookup::<E>::NotFound,
    ensures
        sought(SlotSeek { slot, phase: SeekPhase::Forward(current) }, index) == sought(
            SlotSeek { slot, phase: SeekPhase::Forward(target) },
            index,
        ),
    decreases target - current,
{
    if current < target {
        assert(index(current) == SlotLookup::<E>::NotFound);
        lemma_forward(slot, (current + 1) as u64, target, index);
    }
}

/// Slots that are absent are passed over, downwards.
proof fn lemma_backward<E>(slot: u64, candidate: u64, target: u64, index: spec_fn(u64) -> SlotLookup<E>)
    requires
        search_from(slot).wf(),
        search_from(slot).first() <= target <= candidate < slot,
        forall|s: u64| target < s <= candidate ==> #[trigger] index(s) == SlotLookup::<E>::NotFound,
    ensures
        sought(SlotSeek { slot, phase: SeekPhase::Backward(candidate) }, index) == sought(
            SlotSeek { slot, phase: SeekPhase::Backward(target) },
            index,
        ),
    decreases candidate - target,
{
    if target < candidate {
        assert(index(candidate) == SlotLookup::<E>::NotFound);
        lemma_backward(slot, (candidate - 1) as u64, target, index);
    }
}

/// Reading starts at the first slot, from the requested one upwards within its epoch, that the
/// index does not report as skipped; where the index fails on it, so does the search.
pub proof fn law_seeks_first_present<E>(slot: u64, target: u64, index: spec_fn(u64) -> SlotLookup<E>)
    requires
        search_from(slot).wf(),
        slot <= target <= search_from(slot).last(),
        forall|s: u64| slot <= s < target ==> #[trigger] index(s) == SlotLookup::<E>::NotFound,
        index(target) != SlotLookup::<E>::NotFound,
    ensures
        match index(target) {
            SlotLookup::Found { offset, .. } => sought(search_from(slot), index) == SeekStep::<
                E,
            >::SeekTo(offset),
            SlotLookup::Failed(e) => sought(search_from(slot), index) == SeekStep::Fail(
                SlotSeekError::Index(e),
            ),
            SlotLookup::NotFound => false,
        },
{
    lemma_forward(slot, slot, target, index);
}

/// Where no slot from the requested one to the end of its epoch is present, reading starts just
/// past the data of the last one that is present before it.
pub proof fn law_seeks_past_last_present<E>(slot: u64, target: u64, index: spec_fn(u64) -> SlotLookup<E>)
    requires
        search_from(slot).wf(),
        search_from(slot).first() <= target < slot,
        forall|s: u64|
            target < s <= search_from(slot).last() ==> #[trigger] index(s) == SlotLookup::<
                E,
            >::NotFound,
        index(target) != SlotLookup::<E>::NotFound,
    ensures
        match index(target) {
            SlotLookup::Found { offset, length } => offset + length <= u64::MAX ==> sought(
                search_from(slot),
                index,
            ) == SeekStep::<E>::SeekTo((offset + length) as u64),
            SlotLookup::Failed(e) => sought(search_from(slot), index) == SeekStep::Fail(
                SlotSeekError::Index(e),
            ),
            SlotLookup::NotFound => false,
        },
{
    let last = search_from(slot).last() as u64;
    lemma_forward(slot, slot, last, index);
    assert(index(last) == SlotLookup::<E>::NotFound);
    lemma_backward(slot, (slot - 1) as u64, target, index);
}

/// An index without a single slot of the epoch is reported as such.
pub proof fn law_empty_epoch_is_reported<E>(slot: u64, index: spec_fn(u64) -> SlotLookup<E>)
    requires
        search_from(slot).wf(),
        forall|s: u64|
            search_from(slot).first() <= s <= search_from(slot).last() ==> #[trigger] index(s)
                == SlotLookup::<E>::NotFound,
    ensures
        sought(search_from(slot), index) == SeekStep::<E>::Fail(
            SlotSeekError::EpochHasNoIndexedSlots(slot / SLOTS_PER_EPOCH),
        ),
{
    let last = search_from(slot).last() as u64;
    let first = search_from(slot).first() as u64;
    lemma_forward(slot, slot, last, index);
    assert(index(last) == SlotLookup::<E>::NotFound);
    if first < slot {
        lemma_backward(slot, (slot - 1) as u64, first, index);
        assert(index(first) == SlotLookup::<E>::NotFound);
    }
}

/// How the approach of a slot ends when `index` answers every lookup, and the permit is granted
/// where it is waited for: whether it was waited for, and the last action. `primed` says whether
/// the reader holds a permit.
pub open spec fn approach_end<E>(
    primed: bool,
    search: SlotSeek,
    index: spec_fn(u64) -> SlotLookup<E>,
) -> (bool, SlotSeekAction<E>)
    decreases search.left(),
    when search.wf()
{
    let (next, primed, action) = approached(
        false,
        primed,
        search,
        SlotSeekEvent::LookedUp(index(search.current())),
    );
    match action {
        SlotSeekAction::Lookup(_) => approach_end(primed, next, index),
        SlotSeekAction::WaitForPermit(_) => (
            true,
            approached(false, primed, next, SlotSeekEvent::<E>::PermitGranted).2,
        ),
        _ => (false, action),
    }
}

/// A reader goes where the search leads; with a permit at once, else after waiting for one.
pub proof fn law_approach_follows_search<E>(
    primed: bool,
    search: SlotSeek,
    index: spec_fn(u64) -> SlotLookup<E>,
)
    requires
        search.wf(),
    ensures
        match sought(search, index) {
            SeekStep::SeekTo(offset) => approach_end(primed, search, index) == (
                !primed,
                SlotSeekAction::<E>::SeekTo(offset),
            ),
            SeekStep::Fail(e) => approach_end(primed, search, index) == (
                false,
                SlotSeekAction::Fail(e),
            ),
            SeekStep::Lookup(_) => false,
        },
    decreases search.left(),
{
    let (next, step) = search.answered(index(search.current()));
    if step is Lookup {
        law_approach_follows_search(primed, next, index);
    }
}

/// The header is read first where it is missing, and the slot itself is looked up first of all.
pub proof fn law_approach_begins<E>(header_missing: bool, primed: bool, slot: u64)
    ensures
        approached(header_missing, primed, search_from(slot), SlotSeekEvent::<E>::Begin) == (
            search_from(slot),
            primed,
            if header_missing {
                SlotSeekAction::<E>::ReadHeader
            } else {
                SlotSeekAction::Lookup(slot)
            },
        ),
        approached(header_missing, primed, search_from(slot), SlotSeekEvent::<E>::HeaderRead) == (
            search_from(slot),
            primed,
            SlotSeekAction::<E>::Lookup(slot),
        ),
{
}

/// Every slot is present or passed over within its own epoch, up to its last slot: reading starts
/// with the first slot from the requested one on that the index does not report as skipped.
pub proof fn law_advances_to_next_present<E>(
    slot: u64,
    target: u64,
    index: spec_fn(u64) -> SlotLookup<E>,
)
    requires
        slot <= target,
        target / 432000 == slot / 432000,
        slot / 432000 * 432000 + 431999 <= u64::MAX,
        forall|s: u64| slot <= s < target ==> #[trigger] index(s) == SlotLookup::<E>::NotFound,
    ensures
        index(target) matches SlotLookup::Found { offset, .. } ==> sought(
            SlotSeek { slot, phase: SeekPhase::Forward(slot) },
            index,
        ) == SeekStep::<E>::SeekTo(offset),
        index(target) matches SlotLookup::Failed(e) ==> sought(
            SlotSeek { slot, phase: SeekPhase::Forward(slot) },
            index,
        ) == SeekStep::Fail(SlotSeekError::Index(e)),
{
    assert(search_from(slot).wf());
    if index(target) != SlotLookup::<E>::NotFound {
        law_seeks_first_present(slot, target, index);
    }
}

/// Where a slot and all after it in its epoch were skipped, reading starts where the data of the
/// last slot before them ends; slots of other epochs do not count.
pub proof fn law_falls_back_to_tail<E>(slot: u64, target: u64, index: spec_fn(u64) -> SlotLookup<E>)
    requires
        target < slot,
        target / 432000 == slot / 432000,
        slot / 432000 * 432000 + 431999 <= u64::MAX,
        forall|s: u64|
            target < s && s / 432000 == slot / 432000 ==> #[trigger] index(s) == SlotLookup::<
                E,
            >::NotFound,
    ensures
        index(target) matches SlotLookup::Found { offset, length } ==> (offset + length <= u64::MAX
            ==> sought(SlotSeek { slot, phase: SeekPhase::Forward(slot) }, index) == SeekStep::<
            E,
        >::SeekTo((offset + length) as u64)),
        index(target) matches SlotLookup::Failed(e) ==> sought(
            SlotSeek { slot, phase: SeekPhase::Forward(slot) },
            index,
        ) == SeekStep::Fail(SlotSeekError::Index(e)),
{
    assert(search_from(slot).wf());
    assert forall|s: u64|
        target < s <= search_from(slot).last() implies #[trigger] index(s) == SlotLookup::<
        E,
    >::NotFound by {
        assert(s / 432000 == slot / 432000);
    }
    if index(target) != SlotLookup::<E>::NotFound {
        law_seeks_past_last_present(slot, target, index);
    }
}

/// An index that reports every slot of an epoch as skipped is an error that names the epoch.
pub proof fn law_reports_empty_epoch<E>(slot: u64, index: spec_fn(u64) -> SlotLookup<E>)
    requires
        slot / 432000 * 432000 + 431999 <= u64::MAX,
        forall|s: u64|
            s / 432000 == slot / 432000 ==> #[trigger] index(s) == SlotLookup::<E>::NotFound,
    ensures
        sought(SlotSeek { slot, phase: SeekPhase::Forward(slot) }, index) == SeekStep::<E>::Fail(
            SlotSeekError::EpochHasNoIndexedSlots(slot / 432000),
        ),
{
    assert(search_from(slot).wf());
    assert forall|s: u64|
        search_from(slot).first() <= s <= search_from(slot).last() implies #[trigger] index(s)
        == SlotLookup::<E>::NotFound by {
        assert(s / 432000 == slot / 432000);
    }
    law_empty_epoch_is_reported(slot, index);
}

/// From wherever a search stands in its epoch, it goes on with the slot next to it.
pub proof fn law_search_goes_on<E>(slot: u64, current: u64)
    requires
        slot / 432000 == current / 432000,
        slot / 432000 * 432000 + 431999 <= u64::MAX,
    ensures
        slot <= current ==> (SlotSeek { slot, phase: SeekPhase::Forward(current) }).wf() && (SlotSeek {
            slot,
            phase: SeekPhase::Forward(current),
        }).current() == current,
        current < slot ==> (SlotSeek { slot, phase: SeekPhase::Backward(current) }).wf() && (SlotSeek {
            slot,
            phase: SeekPhase::Backward(current),
        }).current() == current,
        slot <= current && (current + 1) / 432000 == current as int / 432000 ==> (SlotSeek {
            slot,
            phase: SeekPhase::Forward(current),
        }).answered(SlotLookup::<E>::NotFound) == (
            SlotSeek { slot, phase: SeekPhase::Forward((current + 1) as u64) },
            SeekStep::<E>::Lookup((current + 1) as u64),
        ),
        current < slot && current % 432000 > 0 ==> (SlotSeek {
            slot,
            phase: SeekPhase::Backward(current),
        }).answered(SlotLookup::<E>::NotFound) == (
            SlotSeek { slot, phase: SeekPhase::Backward((current - 1) as u64) },
            SeekStep::<E>::Lookup((current - 1) as u64),
        ),
{
}

/// A permit that the reader holds is used up exactly when the place is found; a search that fails
/// or goes on keeps it. Where there is none, one is waited for before the stream is positioned.
pub proof fn law_permit_is_used_up<E>(
    header_missing: bool,
    primed: bool,
    search: SlotSeek,
    lookup: SlotLookup<E>,
)
    ensures
        ({
            let (next, left, action) = approached(
                header_missing,
                primed,
                search,
                SlotSeekEvent::LookedUp(lookup),
            );
            &&& action is Lookup || action is Fail ==> left == primed
            &&& action is SeekTo ==> primed && !left
            &&& action is WaitForPermit ==> !primed && !left && approached(
                header_missing,
                left,
                next,
                SlotSeekEvent::<E>::PermitGranted,
            ) == (next, left, SlotSeekAction::<E>::SeekTo(action->WaitForPermit_0))
        }),
{
}

/// Whatever the index says can be taken, as long as the end of a slot's data, where it is needed,
/// fits a `u64`; a permit can be taken once the place is found.
pub proof fn law_search_accepts<E>(slot: u64, current: u64, lookup: SlotLookup<E>, offset: u64, length: u64)
    ensures
        (SlotSeek { slot, phase: SeekPhase::Forward(current) }).accepts(
            SlotSeekEvent::LookedUp(lookup),
        ),
        (SlotSeek { slot, phase: SeekPhase::Forward(current) }).accepts(SlotSeekEvent::<E>::Begin),
        (SlotSeek { slot, phase: SeekPhase::Forward(current) }).accepts(
            SlotSeekEvent::<E>::HeaderRead,
        ),
        lookup is Found || (SlotSeek { slot, phase: SeekPhase::Backward(current) }).accepts(
            SlotSeekEvent::LookedUp(lookup),
        ),
        offset + length <= u64::MAX ==> (SlotSeek {
            slot,
            phase: SeekPhase::Backward(current),
        }).accepts(SlotSeekEvent::LookedUp(SlotLookup::<E>::Found { offset, length })),
        (SlotSeek { slot, phase: SeekPhase::Found(offset) }).accepts(
            SlotSeekEvent::<E>::PermitGranted,
        ),
{
}

} // verus!
