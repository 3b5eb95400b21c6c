//! Per-program invocation statistics, gathered by slot until the slot's block is known.

use vstd::prelude::*;

use ahash::RandomState;
use dashmap::DashMap;

use crate::pending::{events_of, insert_slot, new_slot_map, no_slots, remove_slot, slot_contents, slots, take_entry, ProgramEvent};

pub mod laws;

verus! {

/// What the statistics need to know of a transaction.
#[derive(Clone, Debug, PartialEq, Eq)]
pub struct TransactionData {
    pub slot: u64,
    /// Whether this is a vote transaction.
    pub is_vote: bool,
    /// The addresses that the message names.
    pub account_keys: Vec<[u8; 32]>,
    /// For each instruction, where in `account_keys` its program stands.
    pub program_indices: Vec<u8>,
    pub compute_units_consumed: Option<u64>,
    /// Whether the transaction failed.
    pub errored: bool,
}

impl TransactionData {
    /// The programs that the transaction invokes, one per instruction; an instruction whose index
    /// names no address counts for nothing.
    pub open spec fn programs(self) -> Seq<[u8; 32]> {
        self.program_indices@.filter(|i: u8| i < self.account_keys@.len()).map_values(
            |i: u8| self.account_keys@[i as int],
        )
    }

    /// The compute units that are booked on each invocation: an equal share, in `u32` arithmetic.
    pub open spec fn share(self) -> u32 {
        let consumed = match self.compute_units_consumed {
            Some(units) => units as int % 0x1_0000_0000,
            None => 0,
        };
        let count = self.programs().len() as int % 0x1_0000_0000;
        if count == 0 {
            0
        } else {
            (consumed / count) as u32
        }
    }

    /// What each of its invocations is booked with.
    pub open spec fn booking(self) -> Booking {
        Booking {
            slot: self.slot,
            is_vote: self.is_vote,
            cus: self.share(),
            errored: self.errored,
        }
    }
}

/// What an invocation is booked with.
#[derive(Copy, Clone, Debug, PartialEq, Eq)]
pub struct Booking {
    pub slot: u64,
    pub is_vote: bool,
    pub cus: u32,
    pub errored: bool,
}

/// The sum of `a` and `b`, or the largest `u32`.
pub open spec fn capped_sum(a: int, b: int) -> int {
    if a + b > u32::MAX {
        u32::MAX as int
    } else {
        a + b
    }
}

/// The smaller of two numbers.
pub open spec fn smaller(a: u32, b: u32) -> u32 {
    if a <= b {
        a
    } else {
        b
    }
}

/// The larger of two numbers.
pub open spec fn larger(a: u32, b: u32) -> u32 {
    if a >= b {
        a
    } else {
        b
    }
}

impl Booking {
    /// The statistics of a program before its first invocation.
    pub open spec fn fresh(self, id: [u8; 32]) -> ProgramEvent {
        ProgramEvent {
            slot: if self.slot <= u32::MAX {
                self.slot as u32
            } else {
                u32::MAX
            },
            timestamp: 0,
            program_id: id,
            is_vote: self.is_vote,
            count: 0,
            error_count: 0,
            min_cus: u32::MAX,
            max_cus: 0,
            total_cus: 0,
        }
    }

    /// The statistics after `n` more invocations.
    pub open spec fn booked(self, event: ProgramEvent, n: nat) -> ProgramEvent {
        if n == 0 {
            event
        } else {
            ProgramEvent {
                count: capped_sum(event.count as int, n as int) as u32,
                error_count: if self.errored {
                    capped_sum(event.error_count as int, n as int) as u32
                } else {
                    event.error_count
                },
                min_cus: smaller(event.min_cus, self.cus),
                max_cus: larger(event.max_cus, self.cus),
                total_cus: capped_sum(event.total_cus as int, n * self.cus) as u32,
                ..event
            }
        }
    }

    /// The events of a slot after an invocation of program `id`.
    pub open spec fn record(self, events: Seq<ProgramEvent>, id: [u8; 32]) -> Seq<ProgramEvent> {
        let i = event_index(events, id, self.is_vote);
        if i == events.len() {
            events.push(self.booked(self.fresh(id), 1))
        } else {
            events.update(i, self.booked(events[i], 1))
        }
    }

    /// The events of a slot after invocations of the programs `ids`, one after the other.
    pub open spec fn record_all(self, events: Seq<ProgramEvent>, ids: Seq<[u8; 32]>) -> Seq<ProgramEvent>
        decreases ids.len(),
    {
        if ids.len() == 0 {
            events
        } else {
            self.record(self.record_all(events, ids.drop_last()), ids.last())
        }
    }
}

/// Whether `event` belongs to a program and a kind of transaction.
pub open spec fn belongs(event: ProgramEvent, id: [u8; 32], is_vote: bool) -> bool {
    event.program_id == id && event.is_vote == is_vote
}

/// Where the event of a program stands, the length where it has none.
pub open spec fn event_index(events: Seq<ProgramEvent>, id: [u8; 32], is_vote: bool) -> int
    decreases events.len(),
{
    if events.len() == 0 {
        0
    } else if belongs(events[0], id, is_vote) {
        0
    } else {
        1 + event_index(events.skip(1), id, is_vote)
    }
}

/// Whether an event can be pending in a slot.
pub open spec fn event_wf(event: ProgramEvent, slot: u64) -> bool {
    &&& event.slot == if slot <= u32::MAX {
        slot as u32
    } else {
        u32::MAX
    }
    &&& event.timestamp == 0
    &&& 1 <= event.count
    &&& event.error_count <= event.count
    &&& event.min_cus <= event.max_cus <= event.total_cus
}

/// Whether these events can be pending in a slot: no two of them belong to the same program and
/// kind of transaction.
pub open spec fn events_wf(events: Seq<ProgramEvent>, slot: u64) -> bool {
    &&& forall|i: int| 0 <= i < events.len() ==> event_wf(#[trigger] events[i], slot)
    &&& forall|i: int, j: int|
        0 <= i < j < events.len() ==> !belongs(
            #[trigger] events[i],
            (#[trigger] events[j]).program_id,
            events[j].is_vote,
        )
}

/// Two addresses are the same exactly when they agree everywhere.
fn same_address(a: &[u8; 32], b: &[u8; 32]) -> (r: bool)
    ensures
        r == (*a == *b),
{
    let mut i: usize = 0;
    while i < 32
        invariant
            i <= 32,
            forall|j: int| 0 <= j < i ==> a[j] == b[j],
        decreases 32 - i,
    {
        if a[i] != b[i] {
            return false;
        }
        i = i + 1;
    }
    assert(*a =~= *b);
    true
}

/// What is known of the place where an event stands.
proof fn lemma_event_index(events: Seq<ProgramEvent>, id: [u8; 32], is_vote: bool)
    ensures
        0 <= event_index(events, id, is_vote) <= events.len(),
        event_index(events, id, is_vote) < events.len() ==> belongs(
            events[event_index(events, id, is_vote)],
            id,
            is_vote,
        ),
        forall|j: int|
            0 <= j < event_index(events, id, is_vote) ==> !belongs(
                #[trigger] events[j],
                id,
                is_vote,
            ),
    decreases events.len(),
{
    if events.len() > 0 && !belongs(events[0], id, is_vote) {
        let others = events.skip(1);
        lemma_event_index(others, id, is_vote);
        let i = event_index(events, id, is_vote);
        if i < events.len() {
            assert(events[i] == others[i - 1]);
        }
        assert forall|j: int| 0 <= j < i implies !belongs(#[trigger] events[j], id, is_vote) by {
            if j > 0 {
                assert(events[j] == others[j - 1]);
            }
        }
    }
}

/// No other place is one where an event stands.
proof fn lemma_event_index_is(events: Seq<ProgramEvent>, id: [u8; 32], is_vote: bool, i: int)
    requires
        0 <= i <= events.len(),
        i < events.len() ==> belongs(events[i], id, is_vote),
        forall|j: int| 0 <= j < i ==> !belongs(#[trigger] events[j], id, is_vote),
    ensures
        event_index(events, id, is_vote) == i,
{
    lemma_event_index(events, id, is_vote);
    let k = event_index(events, id, is_vote);
    if k < i {
        assert(!belongs(events[k], id, is_vote));
    }
    if i < k {
        assert(!belongs(events[i], id, is_vote));
    }
}

/// Finds the event of a program, the length where it has none.
fn find_event(events: &Vec<ProgramEvent>, id: &[u8; 32], is_vote: bool) -> (r: usize)
    ensures
        r == event_index(events@, *id, is_vote),
{
    let mut i: usize = 0;
    while i < events.len()
        invariant
            i <= events.len(),
            forall|j: int| 0 <= j < i ==> !belongs(#[trigger] events@[j], *id, is_vote),
        decreases events.len() - i,
    {
        if events[i].is_vote == is_vote && same_address(&events[i].program_id, id) {
            proof {
                lemma_event_index_is(events@, *id, is_vote, i as int);
            }
            return i;
        }
        i = i + 1;
    }
    proof {
        lemma_event_index_is(events@, *id, is_vote, i as int);
    }
    i
}

impl Booking {
    fn fresh_event(&self, id: [u8; 32]) -> (r: ProgramEvent)
        ensures
            r == self.fresh(id),
    {
        ProgramEvent {
            slot: if self.slot <= u32::MAX as u64 {
                self.slot as u32
            } else {
                u32::MAX
            },
            timestamp: 0,
            program_id: id,
            is_vote: self.is_vote,
            count: 0,
            error_count: 0,
            min_cus: u32::MAX,
            max_cus: 0,
            total_cus: 0,
        }
    }

    fn book(&self, event: ProgramEvent) -> (r: ProgramEvent)
        ensures
            r == self.booked(event, 1),
    {
        ProgramEvent {
            count: event.count.saturating_add(1),
            error_count: if self.errored {
                event.error_count.saturating_add(1)
            } else {
                event.error_count
            },
            min_cus: if event.min_cus <= self.cus {
                event.min_cus
            } else {
                self.cus
            },
            max_cus: if event.max_cus >= self.cus {
                event.max_cus
            } else {
                self.cus
            },
            total_cus: event.total_cus.saturating_add(self.cus),
            ..event
        }
    }

    fn record_event(&self, events: &mut Vec<ProgramEvent>, id: [u8; 32])
        ensures
            final(events)@ == self.record(old(events)@, id),
    {
        let i: usize = find_event(events, &id, self.is_vote);
        proof {
            lemma_event_index(events@, id, self.is_vote);
        }
        if i == events.len() {
            events.push(self.book(self.fresh_event(id)));
        } else {
            let event: ProgramEvent = self.book(events[i]);
            events.set(i, event);
        }
    }
}

impl TransactionData {
    /// Collects the programs that the transaction invokes.
    fn program_ids(&self) -> (r: Vec<[u8; 32]>)
        ensures
            r@ == self.programs(),
    {
        let mut ids: Vec<[u8; 32]> = Vec::new();
        let mut n: usize = 0;
        let ghost known = |i: u8| i < self.account_keys@.len();
        let ghost key = |i: u8| self.account_keys@[i as int];
        proof {
            reveal(Seq::filter);
            assert(self.program_indices@.take(0).filter(known).map_values(key) =~= Seq::empty());
        }
        while n < self.program_indices.len()
            invariant
                n <= self.program_indices.len(),
                known == |i: u8| i < self.account_keys@.len(),
                key == |i: u8| self.account_keys@[i as int],
                ids@ == self.program_indices@.take(n as int).filter(known).map_values(key),
            decreases self.program_indices.len() - n,
        {
            let index: usize = self.program_indices[n] as usize;
            proof {
                reveal(Seq::filter);
                let next = self.program_indices@.take(n + 1);
                assert(next.drop_last() =~= self.program_indices@.take(n as int));
                assert(next.last() == self.program_indices@[n as int]);
                let kept = self.program_indices@.take(n as int).filter(known);
                assert(kept.push(next.last()).map_values(key) =~= kept.map_values(key).push(
                    key(next.last()),
                ));
            }
            if index < self.account_keys.len() {
                ids.push(self.account_keys[index]);
            }
            n = n + 1;
        }
        assert(self.program_indices@.take(n as int) =~= self.program_indices@);
        ids
    }
}

/// The events of all slots whose block is still to come.
pub struct PendingBySlot {
    pub map: DashMap<u64, Vec<ProgramEvent>, RandomState>,
}

impl View for PendingBySlot {
    type V = Map<u64, Seq<ProgramEvent>>;

    open spec fn view(&self) -> Map<u64, Seq<ProgramEvent>> {
        slot_contents(self.map)
    }
}

impl PendingBySlot {
    /// Whether the events of each slot can be pending in it.
    pub open spec fn wf(self) -> bool {
        forall|slot: u64| self@.dom().contains(slot) ==> events_wf(#[trigger] self@[slot], slot)
    }

    /// Starts with no slot.
    pub fn new() -> (r: PendingBySlot)
        ensures
            r@ == no_slots(),
            r.wf(),
    {
        PendingBySlot { map: new_slot_map() }
    }
}

/// The pending events after a transaction.
pub open spec fn after_transaction(pending: Map<u64, Seq<ProgramEvent>>, tx: TransactionData) -> Map<
    u64,
    Seq<ProgramEvent>,
> {
    if tx.programs().len() == 0 {
        pending
    } else {
        pending.insert(
            tx.slot,
            tx.booking().record_all(events_of(pending, tx.slot), tx.programs()),
        )
    }
}

/// The block time that is stored: what is missing or negative counts as zero, and what is too
/// large as the largest `u32`.
pub open spec fn clamped(block_time: Option<i64>) -> u32 {
    match block_time {
        Some(t) => if t < 0 {
            0
        } else if t > u32::MAX {
            u32::MAX
        } else {
            t as u32
        },
        None => 0,
    }
}

/// Clamps a block time to what can be stored.
pub fn clamp_block_time(block_time: Option<i64>) -> (r: u32)
    ensures
        r == clamped(block_time),
{
    let raw: i64 = match block_time {
        Some(t) => t,
        None => 0,
    };
    if raw < 0 {
        0
    } else if raw > u32::MAX as i64 {
        u32::MAX
    } else {
        raw as u32
    }
}

/// An event of a block with this timestamp.
pub open spec fn stamp(event: ProgramEvent, timestamp: u32) -> ProgramEvent {
    ProgramEvent { timestamp, ..event }
}

/// Events of a block with this timestamp.
pub open spec fn stamped(events: Seq<ProgramEvent>, timestamp: u32) -> Seq<ProgramEvent> {
    Seq::new(events.len(), |i: int| stamp(events[i], timestamp))
}

/// The events of the slots in `order`, one slot after the other.
pub open spec fn drained(pending: Map<u64, Seq<ProgramEvent>>, order: Seq<u64>, timestamp: u32) -> Seq<
    ProgramEvent,
>
    decreases order.len(),
{
    if order.len() == 0 {
        Seq::empty()
    } else {
        drained(pending, order.drop_last(), timestamp) + stamped(pending[order.last()], timestamp)
    }
}

/// The rows that a block releases for writing, if any.
pub open spec fn released(
    pending: Map<u64, Seq<ProgramEvent>>,
    has_db: bool,
    slot: u64,
    block_time: Option<i64>,
    was_skipped: bool,
) -> Option<Seq<ProgramEvent>> {
    if !was_skipped && has_db && events_of(pending, slot).len() > 0 {
        Some(stamped(events_of(pending, slot), clamped(block_time)))
    } else {
        None
    }
}

/// What is pending after a block.
pub open spec fn after_block(pending: Map<u64, Seq<ProgramEvent>>, slot: u64, was_skipped: bool) -> Map<
    u64,
    Seq<ProgramEvent>,
> {
    if was_skipped {
        pending
    } else {
        pending.remove(slot)
    }
}

/// Whether `order` names each slot that is pending once, and no other.
pub open spec fn lists(order: Seq<u64>, pending: Map<u64, Seq<ProgramEvent>>) -> bool {
    order.no_duplicates() && order.to_set() == pending.dom()
}

/// Appends events to the rows, with a timestamp.
fn append_stamped(rows: &mut Vec<ProgramEvent>, events: &Vec<ProgramEvent>, timestamp: u32)
    ensures
        final(rows)@ == old(rows)@ + stamped(events@, timestamp),
{
    let mut i: usize = 0;
    let ghost all = stamped(events@, timestamp);
    assert(rows@ + all.take(0) =~= rows@);
    while i < events.len()
        invariant
            i <= events.len(),
            all == stamped(events@, timestamp),
            rows@ == old(rows)@ + all.take(i as int),
        decreases events.len() - i,
    {
        let event: ProgramEvent = ProgramEvent { timestamp, ..events[i] };
        proof {
            assert(event == all[i as int]);
            assert((old(rows)@ + all.take(i as int)).push(event) =~= old(rows)@ + all.take(i + 1));
        }
        rows.push(event);
        i = i + 1;
    }
    assert(all.take(i as int) =~= all);
}

/// Whether `rows` are what a shutdown writes of what is pending, and `after` is what it leaves.
pub open spec fn shut_down(
    pending: Map<u64, Seq<ProgramEvent>>,
    has_db: bool,
    rows: Option<Seq<ProgramEvent>>,
    after: Map<u64, Seq<ProgramEvent>>,
) -> bool {
    if has_db {
        after == no_slots() && exists|order: Seq<u64>|
            lists(order, pending) && ({
                let all = #[trigger] drained(pending, order, 0);
                rows == if all.len() > 0 {
                    Some(all)
                } else {
                    None
                }
            })
    } else {
        rows is None && after == pending
    }
}

/// What is left to do when the tracker shuts down.
#[derive(Clone, Debug, PartialEq, Eq)]
pub struct ExitWork {
    /// Rows to write, if any.
    pub rows: Option<Vec<ProgramEvent>>,
    /// Whether to fill in timestamps of rows that were written without one.
    pub backfill: bool,
}

/// Tracks per-program invocation counts, including those of vote transactions.
#[derive(Copy, Clone, Debug)]
pub struct ProgramTrackingPlugin;

impl ProgramTrackingPlugin {
    /// Creates an instance that records both vote and non-vote transactions.
    pub fn new() -> (r: Self)
        ensures
            r == ProgramTrackingPlugin,
    {
        ProgramTrackingPlugin
    }

    /// The name of the plugin.
    pub fn name(&self) -> (r: &'static str)
        ensures
            r@ == "Program Tracking"@,
    {
        "Program Tracking"
    }

    /// Books the invocations of a transaction on the programs that it invokes.
    pub fn on_transaction(&self, pending: &mut PendingBySlot, transaction: &TransactionData)
        requires
            old(pending).wf(),
        ensures
            final(pending)@ == after_transaction(old(pending)@, *transaction),
            final(pending).wf(),
    {
        if transaction.program_indices.len() == 0 {
            proof {
                reveal(Seq::filter);
            }
            return ;
        }
        let ids: Vec<[u8; 32]> = transaction.program_ids();
        if ids.len() == 0 {
            return ;
        }
        let total: u32 = match transaction.compute_units_consumed {
            Some(units) => (units % 0x1_0000_0000) as u32,
            None => 0,
        };
        let count: u32 = (ids.len() as u64 % 0x1_0000_0000) as u32;
        let cus: u32 = if count == 0 {
            0
        } else {
            total / count
        };
        let slot: u64 = transaction.slot;
        let booking: Booking = Booking {
            slot,
            is_vote: transaction.is_vote,
            cus,
            errored: transaction.errored,
        };
        assert(booking == transaction.booking());
        let ghost before = events_of(pending@, slot);
        assert(events_wf(before, slot)) by {
            if pending@.dom().contains(slot) {
                assert(events_wf(pending@[slot], slot));
            }
        }
        let mut events: Vec<ProgramEvent> = take_entry(&mut pending.map, slot);
        let mut i: usize = 0;
        assert(ids@.take(0) =~= Seq::empty());
        while i < ids.len()
            invariant
                i <= ids.len(),
                booking.slot == slot,
                events@ == booking.record_all(before, ids@.take(i as int)),
                events_wf(events@, slot),
            decreases ids.len() - i,
        {
            proof {
                let next = ids@.take(i + 1);
                assert(next.drop_last() =~= ids@.take(i as int));
                assert(next.last() == ids@[i as int]);
                lemma_record_wf(booking, events@, ids@[i as int]);
            }
            booking.record_event(&mut events, ids[i]);
            i = i + 1;
        }
        assert(ids@.take(i as int) =~= ids@);
        insert_slot(&mut pending.map, slot, events);
        assert(pending@ =~= after_transaction(old(pending)@, *transaction));
        assert forall|s: u64| pending@.dom().contains(s) implies events_wf(#[trigger] pending@[s], s) by {
            if s != slot {
                assert(events_wf(old(pending)@[s], s));
            }
        }
    }

    /// Takes the events of a slot, with the time of its block.
    pub fn take_slot_events(pending: &mut PendingBySlot, slot: u64, block_time: Option<i64>) -> (r: Vec<
        ProgramEvent,
    >)
        requires
            old(pending).wf(),
        ensures
            r@ == stamped(events_of(old(pending)@, slot), clamped(block_time)),
            final(pending)@ == old(pending)@.remove(slot),
            final(pending).wf(),
    {
        let timestamp: u32 = clamp_block_time(block_time);
        let mut rows: Vec<ProgramEvent> = Vec::new();
        if let Some(events) = remove_slot(&mut pending.map, slot) {
            append_stamped(&mut rows, &events, timestamp);
        }
        assert forall|s: u64| pending@.dom().contains(s) implies events_wf(#[trigger] pending@[s], s) by {
            assert(events_wf(old(pending)@[s], s));
        }
        assert(rows@ =~= stamped(events_of(old(pending)@, slot), timestamp));
        rows
    }

    /// Takes the events of all slots, with one and the same block time.
    pub fn drain_all_pending(pending: &mut PendingBySlot, block_time: Option<i64>) -> (r: Vec<ProgramEvent>)
        ensures
            exists|order: Seq<u64>|
                lists(order, old(pending)@) && r@ == #[trigger] drained(
                    old(pending)@,
                    order,
                    clamped(block_time),
                ),
            final(pending)@ == no_slots(),
            final(pending).wf(),
    {
        let timestamp: u32 = clamp_block_time(block_time);
        let order: Vec<u64> = slots(&pending.map);
        let mut rows: Vec<ProgramEvent> = Vec::new();
        let mut i: usize = 0;
        let ghost all = pending@;
        while i < order.len()
            invariant
                i <= order.len(),
                lists(order@, all),
                rows@ == drained(all, order@.take(i as int), timestamp),
                forall|s: u64|
                    #[trigger] pending@.dom().contains(s) <==> all.dom().contains(s)
                        && !order@.take(i as int).contains(s),
                forall|s: u64| pending@.dom().contains(s) ==> #[trigger] pending@[s] == all[s],
            decreases order.len() - i,
        {
            let slot: u64 = order[i];
            proof {
                let next = order@.take(i + 1);
                assert(next.drop_last() =~= order@.take(i as int));
                assert(next.last() == slot);
                assert(order@.contains(slot));
                assert(all.dom().contains(slot));
                assert(!order@.take(i as int).contains(slot));
                assert forall|s: u64| next.contains(s) <==> order@.take(i as int).contains(s) || s
                    == slot by {
                    if order@.take(i as int).contains(s) {
                        let k = choose|k: int| 0 <= k < i && order@.take(i as int)[k] == s;
                        assert(next[k] == s);
                    }
                    if s == slot {
                        assert(next[i as int] == s);
                    }
                    if next.contains(s) {
                        let k = choose|k: int| 0 <= k < next.len() && next[k] == s;
                        if k < i {
                            assert(order@.take(i as int)[k] == s);
                        }
                    }
                }
            }
            let ghost left = pending@;
            assert(left.dom().contains(slot) && left[slot] == all[slot]);
            if let Some(events) = remove_slot(&mut pending.map, slot) {
                append_stamped(&mut rows, &events, timestamp);
            }
            i = i + 1;
            assert(rows@ == drained(all, order@.take(i as int), timestamp));
            assert forall|s: u64| #[trigger]
                pending@.dom().contains(s) <==> all.dom().contains(s) && !order@.take(
                    i as int,
                ).contains(s) by {
                assert(pending@.dom().contains(s) <==> left.dom().contains(s) && s != slot);
            }
        }
        assert(order@.take(i as int) =~= order@);
        assert(pending@ =~= no_slots()) by {
            assert forall|s: u64| !pending@.dom().contains(s) by {
                if all.dom().contains(s) {
                    assert(order@.to_set().contains(s));
                }
            }
        }
        rows
    }

    /// Takes the events of a block's slot; the rows to write, if there are any and there is a
    /// database. A skipped block leaves everything as it is.
    pub fn on_block(
        &self,
        pending: &mut PendingBySlot,
        has_db: bool,
        slot: u64,
        block_time: Option<i64>,
        was_skipped: bool,
    ) -> (r: Option<Vec<ProgramEvent>>)
        requires
            old(pending).wf(),
        ensures
            final(pending)@ == after_block(old(pending)@, slot, was_skipped),
            final(pending).wf(),
            match r {
                Some(rows) => released(old(pending)@, has_db, slot, block_time, was_skipped) == Some(
                    rows@,
                ),
                None => released(old(pending)@, has_db, slot, block_time, was_skipped) is None,
            },
    {
        if was_skipped {
            return None;
        }
        let rows: Vec<ProgramEvent> = Self::take_slot_events(pending, slot, block_time);
        if has_db && rows.len() > 0 {
            Some(rows)
        } else {
            None
        }
    }

    /// Takes all events that are left, without a block time, where there is a database to write
    /// them to; timestamps are to be filled in afterwards.
    pub fn on_exit(&self, pending: &mut PendingBySlot, has_db: bool) -> (r: ExitWork)
        requires
            old(pending).wf(),
        ensures
            final(pending).wf(),
            r.backfill == has_db,
            shut_down(
                old(pending)@,
                has_db,
                match r.rows {
                    Some(rows) => Some(rows@),
                    None => None,
                },
                final(pending)@,
            ),
    {
        if !has_db {
            return ExitWork { rows: None, backfill: false };
        }
        let rows: Vec<ProgramEvent> = Self::drain_all_pending(pending, None);
        if rows.len() > 0 {
            ExitWork { rows: Some(rows), backfill: true }
        } else {
            ExitWork { rows: None, backfill: true }
        }
    }
}

impl Default for ProgramTrackingPlugin {
    fn default() -> (r: Self)
        ensures
            r == ProgramTrackingPlugin,
    {
        Self::new()
    }
}

/// An invocation keeps the events of a slot valid.
proof fn lemma_record_wf(booking: Booking, events: Seq<ProgramEvent>, id: [u8; 32])
    requires
        events_wf(events, booking.slot),
    ensures
        events_wf(booking.record(events, id), booking.slot),
{
    lemma_event_index(events, id, booking.is_vote);
    let i = event_index(events, id, booking.is_vote);
    let after = booking.record(events, id);
    assert forall|j: int, k: int| 0 <= j < k < after.len() implies !belongs(
        #[trigger] after[j],
        (#[trigger] after[k]).program_id,
        after[k].is_vote,
    ) by {
        if k < events.len() {
            assert(!belongs(events[j], events[k].program_id, events[k].is_vote));
        } else {
            assert(!belongs(events[j], id, booking.is_vote));
        }
    }
    assert forall|j: int| 0 <= j < after.len() implies event_wf(#[trigger] after[j], booking.slot) by {
        if j < events.len() {
            assert(event_wf(events[j], booking.slot));
        }
    }
}

} // verus!
