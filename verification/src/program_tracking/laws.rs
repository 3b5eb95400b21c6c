//! What holds of the statistics over any number of transactions.

use vstd::prelude::*;

use super::{after_block, after_transaction, belongs, clamped, drained, event_index, event_wf, events_wf, lemma_event_index, lemma_event_index_is, lemma_record_wf, lists, no_slots, released, shut_down, stamp, stamped, Booking, TransactionData};
use crate::pending::{events_of, ProgramEvent};

verus! {

/// The event of a program and a kind of transaction, if there is one.
pub open spec fn event_for(events: Seq<ProgramEvent>, id: [u8; 32], is_vote: bool) -> Option<
    ProgramEvent,
> {
    let i = event_index(events, id, is_vote);
    if i < events.len() {
        Some(events[i])
    } else {
        None
    }
}

/// How often `id` occurs.
pub open spec fn occurrences(ids: Seq<[u8; 32]>, id: [u8; 32]) -> nat
    decreases ids.len(),
{
    if ids.len() == 0 {
        0
    } else {
        occurrences(ids.drop_last(), id) + if ids.last() == id {
            1nat
        } else {
            0nat
        }
    }
}

/// An event, if there is one, after `n` invocations: the first of them starts one where there is
/// none.
pub open spec fn booked_on(
    booking: Booking,
    event: Option<ProgramEvent>,
    id: [u8; 32],
    n: nat,
) -> Option<ProgramEvent> {
    if n == 0 {
        event
    } else {
        Some(
            booking.booked(
                match event {
                    Some(event) => event,
                    None => booking.fresh(id),
                },
                n,
            ),
        )
    }
}

/// One invocation counts for its own program and kind of transaction, and for no other.
proof fn lemma_record(booking: Booking, events: Seq<ProgramEvent>, at: [u8; 32], id: [u8; 32], is_vote: bool)
    ensures
        event_for(booking.record(events, at), id, is_vote) == booked_on(
            booking,
            event_for(events, id, is_vote),
            id,
            if at == id && booking.is_vote == is_vote {
                1
            } else {
                0
            },
        ),
{
    lemma_event_index(events, at, booking.is_vote);
    lemma_event_index(events, id, is_vote);
    let k = event_index(events, at, booking.is_vote);
    let i = event_index(events, id, is_vote);
    let after = booking.record(events, at);
    assert forall|j: int| 0 <= j < i implies !belongs(#[trigger] after[j], id, is_vote) by {
        assert(!belongs(events[j], id, is_vote));
    }
    if i < events.len() {
        lemma_event_index_is(after, id, is_vote, i);
    } else if k < events.len() {
        lemma_event_index_is(after, id, is_vote, i);
    } else if at == id && booking.is_vote == is_vote {
        lemma_event_index_is(after, id, is_vote, i);
    } else {
        lemma_event_index_is(after, id, is_vote, i + 1);
    }
}

/// Invocations add up.
proof fn lemma_booked_again(booking: Booking, event: ProgramEvent, n: nat)
    ensures
        booking.booked(booking.booked(event, n), 1) == booking.booked(event, n + 1),
{
    assert((n + 1) * booking.cus == n * booking.cus + booking.cus) by (nonlinear_arith);
    assert(n * booking.cus >= 0) by (nonlinear_arith);
}

/// A transaction books on each program as many invocations as it has instructions for it, and
/// nothing on any other program, nor on the other kind of transaction.
pub proof fn law_books_each_invocation(
    booking: Booking,
    events: Seq<ProgramEvent>,
    ids: Seq<[u8; 32]>,
    id: [u8; 32],
    is_vote: bool,
)
    ensures
        event_for(booking.record_all(events, ids), id, is_vote) == booked_on(
            booking,
            event_for(events, id, is_vote),
            id,
            if booking.is_vote == is_vote {
                occurrences(ids, id)
            } else {
                0
            },
        ),
    decreases ids.len(),
{
    if ids.len() > 0 {
        law_books_each_invocation(booking, events, ids.drop_last(), id, is_vote);
        let before = booking.record_all(events, ids.drop_last());
        lemma_record(booking, before, ids.last(), id, is_vote);
        let start = match event_for(events, id, is_vote) {
            Some(event) => event,
            None => booking.fresh(id),
        };
        lemma_booked_again(booking, start, occurrences(ids.drop_last(), id));
    }
}

/// Sums that are capped do not depend on the order.
proof fn lemma_booked_commutes(a: Booking, n: nat, b: Booking, m: nat, event: ProgramEvent)
    ensures
        b.booked(a.booked(event, n), m) == a.booked(b.booked(event, m), n),
{
    assert(n * a.cus >= 0) by (nonlinear_arith);
    assert(m * b.cus >= 0) by (nonlinear_arith);
}

/// The statistics do not depend on the order in which two transactions of a slot arrive.
pub proof fn law_order_does_not_matter(
    events: Seq<ProgramEvent>,
    a: Booking,
    ids_a: Seq<[u8; 32]>,
    b: Booking,
    ids_b: Seq<[u8; 32]>,
    id: [u8; 32],
    is_vote: bool,
)
    requires
        a.slot == b.slot,
    ensures
        event_for(b.record_all(a.record_all(events, ids_a), ids_b), id, is_vote) == event_for(
            a.record_all(b.record_all(events, ids_b), ids_a),
            id,
            is_vote,
        ),
{
    law_books_each_invocation(a, events, ids_a, id, is_vote);
    law_books_each_invocation(b, a.record_all(events, ids_a), ids_b, id, is_vote);
    law_books_each_invocation(b, events, ids_b, id, is_vote);
    law_books_each_invocation(a, b.record_all(events, ids_b), ids_a, id, is_vote);
    let start = match event_for(events, id, is_vote) {
        Some(event) => event,
        None => a.fresh(id),
    };
    if a.is_vote == is_vote && b.is_vote == is_vote {
        assert(a.fresh(id) == b.fresh(id));
        lemma_booked_commutes(a, occurrences(ids_a, id), b, occurrences(ids_b, id), start);
    }
}

/// Transactions of different slots do not touch each other's events.
pub proof fn law_slots_are_independent(
    pending: Map<u64, Seq<ProgramEvent>>,
    tx: TransactionData,
    slot: u64,
)
    requires
        slot != tx.slot,
    ensures
        events_of(after_transaction(pending, tx), slot) == events_of(pending, slot),
        after_transaction(pending, tx).dom().contains(slot) == pending.dom().contains(slot),
{
}

/// All invocations counted in a slot.
pub open spec fn total_count(events: Seq<ProgramEvent>) -> int
    decreases events.len(),
{
    if events.len() == 0 {
        0
    } else {
        total_count(events.drop_last()) + events.last().count
    }
}

proof fn lemma_count_within_total(events: Seq<ProgramEvent>, i: int)
    requires
        0 <= i < events.len(),
    ensures
        0 <= total_count(events.drop_last()),
        events[i].count <= total_count(events),
    decreases events.len(),
{
    if events.len() > 1 {
        lemma_count_within_total(events.drop_last(), events.len() - 2);
        if i < events.len() - 1 {
            lemma_count_within_total(events.drop_last(), i);
        }
    }
}

proof fn lemma_total_update(events: Seq<ProgramEvent>, i: int, event: ProgramEvent)
    requires
        0 <= i < events.len(),
    ensures
        total_count(events.update(i, event)) == total_count(events) - events[i].count + event.count,
    decreases events.len(),
{
    let after = events.update(i, event);
    if i == events.len() - 1 {
        assert(after.drop_last() =~= events.drop_last());
    } else {
        assert(after.drop_last() =~= events.drop_last().update(i, event));
        lemma_total_update(events.drop_last(), i, event);
    }
}

/// Every invocation is counted once: as long as the count of a slot fits a `u32`, it grows by the
/// number of invocations.
pub proof fn law_counts_every_invocation(
    booking: Booking,
    events: Seq<ProgramEvent>,
    ids: Seq<[u8; 32]>,
)
    requires
        total_count(events) + ids.len() <= u32::MAX,
    ensures
        total_count(booking.record_all(events, ids)) == total_count(events) + ids.len(),
    decreases ids.len(),
{
    if ids.len() > 0 {
        law_counts_every_invocation(booking, events, ids.drop_last());
        let before = booking.record_all(events, ids.drop_last());
        let id = ids.last();
        let after = booking.record(before, id);
        lemma_event_index(before, id, booking.is_vote);
        let i = event_index(before, id, booking.is_vote);
        if i < before.len() {
            lemma_count_within_total(before, i);
            lemma_total_update(before, i, booking.booked(before[i], 1));
        } else {
            assert(after.drop_last() =~= before);
        }
    }
}

/// The shares of a transaction's invocations together never exceed what it consumed.
pub proof fn law_shares_within_consumption(tx: TransactionData)
    requires
        tx.programs().len() <= u32::MAX,
    ensures
        tx.share() * tx.programs().len() <= match tx.compute_units_consumed {
            Some(units) => units as int,
            None => 0,
        },
{
    let consumed = match tx.compute_units_consumed {
        Some(units) => units as int % 0x1_0000_0000,
        None => 0,
    };
    let count = tx.programs().len() as int;
    if count > 0 {
        vstd::arithmetic::div_mod::lemma_fundamental_div_mod(consumed, count);
        assert(consumed / count <= consumed) by (nonlinear_arith)
            requires
                consumed >= 0,
                count > 0,
        ;
        assert(consumed / count >= 0) by (nonlinear_arith)
            requires
                consumed >= 0,
                count > 0,
        ;
        assert(tx.share() == consumed / count);
        assert((consumed / count) * count == count * (consumed / count)) by (nonlinear_arith);
    } else {
        assert(tx.share() * count == 0) by (nonlinear_arith)
            requires
                count == 0,
        ;
    }
}

/// Once the events of a slot have been taken, there are none left to be taken.
pub proof fn law_taken_once(pending: Map<u64, Seq<ProgramEvent>>, slot: u64)
    ensures
        events_of(pending.remove(slot), slot).len() == 0,
        events_of(no_slots(), slot).len() == 0,
        forall|other: u64|
            other != slot ==> #[trigger] events_of(pending.remove(slot), other) == events_of(
                pending,
                other,
            ),
{
}

/// Draining gives out every pending event, and nothing else.
pub proof fn law_drains_every_event(
    pending: Map<u64, Seq<ProgramEvent>>,
    order: Seq<u64>,
    timestamp: u32,
    row: ProgramEvent,
)
    requires
        lists(order, pending),
    ensures
        drained(pending, order, timestamp).contains(row) <==> exists|slot: u64, i: int|
            pending.dom().contains(slot) && 0 <= i < pending[slot].len() && row == stamp(
                #[trigger] pending[slot][i],
                timestamp,
            ),
{
    lemma_drained(pending, order, timestamp, row);
    if drained(pending, order, timestamp).contains(row) {
        let (k, i) = choose|k: int, i: int|
            0 <= k < order.len() && 0 <= i < pending[order[k]].len() && row == stamp(
                #[trigger] pending[order[k]][i],
                timestamp,
            );
        assert(order.to_set().contains(order[k]));
        assert(row == stamp(pending[order[k]][i], timestamp));
    }
    if exists|slot: u64, i: int|
        pending.dom().contains(slot) && 0 <= i < pending[slot].len() && row == stamp(
            #[trigger] pending[slot][i],
            timestamp,
        ) {
        let (slot, i) = choose|slot: u64, i: int|
            pending.dom().contains(slot) && 0 <= i < pending[slot].len() && row == stamp(
                #[trigger] pending[slot][i],
                timestamp,
            );
        assert(order.to_set().contains(slot));
        let k = choose|k: int| 0 <= k < order.len() && order[k] == slot;
        assert(row == stamp(pending[order[k]][i], timestamp));
    }
}

proof fn lemma_drained(
    pending: Map<u64, Seq<ProgramEvent>>,
    order: Seq<u64>,
    timestamp: u32,
    row: ProgramEvent,
)
    ensures
        drained(pending, order, timestamp).contains(row) <==> exists|k: int, i: int|
            0 <= k < order.len() && 0 <= i < pending[order[k]].len() && row == stamp(
                #[trigger] pending[order[k]][i],
                timestamp,
            ),
    decreases order.len(),
{
    if order.len() > 0 {
        let front = order.drop_last();
        let n = order.len() - 1;
        let head = drained(pending, front, timestamp);
        let tail = stamped(pending[order[n]], timestamp);
        lemma_drained(pending, front, timestamp, row);
        if (head + tail).contains(row) {
            let j = choose|j: int| 0 <= j < (head + tail).len() && (head + tail)[j] == row;
            if j < head.len() {
                assert(head[j] == row);
                let (k, i) = choose|k: int, i: int|
                    0 <= k < front.len() && 0 <= i < pending[front[k]].len() && row == stamp(
                        #[trigger] pending[front[k]][i],
                        timestamp,
                    );
                assert(order[k] == front[k]);
                assert(row == stamp(pending[order[k]][i], timestamp));
            } else {
                assert(row == stamp(pending[order[n]][j - head.len()], timestamp));
            }
        }
        if exists|k: int, i: int|
            0 <= k < order.len() && 0 <= i < pending[order[k]].len() && row == stamp(
                #[trigger] pending[order[k]][i],
                timestamp,
            ) {
            let (k, i) = choose|k: int, i: int|
                0 <= k < order.len() && 0 <= i < pending[order[k]].len() && row == stamp(
                    #[trigger] pending[order[k]][i],
                    timestamp,
                );
            if k < n {
                assert(front[k] == order[k]);
                assert(row == stamp(pending[front[k]][i], timestamp));
                let j = choose|j: int| 0 <= j < head.len() && head[j] == row;
                assert((head + tail)[j] == row);
            } else {
                assert((head + tail)[head.len() + i] == row);
            }
        }
    }
}

/// The event of a program is the first that carries its address and the kind of transaction.
pub proof fn law_event_index(events: Seq<ProgramEvent>, id: [u8; 32], is_vote: bool)
    ensures
        ({
            let i = event_index(events, id, is_vote);
            &&& 0 <= i <= events.len()
            &&& i < events.len() ==> events[i].program_id == id && events[i].is_vote == is_vote
            &&& forall|j: int|
                0 <= j < i ==> !((#[trigger] events[j]).program_id == id && events[j].is_vote
                    == is_vote)
        }),
{
    lemma_event_index(events, id, is_vote);
    assert forall|j: int| 0 <= j < event_index(events, id, is_vote) implies !((
    #[trigger] events[j]).program_id == id && events[j].is_vote == is_vote) by {
        assert(!belongs(events[j], id, is_vote));
    }
}

/// The addresses that `indices` name, one by one.
spec fn named(indices: Seq<u8>, keys: Seq<[u8; 32]>) -> Seq<[u8; 32]>
    decreases indices.len(),
{
    if indices.len() == 0 {
        Seq::empty()
    } else if indices.last() < keys.len() {
        named(indices.drop_last(), keys).push(keys[indices.last() as int])
    } else {
        named(indices.drop_last(), keys)
    }
}

proof fn lemma_named(tx: TransactionData, n: int)
    requires
        0 <= n <= tx.program_indices@.len(),
    ensures
        tx.program_indices@.take(n).filter(|i: u8| i < tx.account_keys@.len()).map_values(
            |i: u8| tx.account_keys@[i as int],
        ) == named(tx.program_indices@.take(n), tx.account_keys@),
    decreases n,
{
    reveal(Seq::filter);
    let known = |i: u8| i < tx.account_keys@.len();
    let key = |i: u8| tx.account_keys@[i as int];
    let s = tx.program_indices@.take(n);
    if n == 0 {
        assert(s.filter(known).map_values(key) =~= Seq::empty());
    } else {
        lemma_named(tx, n - 1);
        assert(s.drop_last() =~= tx.program_indices@.take(n - 1));
        let kept = s.drop_last().filter(known);
        assert(kept.push(s.last()).map_values(key) =~= kept.map_values(key).push(key(s.last())));
    }
}

/// Each instruction invokes the program at its index, in order; an index beyond the addresses
/// invokes nothing.
pub proof fn law_programs(tx: TransactionData, front: TransactionData, index: u8)
    requires
        tx.account_keys@ == front.account_keys@,
        tx.program_indices@ == front.program_indices@ + seq![index],
    ensures
        index < tx.account_keys@.len() ==> tx.programs() == front.programs()
            + seq![tx.account_keys@[index as int]],
        index >= tx.account_keys@.len() ==> tx.programs() == front.programs(),
{
    let n = tx.program_indices@.len() as int;
    lemma_named(tx, n);
    lemma_named(front, n - 1);
    assert(tx.program_indices@.take(n) =~= tx.program_indices@);
    assert(front.program_indices@.take(n - 1) =~= front.program_indices@);
    assert(tx.program_indices@.drop_last() =~= front.program_indices@);
    if index < tx.account_keys@.len() {
        assert(tx.programs() =~= front.programs() + seq![tx.account_keys@[index as int]]);
    }
}

/// A transaction without instructions invokes nothing, and none invokes more than it has.
pub proof fn law_no_programs(tx: TransactionData)
    ensures
        tx.program_indices@.len() == 0 ==> tx.programs().len() == 0,
        tx.programs().len() <= tx.program_indices@.len(),
{
    lemma_named(tx, tx.program_indices@.len() as int);
    assert(tx.program_indices@.take(tx.program_indices@.len() as int) =~= tx.program_indices@);
    lemma_named_len(tx.program_indices@, tx.account_keys@);
}

proof fn lemma_named_len(indices: Seq<u8>, keys: Seq<[u8; 32]>)
    ensures
        named(indices, keys).len() <= indices.len(),
    decreases indices.len(),
{
    if indices.len() > 0 {
        lemma_named_len(indices.drop_last(), keys);
    }
}

/// Compute units are shared out evenly, rounded down, among the invocations that are booked; both
/// are counted in 32 bits.
pub proof fn law_share(tx: TransactionData)
    ensures
        ({
            let consumed = match tx.compute_units_consumed {
                Some(units) => units as int % 0x1_0000_0000,
                None => 0,
            };
            let n = tx.programs().len() as int % 0x1_0000_0000;
            &&& n > 0 ==> tx.share() * n <= consumed < tx.share() * n + n
            &&& n == 0 ==> tx.share() == 0
        }),
{
    let consumed = match tx.compute_units_consumed {
        Some(units) => units as int % 0x1_0000_0000,
        None => 0,
    };
    let n = tx.programs().len() as int % 0x1_0000_0000;
    if n > 0 {
        vstd::arithmetic::div_mod::lemma_fundamental_div_mod(consumed, n);
        assert(0 <= consumed / n <= consumed) by (nonlinear_arith)
            requires
                consumed >= 0,
                n > 0,
        ;
        assert((consumed / n) * n == n * (consumed / n)) by (nonlinear_arith);
        assert(0 <= consumed % n < n) by (nonlinear_arith)
            requires
                n > 0,
        ;
    }
}

/// The smaller of a number and the largest `u32`.
pub open spec fn at_most_u32(n: int) -> int {
    if n > u32::MAX {
        u32::MAX as int
    } else {
        n
    }
}

/// What one transaction does to the event of any program and kind of transaction: its own programs
/// gain their invocations, all of them as failed where the transaction failed and none otherwise,
/// and a share of the compute units for each; everything else stays.
pub proof fn law_transaction(
    pending: Map<u64, Seq<ProgramEvent>>,
    tx: TransactionData,
    id: [u8; 32],
    is_vote: bool,
)
    ensures
        ({
            let before = event_for(events_of(pending, tx.slot), id, is_vote);
            let after = event_for(events_of(after_transaction(pending, tx), tx.slot), id, is_vote);
            let n: nat = if tx.is_vote == is_vote {
                occurrences(tx.programs(), id)
            } else {
                0
            };
            &&& n == 0 ==> after == before
            &&& n > 0 ==> after is Some && after->0.program_id == id && after->0.is_vote == is_vote
            &&& n > 0 && before is None ==> after->0.slot == at_most_u32(tx.slot as int)
                && after->0.timestamp == 0 && after->0.count == at_most_u32(n as int)
                && after->0.error_count == (if tx.errored {
                at_most_u32(n as int)
            } else {
                0
            }) && after->0.min_cus == tx.share() && after->0.max_cus == tx.share()
                && after->0.total_cus == at_most_u32(n * tx.share())
            &&& n > 0 && before is Some ==> after->0.slot == before->0.slot && after->0.timestamp
                == before->0.timestamp && after->0.count == at_most_u32(before->0.count + n)
                && after->0.error_count == (if tx.errored {
                at_most_u32(before->0.error_count + n)
            } else {
                before->0.error_count as int
            }) && after->0.min_cus == (if before->0.min_cus < tx.share() {
                before->0.min_cus
            } else {
                tx.share()
            }) && after->0.max_cus == (if before->0.max_cus > tx.share() {
                before->0.max_cus
            } else {
                tx.share()
            }) && after->0.total_cus == at_most_u32(before->0.total_cus + n * tx.share())
        }),
{
    let events = events_of(pending, tx.slot);
    let n: nat = if tx.is_vote == is_vote {
        occurrences(tx.programs(), id)
    } else {
        0
    };
    law_books_each_invocation(tx.booking(), events, tx.programs(), id, is_vote);
    lemma_event_index(events, id, is_vote);
    assert(n * tx.share() >= 0) by (nonlinear_arith);
    if tx.programs().len() == 0 {
        assert(occurrences(tx.programs(), id) == 0);
    } else {
        assert(events_of(after_transaction(pending, tx), tx.slot) == tx.booking().record_all(
            events,
            tx.programs(),
        ));
    }
}

/// The pending events after some transactions.
pub open spec fn after_transactions(pending: Map<u64, Seq<ProgramEvent>>, txs: Seq<TransactionData>) -> Map<
    u64,
    Seq<ProgramEvent>,
>
    decreases txs.len(),
{
    if txs.len() == 0 {
        pending
    } else {
        after_transaction(after_transactions(pending, txs.drop_last()), txs.last())
    }
}

/// How often a transaction invokes a program, where it is of this slot and kind.
pub open spec fn invokes(tx: TransactionData, slot: u64, id: [u8; 32], is_vote: bool) -> nat {
    if tx.slot == slot && tx.is_vote == is_vote {
        occurrences(tx.programs(), id)
    } else {
        0
    }
}

/// What a program's row adds up to over some transactions of a slot.
pub struct Totals {
    pub invocations: int,
    pub failed: int,
    pub units: int,
    pub least: u32,
    pub most: u32,
}

/// The sums over all invocations of a program by transactions of a slot and kind: how many there
/// were, how many by transactions that failed, and the least, the most and the sum of their shares.
pub open spec fn totals(txs: Seq<TransactionData>, slot: u64, id: [u8; 32], is_vote: bool) -> Totals
    decreases txs.len(),
{
    if txs.len() == 0 {
        Totals { invocations: 0, failed: 0, units: 0, least: u32::MAX, most: 0 }
    } else {
        let t = totals(txs.drop_last(), slot, id, is_vote);
        let tx = txs.last();
        let n = invokes(tx, slot, id, is_vote);
        Totals {
            invocations: t.invocations + n,
            failed: t.failed + if tx.errored {
                n as int
            } else {
                0
            },
            units: t.units + n * tx.share(),
            least: if n > 0 && tx.share() < t.least {
                tx.share()
            } else {
                t.least
            },
            most: if n > 0 && tx.share() > t.most {
                tx.share()
            } else {
                t.most
            },
        }
    }
}

/// A program has a row in a slot exactly where transactions of that slot and kind invoked it, and
/// the row tells how often, how often by transactions that failed, and the least, the most and the
/// sum of the shares of compute units.
pub proof fn law_statistics(txs: Seq<TransactionData>, slot: u64, id: [u8; 32], is_vote: bool)
    ensures
        ({
            let t = totals(txs, slot, id, is_vote);
            let row = event_for(
                events_of(after_transactions(no_slots(), txs), slot),
                id,
                is_vote,
            );
            &&& t.invocations == 0 ==> row is None
            &&& t.invocations > 0 ==> row is Some && row->0.slot == at_most_u32(slot as int)
                && row->0.timestamp == 0 && row->0.program_id == id && row->0.is_vote == is_vote
                && row->0.count == at_most_u32(t.invocations) && row->0.error_count == at_most_u32(
                t.failed,
            ) && row->0.total_cus == at_most_u32(t.units) && row->0.min_cus == t.least
                && row->0.max_cus == t.most
            &&& 0 <= t.failed <= t.invocations
            &&& 0 <= t.units
            &&& t.invocations == 0 ==> t.least == u32::MAX && t.most == 0 && t.units == 0
        }),
    decreases txs.len(),
{
    if txs.len() == 0 {
        assert(events_of(no_slots(), slot).len() == 0);
    } else {
        let front = txs.drop_last();
        let tx = txs.last();
        let before = after_transactions(no_slots(), front);
        law_statistics(front, slot, id, is_vote);
        let n = invokes(tx, slot, id, is_vote);
        assert(n * tx.share() >= 0) by (nonlinear_arith);
        assert(n == 0 ==> n * tx.share() == 0) by (nonlinear_arith);
        if tx.slot == slot {
            law_transaction(before, tx, id, is_vote);
        } else {
            law_slots_are_independent(before, tx, slot);
        }
    }
}

/// No program has two rows of a kind in a slot, and each row has been invoked.
pub proof fn law_one_row_each(txs: Seq<TransactionData>, slot: u64, i: int, j: int)
    requires
        0 <= i < j < events_of(after_transactions(no_slots(), txs), slot).len(),
    ensures
        ({
            let rows = events_of(after_transactions(no_slots(), txs), slot);
            &&& !(rows[i].program_id == rows[j].program_id && rows[i].is_vote == rows[j].is_vote)
            &&& rows[i].count >= 1
            &&& rows[j].count >= 1
        }),
{
    lemma_rows_wf(txs, slot);
    let rows = events_of(after_transactions(no_slots(), txs), slot);
    assert(!belongs(rows[i], rows[j].program_id, rows[j].is_vote));
    assert(event_wf(rows[i], slot));
    assert(event_wf(rows[j], slot));
}

proof fn lemma_rows_wf(txs: Seq<TransactionData>, slot: u64)
    ensures
        events_wf(events_of(after_transactions(no_slots(), txs), slot), slot),
    decreases txs.len(),
{
    if txs.len() > 0 {
        let tx = txs.last();
        let before = after_transactions(no_slots(), txs.drop_last());
        lemma_rows_wf(txs.drop_last(), slot);
        if tx.slot == slot {
            lemma_record_all_wf(tx.booking(), events_of(before, slot), tx.programs());
        } else {
            law_slots_are_independent(before, tx, slot);
        }
    }
}

proof fn lemma_record_all_wf(booking: Booking, events: Seq<ProgramEvent>, ids: Seq<[u8; 32]>)
    requires
        events_wf(events, booking.slot),
    ensures
        events_wf(booking.record_all(events, ids), booking.slot),
    decreases ids.len(),
{
    if ids.len() > 0 {
        lemma_record_all_wf(booking, events, ids.drop_last());
        lemma_record_wf(booking, booking.record_all(events, ids.drop_last()), ids.last());
    }
}

/// A slot is pending exactly where some transaction of it invoked a program.
pub proof fn law_pending_slots(pending: Map<u64, Seq<ProgramEvent>>, tx: TransactionData, slot: u64)
    ensures
        after_transaction(pending, tx).dom().contains(slot) <==> pending.dom().contains(slot)
            || slot == tx.slot && tx.programs().len() > 0,
        pending.dom().contains(slot) ==> events_of(pending, slot) == pending[slot],
        !pending.dom().contains(slot) ==> events_of(pending, slot).len() == 0,
        !no_slots().dom().contains(slot),
{
}

/// Times are kept from zero to the largest `u32`; what lies outside is moved to the nearer end, and
/// what is missing to zero.
pub proof fn law_clamps(t: i64)
    ensures
        0 <= t <= u32::MAX ==> clamped(Some(t)) == t,
        t < 0 ==> clamped(Some(t)) == 0,
        t > u32::MAX ==> clamped(Some(t)) == u32::MAX,
        clamped(None) == 0,
{
}

/// Rows that are handed out are the events, in order, with nothing changed but the time.
pub proof fn law_stamps(events: Seq<ProgramEvent>, timestamp: u32, i: int)
    requires
        0 <= i < events.len(),
    ensures
        stamped(events, timestamp).len() == events.len(),
        ({
            let row = stamped(events, timestamp)[i];
            let event = events[i];
            &&& row == stamp(event, timestamp)
            &&& row.timestamp == timestamp
            &&& row.slot == event.slot
            &&& row.program_id == event.program_id
            &&& row.is_vote == event.is_vote
            &&& row.count == event.count
            &&& row.error_count == event.error_count
            &&& row.min_cus == event.min_cus
            &&& row.max_cus == event.max_cus
            &&& row.total_cus == event.total_cus
        }),
{
}

/// Slots are drained one after the other, each with all of its rows once.
pub proof fn law_drains_in_order(
    pending: Map<u64, Seq<ProgramEvent>>,
    a: Seq<u64>,
    b: Seq<u64>,
    slot: u64,
    timestamp: u32,
)
    ensures
        drained(pending, seq![slot], timestamp) == stamped(pending[slot], timestamp),
        drained(pending, a + b, timestamp) == drained(pending, a, timestamp) + drained(
            pending,
            b,
            timestamp,
        ),
    decreases b.len(),
{
    reveal_with_fuel(drained, 2);
    assert(seq![slot].drop_last() =~= Seq::<u64>::empty());
    assert(Seq::<ProgramEvent>::empty() + stamped(pending[slot], timestamp) =~= stamped(
        pending[slot],
        timestamp,
    ));
    if b.len() == 0 {
        assert(a + b =~= a);
        assert(drained(pending, a, timestamp) + drained(pending, b, timestamp) =~= drained(
            pending,
            a,
            timestamp,
        ));
    } else {
        assert((a + b).drop_last() =~= a + b.drop_last());
        assert((a + b).last() == b.last());
        law_drains_in_order(pending, a, b.drop_last(), slot, timestamp);
        assert(drained(pending, a + b, timestamp) =~= drained(pending, a, timestamp) + drained(
            pending,
            b,
            timestamp,
        ));
    }
}

/// What is drained is each pending slot, once, and no other.
pub proof fn law_drains_each_slot(pending: Map<u64, Seq<ProgramEvent>>, order: Seq<u64>)
    ensures
        lists(order, pending) <==> (forall|i: int, j: int|
            0 <= i < j < order.len() ==> order[i] != order[j]) && (forall|slot: u64|
            order.contains(slot) <==> pending.dom().contains(slot)),
{
    if (forall|i: int, j: int| 0 <= i < j < order.len() ==> order[i] != order[j]) && (forall|
        slot: u64,
    |
        order.contains(slot) <==> pending.dom().contains(slot)) {
        assert(order.to_set() =~= pending.dom());
    }
    if lists(order, pending) {
        assert forall|slot: u64| order.contains(slot) <==> pending.dom().contains(slot) by {
            assert(order.to_set().contains(slot) <==> order.contains(slot));
        }
    }
}

/// A block takes all events of its slot, and of no other, and releases each of them with its time
/// where there is a database; a skipped block does nothing.
pub proof fn law_block(
    pending: Map<u64, Seq<ProgramEvent>>,
    has_db: bool,
    slot: u64,
    other: u64,
    time: Option<i64>,
    i: int,
)
    ensures
        after_block(pending, slot, true) == pending,
        released(pending, has_db, slot, time, true) is None,
        !after_block(pending, slot, false).dom().contains(slot),
        other != slot ==> events_of(after_block(pending, slot, false), other) == events_of(
            pending,
            other,
        ) && after_block(pending, slot, false).dom().contains(other) == pending.dom().contains(other),
        !has_db ==> released(pending, has_db, slot, time, false) is None,
        events_of(pending, slot).len() == 0 ==> released(pending, has_db, slot, time, false) is None,
        has_db && 0 <= i < events_of(pending, slot).len() ==> ({
            let rows = released(pending, has_db, slot, time, false);
            &&& rows is Some
            &&& rows->0.len() == events_of(pending, slot).len()
            &&& rows->0[i].timestamp == clamped(time)
            &&& rows->0[i] == (ProgramEvent {
                timestamp: clamped(time),
                ..events_of(pending, slot)[i]
            })
        }),
{
}

/// With a database, a shutdown leaves nothing pending and writes each event that was, with no time;
/// without one it writes nothing and leaves everything.
pub proof fn law_shut_down(
    pending: Map<u64, Seq<ProgramEvent>>,
    has_db: bool,
    rows: Option<Seq<ProgramEvent>>,
    after: Map<u64, Seq<ProgramEvent>>,
    slot: u64,
    i: int,
)
    requires
        shut_down(pending, has_db, rows, after),
    ensures
        !has_db ==> rows is None && after == pending,
        has_db ==> !after.dom().contains(slot),
        has_db && 0 <= i < events_of(pending, slot).len() ==> rows is Some && rows->0.contains(
            ProgramEvent { timestamp: 0, ..events_of(pending, slot)[i] },
        ),
        has_db && (forall|s: u64| #[trigger] events_of(pending, s).len() == 0) ==> rows is None,
{
    if has_db {
        let order = choose|order: Seq<u64>|
            lists(order, pending) && ({
                let all = #[trigger] drained(pending, order, 0);
                rows == if all.len() > 0 {
                    Some(all)
                } else {
                    None
                }
            });
        let all = drained(pending, order, 0);
        if 0 <= i < events_of(pending, slot).len() {
            let row = ProgramEvent { timestamp: 0, ..events_of(pending, slot)[i] };
            assert(row == stamp(pending[slot][i], 0));
            law_drains_every_event(pending, order, 0, row);
        }
        if (forall|s: u64| #[trigger] events_of(pending, s).len() == 0) && all.len() > 0 {
            law_drains_every_event(pending, order, 0, all[0]);
            assert(all.contains(all[0]));
            let (s, k) = choose|s: u64, k: int|
                pending.dom().contains(s) && 0 <= k < pending[s].len() && all[0] == stamp(
                    #[trigger] pending[s][k],
                    0,
                );
            assert(events_of(pending, s).len() == 0);
        }
    }
}

} // verus!
