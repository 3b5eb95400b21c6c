use jetstreamer::pending::ProgramEvent;
use jetstreamer::program_tracking::{
    clamp_block_time, ExitWork, PendingBySlot, ProgramTrackingPlugin, TransactionData,
};

fn tx(slot: u64, program_indices: &[u8], cus: Option<u64>) -> TransactionData {
    TransactionData {
        slot,
        is_vote: false,
        account_keys: vec![[1; 32], [2; 32], [3; 32]],
        program_indices: program_indices.to_vec(),
        compute_units_consumed: cus,
        errored: false,
    }
}

fn event(slot: u32, id: u8, count: u32, min_cus: u32, max_cus: u32, total_cus: u32) -> ProgramEvent {
    ProgramEvent {
        slot,
        timestamp: 0,
        program_id: [id; 32],
        is_vote: false,
        count,
        error_count: 0,
        min_cus,
        max_cus,
        total_cus,
    }
}

fn sorted(mut rows: Vec<ProgramEvent>) -> Vec<ProgramEvent> {
    rows.sort_by_key(|row| (row.slot, row.program_id, row.is_vote));
    rows
}

fn take(pending: &mut PendingBySlot, slot: u64) -> Vec<ProgramEvent> {
    sorted(ProgramTrackingPlugin::take_slot_events(pending, slot, None))
}

#[test]
fn invocations_are_booked_on_their_programs() {
    let plugin = ProgramTrackingPlugin::new();
    let mut pending = PendingBySlot::new();
    plugin.on_transaction(&mut pending, &tx(5, &[0, 1, 0], Some(100)));
    plugin.on_transaction(&mut pending, &tx(5, &[0], Some(7)));
    assert_eq!(
        take(&mut pending, 5),
        vec![event(5, 1, 3, 7, 33, 73), event(5, 2, 1, 33, 33, 33)]
    );
}

#[test]
fn the_order_of_transactions_does_not_matter() {
    let plugin = ProgramTrackingPlugin::default();
    let transactions =
        [tx(5, &[0, 1], Some(9)), tx(5, &[1, 2, 1], Some(300)), tx(5, &[2], None)];
    let rows = |order: [usize; 3]| {
        let mut pending = PendingBySlot::new();
        for i in order {
            plugin.on_transaction(&mut pending, &transactions[i]);
        }
        take(&mut pending, 5)
    };
    let expected = vec![
        event(5, 1, 1, 4, 4, 4),
        event(5, 2, 3, 4, 100, 204),
        event(5, 3, 2, 0, 100, 100),
    ];
    for order in [[0, 1, 2], [0, 2, 1], [1, 0, 2], [1, 2, 0], [2, 0, 1], [2, 1, 0]] {
        assert_eq!(rows(order), expected);
    }
    assert_eq!(expected.iter().map(|e| e.count).sum::<u32>(), 6);
}

#[test]
fn votes_and_failures_are_kept_apart() {
    let plugin = ProgramTrackingPlugin::new();
    let mut pending = PendingBySlot::new();
    plugin.on_transaction(&mut pending, &tx(5, &[0], Some(10)));
    let vote = TransactionData { is_vote: true, errored: true, ..tx(5, &[0, 0], Some(10)) };
    plugin.on_transaction(&mut pending, &vote);
    plugin.on_transaction(&mut pending, &TransactionData { is_vote: true, ..tx(5, &[0], None) });
    let rows = take(&mut pending, 5);
    assert_eq!(
        rows,
        vec![
            event(5, 1, 1, 10, 10, 10),
            ProgramEvent { is_vote: true, error_count: 2, ..event(5, 1, 3, 0, 5, 10) },
        ]
    );
}

#[test]
fn transactions_without_programs_leave_no_trace() {
    let plugin = ProgramTrackingPlugin::new();
    let mut pending = PendingBySlot::new();
    plugin.on_transaction(&mut pending, &tx(5, &[], Some(10)));
    plugin.on_transaction(&mut pending, &tx(5, &[3, 255], Some(10)));
    assert_eq!(pending.map.len(), 0);
    plugin.on_transaction(&mut pending, &tx(5, &[3, 2, 255], Some(10)));
    assert_eq!(take(&mut pending, 5), vec![event(5, 3, 1, 10, 10, 10)]);
}

#[test]
fn compute_units_are_counted_in_32_bits() {
    let plugin = ProgramTrackingPlugin::new();
    let mut pending = PendingBySlot::new();
    plugin.on_transaction(&mut pending, &tx(u64::MAX, &[0], Some((7 << 32) + 11)));
    assert_eq!(take(&mut pending, u64::MAX), vec![event(u32::MAX, 1, 1, 11, 11, 11)]);
    for _ in 0..3 {
        plugin.on_transaction(&mut pending, &tx(5, &[0], Some(2_000_000_000)));
    }
    assert_eq!(
        take(&mut pending, 5),
        vec![event(5, 1, 3, 2_000_000_000, 2_000_000_000, u32::MAX)]
    );
}

#[test]
fn slots_are_taken_once_and_alone() {
    let plugin = ProgramTrackingPlugin::new();
    let mut pending = PendingBySlot::new();
    plugin.on_transaction(&mut pending, &tx(5, &[0], Some(10)));
    plugin.on_transaction(&mut pending, &tx(6, &[1], Some(20)));
    let rows = ProgramTrackingPlugin::take_slot_events(&mut pending, 5, Some(99));
    assert_eq!(rows, vec![ProgramEvent { timestamp: 99, ..event(5, 1, 1, 10, 10, 10) }]);
    assert_eq!(take(&mut pending, 5), vec![]);
    assert_eq!(take(&mut pending, 6), vec![event(6, 2, 1, 20, 20, 20)]);
}

#[test]
fn draining_takes_every_slot() {
    let plugin = ProgramTrackingPlugin::new();
    let mut pending = PendingBySlot::new();
    for slot in 0..40 {
        plugin.on_transaction(&mut pending, &tx(slot, &[0, 1], Some(slot * 2)));
    }
    let rows = sorted(ProgramTrackingPlugin::drain_all_pending(&mut pending, Some(3)));
    let expected: Vec<ProgramEvent> = (0..40u32)
        .flat_map(|s| [event(s, 1, 1, s, s, s), event(s, 2, 1, s, s, s)])
        .map(|e| ProgramEvent { timestamp: 3, ..e })
        .collect();
    assert_eq!(rows, expected);
    assert_eq!(pending.map.len(), 0);
    assert_eq!(ProgramTrackingPlugin::drain_all_pending(&mut pending, None), vec![]);
}

#[test]
fn a_block_releases_the_rows_of_its_slot() {
    let plugin = ProgramTrackingPlugin::new();
    let mut pending = PendingBySlot::new();
    plugin.on_transaction(&mut pending, &tx(5, &[0], Some(10)));
    assert_eq!(plugin.on_block(&mut pending, true, 5, Some(99), true), None);
    assert_eq!(plugin.on_block(&mut pending, true, 4, Some(99), false), None);
    assert_eq!(
        plugin.on_block(&mut pending, true, 5, Some(99), false),
        Some(vec![ProgramEvent { timestamp: 99, ..event(5, 1, 1, 10, 10, 10) }])
    );
    assert_eq!(plugin.on_block(&mut pending, true, 5, Some(99), false), None);
    plugin.on_transaction(&mut pending, &tx(6, &[0], Some(10)));
    assert_eq!(plugin.on_block(&mut pending, false, 6, Some(99), false), None);
    assert_eq!(pending.map.len(), 0);
}

#[test]
fn what_is_left_at_the_end_is_written_without_a_time() {
    let plugin = ProgramTrackingPlugin::new();
    let mut pending = PendingBySlot::new();
    plugin.on_transaction(&mut pending, &tx(5, &[0], Some(10)));
    assert_eq!(
        plugin.on_exit(&mut pending, false),
        ExitWork { rows: None, backfill: false }
    );
    assert_eq!(pending.map.len(), 1);
    assert_eq!(
        plugin.on_exit(&mut pending, true),
        ExitWork { rows: Some(vec![event(5, 1, 1, 10, 10, 10)]), backfill: true }
    );
    assert_eq!(plugin.on_exit(&mut pending, true), ExitWork { rows: None, backfill: true });
}

#[test]
fn block_times_are_clamped() {
    assert_eq!(clamp_block_time(None), 0);
    assert_eq!(clamp_block_time(Some(-1)), 0);
    assert_eq!(clamp_block_time(Some(0)), 0);
    assert_eq!(clamp_block_time(Some(1_713_000_000)), 1_713_000_000);
    assert_eq!(clamp_block_time(Some(u32::MAX as i64)), u32::MAX);
    assert_eq!(clamp_block_time(Some(u32::MAX as i64 + 1)), u32::MAX);
    assert_eq!(clamp_block_time(Some(i64::MAX)), u32::MAX);
}

#[test]
fn the_plugin_has_a_name() {
    assert_eq!(ProgramTrackingPlugin::new().name(), "Program Tracking");
}
