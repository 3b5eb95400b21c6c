//! Epochs, their slots, and the streams that serve their archives.

use vstd::prelude::*;

use crate::text::{ascii, decimal, law_decimal_parses, parsed_u64, push_decimal};

pub mod ripget_reader;
pub mod s3_reader;
pub mod slot_timestamp;
pub mod stream;

verus! {

/// Default base URL of the archives.
pub const BASE_URL: &'static str = "https://files.old-faithful.net";

/// The number of slots in an epoch.
pub const SLOTS_PER_EPOCH: u64 = 432000;

/// The first slot of an epoch.
pub open spec fn epoch_start(epoch: int) -> int {
    epoch * SLOTS_PER_EPOCH
}

/// The last slot of an epoch.
pub open spec fn epoch_end(epoch: int) -> int {
    epoch_start(epoch) + SLOTS_PER_EPOCH - 1
}

/// Returns the inclusive slot range covered by an epoch.
///
/// The tuple contains the first slot and the final slot of the epoch.
pub fn epoch_to_slot_range(epoch: u64) -> (r: (u64, u64))
    requires
        epoch_end(epoch as int) <= u64::MAX,
    ensures
        r.0 == epoch_start(epoch as int),
        r.1 == epoch_end(epoch as int),
{
    let first: u64 = epoch * SLOTS_PER_EPOCH;
    (first, first + (SLOTS_PER_EPOCH - 1))
}

/// The epoch that contains a slot.
pub open spec fn epoch_of(slot: int) -> int {
    slot / SLOTS_PER_EPOCH as int
}

/// Converts a slot back into the epoch that contains it.
pub fn slot_to_epoch(slot: u64) -> (r: u64)
    ensures
        r == epoch_of(slot as int),
{
    slot / SLOTS_PER_EPOCH
}

/// `{epoch}/epoch-{epoch}.car`.
pub open spec fn car_path_text(epoch: u64) -> Seq<char> {
    decimal(epoch as nat) + "/epoch-"@ + decimal(epoch as nat) + ".car"@
}

/// The path of an epoch's archive below the base URL.
pub fn car_path(epoch: u64) -> (r: String)
    ensures
        r@ == car_path_text(epoch),
{
    let mut path: String = String::new();
    push_decimal(&mut path, epoch);
    path.append("/epoch-");
    push_decimal(&mut path, epoch);
    path.append(".car");
    assert(Seq::<char>::empty() + decimal(epoch as nat) =~= decimal(epoch as nat));
    path
}

/// A slot belongs to an epoch exactly when it lies within the epoch's range.
pub proof fn law_slot_in_its_epoch(slot: u64, epoch: u64)
    ensures
        slot as int / SLOTS_PER_EPOCH as int == epoch <==> epoch_start(epoch as int) <= slot
            <= epoch_end(epoch as int),
{
}

/// Epochs follow each other without gap or overlap, and each has the same number of slots.
pub proof fn law_epochs_are_contiguous(epoch: int)
    ensures
        epoch_start(epoch + 1) == epoch_end(epoch) + 1,
        epoch_end(epoch) - epoch_start(epoch) + 1 == SLOTS_PER_EPOCH,
        epoch_start(0) == 0,
{
}

/// Each slot belongs to exactly one epoch, which has 432000 slots and starts with a multiple of
/// them.
pub proof fn law_epoch_slots(slot: int, epoch: int)
    requires
        0 <= slot,
        0 <= epoch,
    ensures
        epoch_start(epoch) == 432000 * epoch,
        epoch_end(epoch) == 432000 * epoch + 431999,
        epoch_start(epoch) <= slot <= epoch_end(epoch) <==> slot / 432000 == epoch,
{
}

/// The path of an archive names its epoch twice, and nothing else in it varies.
pub proof fn law_car_path(epoch: u64)
    ensures
        ({
            let path = car_path_text(epoch);
            let digits = decimal(epoch as nat).len() as int;
            &&& path.len() == 2 * digits + 11
            &&& parsed_u64(ascii(path.take(digits))) == Some(epoch)
            &&& path.subrange(digits, digits + 7) == "/epoch-"@
            &&& parsed_u64(ascii(path.subrange(digits + 7, 2 * digits + 7))) == Some(epoch)
            &&& path.skip(2 * digits + 7) == ".car"@
        }),
{
    reveal_strlit("/epoch-");
    reveal_strlit(".car");
    let d = decimal(epoch as nat);
    let n = d.len() as int;
    let path = car_path_text(epoch);
    law_decimal_parses(epoch);
    assert(path.take(n) =~= d);
    assert(path.subrange(n, n + 7) =~= "/epoch-"@);
    assert(path.subrange(n + 7, 2 * n + 7) =~= d);
    assert(path.skip(2 * n + 7) =~= ".car"@);
}

/// The epoch of a slot is the one whose slots it lies among, and no other.
pub proof fn law_epoch_of(slot: int, epoch: int)
    requires
        0 <= slot,
        0 <= epoch,
    ensures
        epoch_of(slot) == epoch <==> 432000 * epoch <= slot < 432000 * (epoch + 1),
{
}

} // verus!
