//! Spacing out seeks across all readers of a process.

use vstd::prelude::*;

verus! {

/// The shortest time between two seeks.
pub const MIN_SEEK_SPACING_MS: u64 = 15;

/// What a reader that wants to seek does next.
#[derive(Copy, Clone, Debug, PartialEq, Eq, Structural)]
pub enum SpacingStep {
    /// Sleep this many milliseconds, then look again.
    Sleep(u64),
    /// Replace the time of the last seek, if it is still `expected`, by `hit`.
    Claim { expected: u64, hit: u64 },
    /// Seek.
    Proceed,
}

/// Whether a seek at `now` keeps its distance from one at `last`.
pub open spec fn spaced(last: u64, now: u64) -> bool {
    now >= last + MIN_SEEK_SPACING_MS
}

/// The time since `last`, zero where `now` lies before it.
pub open spec fn elapsed(last: u64, now: u64) -> int {
    if now >= last {
        now - last
    } else {
        0
    }
}

/// `n`, or the largest `u64`.
pub open spec fn capped(n: u128) -> u64 {
    if n > u64::MAX {
        u64::MAX
    } else {
        n as u64
    }
}

/// What follows a claim.
pub open spec fn claimed(won: bool) -> SpacingStep {
    if won {
        SpacingStep::Proceed
    } else {
        SpacingStep::Sleep(MIN_SEEK_SPACING_MS)
    }
}

/// Milliseconds since the process began to seek, capped to what fits a `u64`.
pub fn seek_monotonic_millis(elapsed_ms: u128) -> (r: u64)
    ensures
        r == capped(elapsed_ms),
{
    if elapsed_ms > u64::MAX as u128 {
        u64::MAX
    } else {
        elapsed_ms as u64
    }
}

/// What a reader does at `now` after a seek at `last`.
pub open spec fn hit_step(now: u64, last: u64) -> SpacingStep {
    if spaced(last, now) {
        SpacingStep::Claim { expected: last, hit: now }
    } else {
        SpacingStep::Sleep((MIN_SEEK_SPACING_MS - elapsed(last, now)) as u64)
    }
}

/// Decides at `now_ms` whether a seek may be claimed after the one at `last_hit`.
pub fn seek_hit_step(now_ms: u64, last_hit: u64) -> (r: SpacingStep)
    ensures
        r == hit_step(now_ms, last_hit),
{
    let since_last: u64 = now_ms.saturating_sub(last_hit);
    if since_last < MIN_SEEK_SPACING_MS {
        SpacingStep::Sleep(MIN_SEEK_SPACING_MS - since_last)
    } else {
        SpacingStep::Claim { expected: last_hit, hit: now_ms }
    }
}

/// Decides what follows a claim: where another reader was faster, its interval starts now.
pub fn after_claim(won: bool) -> (r: SpacingStep)
    ensures
        r == claimed(won),
{
    if won {
        SpacingStep::Proceed
    } else {
        SpacingStep::Sleep(MIN_SEEK_SPACING_MS)
    }
}

/// However many readers compete, seeks keep their distance: `hits` are the times that were stored
/// one after the other, each by a claim that found the one before it in place.
pub proof fn law_claims_are_spaced(hits: Seq<u64>, i: int, j: int)
    requires
        forall|k: int|
            0 < k < hits.len() ==> hit_step(#[trigger] hits[k], hits[k - 1])
                == (SpacingStep::Claim { expected: hits[k - 1], hit: hits[k] }),
        0 <= i <= j < hits.len(),
    ensures
        hits[j] >= hits[i] + MIN_SEEK_SPACING_MS * (j - i),
    decreases j - i,
{
    if i < j {
        law_claims_are_spaced(hits, i, j - 1);
        assert(spaced(hits[j - 1], hits[j]));
    }
}

/// A reader that slept as long as it was told can claim its seek, if no other did meanwhile.
pub proof fn law_sleep_suffices(last: u64, now: u64, later: u64)
    requires
        last <= now,
        hit_step(now, last) is Sleep,
        later >= now + hit_step(now, last)->Sleep_0,
    ensures
        hit_step(later, last) == (SpacingStep::Claim { expected: last, hit: later }),
{
}

/// A seek is claimed at the time it is made, once fifteen milliseconds have passed since the last
/// one; before that, a reader sleeps out the rest of them, and all of them where the clock stands
/// before the last seek.
pub proof fn law_spacing(now: u64, last: u64)
    ensures
        now >= last + 15 ==> hit_step(now, last) == (SpacingStep::Claim { expected: last, hit: now }),
        last <= now < last + 15 ==> hit_step(now, last) is Sleep && now + hit_step(now, last)->Sleep_0
            == last + 15,
        now < last ==> hit_step(now, last) == SpacingStep::Sleep(15),
{
}

/// Only who wins a claim goes ahead; who loses it sleeps for a whole interval. Times are told as they
/// are as long as they fit.
pub proof fn law_claims(n: u128)
    ensures
        claimed(true) == SpacingStep::Proceed,
        claimed(false) == SpacingStep::Sleep(15),
        n <= u64::MAX ==> capped(n) == n,
        n > u64::MAX ==> capped(n) == u64::MAX,
{
}

} // verus!
