//! The words-per-minute normalization: (characters / 5) / elapsed minutes,
//! carried in thousandths (milli-WPM) so it stays an integer.

use vstd::prelude::*;

verus! {

/// Speed in milli-WPM for `chars` characters typed over `elapsed_ms`
/// milliseconds: (chars / 5 words) / (elapsed_ms / 60000 min), scaled by
/// 1000. Zero elapsed time yields a defined zero rate rather than a fault.
pub open spec fn speed_milli_wpm(chars: int, elapsed_ms: int) -> int {
    if elapsed_ms <= 0 {
        0
    } else {
        chars * 12_000_000 / elapsed_ms
    }
}

/// The speed in milli-WPM as a machine word, saturating at `u64::MAX`.
pub open spec fn sat_speed_milli_wpm(chars: int, elapsed_ms: int) -> u64 {
    if speed_milli_wpm(chars, elapsed_ms) > u64::MAX {
        u64::MAX
    } else {
        speed_milli_wpm(chars, elapsed_ms) as u64
    }
}

/// Milliseconds from `earlier` to `now`, clamped at zero if the clock ran
/// backwards.
pub open spec fn elapsed_ms_between(earlier: u64, now: u64) -> int {
    if now >= earlier {
        now - earlier
    } else {
        0
    }
}

/// Computes the speed in milli-WPM, saturating at `u64::MAX`.
pub fn compute_speed_milli_wpm(chars: usize, elapsed_ms: u64) -> (r: u64)
    ensures
        r == sat_speed_milli_wpm(chars as int, elapsed_ms as int),
{
    if elapsed_ms == 0 {
        0
    } else {
        let v: u128 = (chars as u128) * 12_000_000u128 / (elapsed_ms as u128);
        if v > u64::MAX as u128 {
            u64::MAX
        } else {
            v as u64
        }
    }
}

} // verus!
