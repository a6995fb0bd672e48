use vstd::prelude::*;
use crate::config::CLOCK_FREQ;

verus! {

/// Timer interrupts per second: one every 10 ms.
pub const TICKS_PER_SEC: usize = 100;
/// Microseconds per second.
pub const MICRO_PER_SEC: usize = 1_000_000;

/// The timer value at which the next timer interrupt is due, one tick after
/// the current time `now`.
pub fn set_next_trigger(now: usize) -> (r: usize)
    requires
        now + CLOCK_FREQ / TICKS_PER_SEC <= usize::MAX,
    ensures
        r == now + CLOCK_FREQ / TICKS_PER_SEC,
{
    now + CLOCK_FREQ / TICKS_PER_SEC
}

/// The time in microseconds of the timer value `ticks`.
pub fn get_time_us(ticks: usize) -> (r: usize)
    ensures
        r == ticks / (CLOCK_FREQ / MICRO_PER_SEC),
{
    ticks / (CLOCK_FREQ / MICRO_PER_SEC)
}

} // verus!
