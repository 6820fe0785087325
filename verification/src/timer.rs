//! The millisecond clock: the programmable interval timer's channel 0
//! ticks at 1000 Hz, and each tick's interrupt counts one millisecond.

use vstd::prelude::*;

verus! {

/// The timer's input clock, in Hz.
pub const PIT_INPUT_HZ: u32 = 1193182;
/// The tick rate, in Hz.
pub const TICK_HZ: u32 = 1000;
/// The divisor that gives the tick rate: 1193182 / 1000, rounded down.
pub const PIT_DIVISOR: u16 = 0x04A9;

pub proof fn lemma_divisor()
    ensures
        PIT_DIVISOR == PIT_INPUT_HZ / TICK_HZ,
{
}

/// The port writes that set channel 0 to a square wave at the divisor:
/// the mode (channel 0, low then high byte, mode 3, binary), then the
/// divisor's low and high bytes.
pub open spec fn pit_writes() -> Seq<(u16, u8)> {
    seq![(0x43u16, 0x36u8), (0x40, (PIT_DIVISOR % 256) as u8), (0x40, (PIT_DIVISOR / 256) as u8)]
}

/// The timer's programming, as port writes in order.
pub fn pit_sequence() -> (w: Vec<(u16, u8)>)
    ensures
        w@ == pit_writes(),
{
    let mut w: Vec<(u16, u8)> = Vec::new();
    w.push((0x43, 0x36));
    w.push((0x40, (PIT_DIVISOR % 256) as u8));
    w.push((0x40, (PIT_DIVISOR / 256) as u8));
    assert(w@ =~= pit_writes());
    w
}

/// The count of timer ticks since boot.
pub struct TickCounter {
    ticks: u64,
}

impl TickCounter {
    pub closed spec fn count(&self) -> u64 {
        self.ticks
    }

    pub fn new() -> (c: Self)
        ensures
            c.count() == 0,
    {
        TickCounter { ticks: 0 }
    }

    /// One tick; the count wraps at 2^64.
    pub fn tick(&mut self)
        ensures
            final(self).count() == old(self).count().wrapping_add(1),
    {
        self.ticks = count_after_tick(self.ticks);
    }
}

/// The tick count after one more timer interrupt; it wraps at 2^64.
pub fn count_after_tick(count: u64) -> (r: u64)
    ensures
        r == count.wrapping_add(1),
        r == after_ticks(count, 1),
{
    assert(after_ticks(count, 0) == count);
    count.wrapping_add(1)
}

/// The count after `k` more ticks from `count`.
pub open spec fn after_ticks(count: u64, k: nat) -> u64
    decreases k,
{
    if k == 0 {
        count
    } else {
        after_ticks(count, (k - 1) as nat).wrapping_add(1)
    }
}

/// The clock never goes back: after `k` more ticks the count, and so
/// `now_ms`, is `k` more, as long as it stays below 2^64 (which takes
/// some 585 million years of ticks from boot).
pub proof fn lemma_clock_never_goes_back(count: u64, k: nat)
    requires
        count + k <= u64::MAX,
    ensures
        after_ticks(count, k) == count + k,
        after_ticks(count, k) >= count,
    decreases k,
{
    if k > 0 {
        lemma_clock_never_goes_back(count, (k - 1) as nat);
    }
}

/// Milliseconds since boot: one per tick.
pub fn now_ms(clock: &TickCounter) -> (ms: u64)
    ensures
        ms == clock.count(),
{
    clock.ticks
}

/// When a sleep of `ms` milliseconds begun at `now` ends; never wraps.
pub fn sleep_deadline(now: u64, ms: u64) -> (t: u64)
    ensures
        t == if now + ms <= u64::MAX {
            (now + ms) as u64
        } else {
            u64::MAX
        },
{
    now.saturating_add(ms)
}

/// Whether a sleep that ends at `target` is over at `now`.
pub fn sleep_over(now: u64, target: u64) -> (r: bool)
    ensures
        r == (now >= target),
{
    now >= target
}

} // verus!
