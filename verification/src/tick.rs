//! Change timestamps ("ticks") and the wraparound-safe comparison that
//! change detection is built on.
//!
//! The store keeps one global `u32` counter that advances on every mutation
//! pass. Each resource slot remembers the counter value at which it was
//! added and at which it was last written. A system asks "was this slot
//! touched since I last ran" by comparing those remembered values against
//! its own `last_change_tick` and the current `change_tick`. Because the
//! counter wraps around, the comparison works on clamped distances measured
//! backwards from `change_tick` rather than on the raw values.

use vstd::prelude::*;

verus! {

/// Modulus of the `u32` tick counter.
pub const TICK_MODULUS: u64 = 0x1_0000_0000;

/// How often the housekeeping step is expected to re-clamp old ticks.
pub const CHECK_TICK_THRESHOLD: u32 = 518_400_000;

/// The largest distance from the current `change_tick` that is still
/// meaningful; ages are clamped to it so that ticks that were never
/// re-clamped by housekeeping cannot appear spuriously fresh after the
/// counter wraps.
pub const MAX_CHANGE_AGE: u32 = u32::MAX - (2 * CHECK_TICK_THRESHOLD - 1);

/// Distance from `b` up to `a` on the wrapping `u32` circle.
pub open spec fn wrapping_distance(a: u32, b: u32) -> int {
    if a >= b {
        a - b
    } else {
        a - b + TICK_MODULUS
    }
}

/// `a + k` on the wrapping `u32` circle.
pub open spec fn wrapping_bump(a: u32, k: u32) -> u32 {
    if a + k > u32::MAX {
        (a + k - TICK_MODULUS) as u32
    } else {
        (a + k) as u32
    }
}

/// Age of tick `t`, measured backwards from `change_tick` and clamped to
/// `MAX_CHANGE_AGE`.
pub open spec fn tick_age(change_tick: u32, t: u32) -> int {
    if wrapping_distance(change_tick, t) <= MAX_CHANGE_AGE {
        wrapping_distance(change_tick, t)
    } else {
        MAX_CHANGE_AGE as int
    }
}

/// True when tick `t` happened after the system last ran: `t` is younger
/// (closer to `change_tick`) than `last_change_tick` is.
pub open spec fn tick_newer_than(t: u32, last_change_tick: u32, change_tick: u32) -> bool {
    tick_age(change_tick, t) < tick_age(change_tick, last_change_tick)
}

/// A value of the global change counter.
#[derive(Clone, Copy, PartialEq, Eq, Structural, Debug)]
pub struct Tick {
    pub tick: u32,
}

impl Tick {
    pub fn new(tick: u32) -> (r: Tick)
        ensures
            r.tick == tick,
    {
        Tick { tick }
    }

    /// Whether this tick lies strictly between the system's previous run and
    /// the current `change_tick`; the clamped-distance comparison stays
    /// correct when the counter has wrapped in between.
    pub fn is_older_than(&self, last_change_tick: u32, change_tick: u32) -> (r: bool)
        ensures
            r == tick_newer_than(self.tick, last_change_tick, change_tick),
    {
        let ticks_since_insert = min_u32(change_tick.wrapping_sub(self.tick), MAX_CHANGE_AGE);
        let ticks_since_system = min_u32(
            change_tick.wrapping_sub(last_change_tick),
            MAX_CHANGE_AGE,
        );
        ticks_since_system > ticks_since_insert
    }
}

/// The two remembered counter values of one resource slot.
#[derive(Clone, Copy, PartialEq, Eq, Structural, Debug)]
pub struct ComponentTicks {
    pub added: Tick,
    pub changed: Tick,
}

impl ComponentTicks {
    /// Whether the slot was added after the system last ran.
    pub fn is_added(&self, last_change_tick: u32, change_tick: u32) -> (r: bool)
        ensures
            r == tick_newer_than(self.added.tick, last_change_tick, change_tick),
    {
        self.added.is_older_than(last_change_tick, change_tick)
    }

    /// Whether the slot was added or written after the system last ran.
    pub fn is_changed(&self, last_change_tick: u32, change_tick: u32) -> (r: bool)
        ensures
            r == tick_newer_than(self.changed.tick, last_change_tick, change_tick),
    {
        self.changed.is_older_than(last_change_tick, change_tick)
    }
}

fn min_u32(a: u32, b: u32) -> (r: u32)
    ensures
        r == if a <= b {
            a as int
        } else {
            b as int
        },
{
    if a <= b {
        a
    } else {
        b
    }
}

/// A tick that sits `k` steps after `last_change_tick` on the way towards
/// `change_tick` is reported as changed exactly when `k >= 1`: the tick equal
/// to `last_change_tick` itself is not news, every strictly later one is.
pub proof fn lemma_change_detection_window(last_change_tick: u32, change_tick: u32, k: u32)
    requires
        k <= wrapping_distance(change_tick, last_change_tick),
        wrapping_distance(change_tick, last_change_tick) <= MAX_CHANGE_AGE,
    ensures
        k == 0 ==> !tick_newer_than(
            wrapping_bump(last_change_tick, k),
            last_change_tick,
            change_tick,
        ),
        k >= 1 ==> tick_newer_than(
            wrapping_bump(last_change_tick, k),
            last_change_tick,
            change_tick,
        ),
{
    let t = wrapping_bump(last_change_tick, k);
    assert(wrapping_distance(change_tick, t) == wrapping_distance(change_tick, last_change_tick)
        - k);
}

/// A tick at least as old as `last_change_tick` is never reported as
/// changed, whether or not its distance exceeds the detection window.
pub proof fn lemma_old_tick_not_detected(t: u32, last_change_tick: u32, change_tick: u32)
    requires
        wrapping_distance(change_tick, t) >= wrapping_distance(change_tick, last_change_tick),
    ensures
        !tick_newer_than(t, last_change_tick, change_tick),
{
}

} // verus!
