//! The values a system receives for its parameters: timestamped views of
//! resource slots, the command queue handle, per-system local state, and the
//! small informational parameters.
//!
//! A handle is built fresh on every invocation and never outlives it. A
//! read handle may coexist with other read handles of the same slot; an
//! exclusive handle must be the only live access to its slot — which the
//! registration-time conflict check guarantees, not a runtime lock.

use crate::tick::{tick_newer_than, ComponentTicks, Tick};
use crate::world::Entity;
use vstd::prelude::*;

verus! {

/// The change-detection context a handle carries: the slot's own two ticks
/// plus the observing system's window.
#[derive(Clone, Copy, PartialEq, Eq, Structural, Debug)]
pub struct Ticks {
    pub added: Tick,
    pub changed: Tick,
    pub last_change_tick: u32,
    pub change_tick: u32,
}

/// Shared borrow of a resource slot: its value at fetch time and the ticks
/// needed to answer "did this change since I last ran".
#[derive(PartialEq, Eq, Structural, Debug)]
pub struct Res {
    pub value: u64,
    pub added: Tick,
    pub changed: Tick,
    pub last_change_tick: u32,
    pub change_tick: u32,
}

impl Res {
    pub fn clone(this: &Res) -> (r: Res)
        ensures
            r == *this,
    {
        Res {
            value: this.value,
            added: this.added,
            changed: this.changed,
            last_change_tick: this.last_change_tick,
            change_tick: this.change_tick,
        }
    }

    /// True when the slot was added after the system last ran.
    pub fn is_added(&self) -> (r: bool)
        ensures
            r == tick_newer_than(self.added.tick, self.last_change_tick, self.change_tick),
    {
        self.added.is_older_than(self.last_change_tick, self.change_tick)
    }

    /// True when the slot was added or written after the system last ran.
    pub fn is_changed(&self) -> (r: bool)
        ensures
            r == tick_newer_than(self.changed.tick, self.last_change_tick, self.change_tick),
    {
        self.changed.is_older_than(self.last_change_tick, self.change_tick)
    }

    pub fn into_inner(self) -> (r: u64)
        ensures
            r == self.value,
    {
        self.value
    }
}

/// Exclusive borrow of a resource slot. Writing through it stamps the
/// current change tick; the new value is committed back to the store by the
/// invocation's explicit write-back step.
#[derive(PartialEq, Eq, Structural, Debug)]
pub struct ResMut {
    pub value: u64,
    pub ticks: Ticks,
}

impl ResMut {
    /// True when the slot was added after the system last ran.
    pub fn is_added(&self) -> (r: bool)
        ensures
            r == tick_newer_than(
                self.ticks.added.tick,
                self.ticks.last_change_tick,
                self.ticks.change_tick,
            ),
    {
        self.ticks.added.is_older_than(self.ticks.last_change_tick, self.ticks.change_tick)
    }

    /// True when the slot was added or written after the system last ran.
    pub fn is_changed(&self) -> (r: bool)
        ensures
            r == tick_newer_than(
                self.ticks.changed.tick,
                self.ticks.last_change_tick,
                self.ticks.change_tick,
            ),
    {
        self.ticks.changed.is_older_than(self.ticks.last_change_tick, self.ticks.change_tick)
    }

    /// Overwrites the value and stamps the slot as changed now.
    pub fn set(&mut self, value: u64)
        ensures
            final(self).value == value,
            final(self).ticks.added == old(self).ticks.added,
            final(self).ticks.changed.tick == old(self).ticks.change_tick,
            final(self).ticks.last_change_tick == old(self).ticks.last_change_tick,
            final(self).ticks.change_tick == old(self).ticks.change_tick,
    {
        self.value = value;
        self.ticks.changed = Tick::new(self.ticks.change_tick);
    }
}

impl From<ResMut> for Res {
    /// Downgrades an exclusive handle to a read handle; the value, both
    /// slot ticks and the observation window carry over exactly.
    fn from(res: ResMut) -> (r: Res)
        ensures
            r.value == res.value,
            r.added == res.ticks.added,
            r.changed == res.ticks.changed,
            r.last_change_tick == res.ticks.last_change_tick,
            r.change_tick == res.ticks.change_tick,
    {
        Res {
            value: res.value,
            added: res.ticks.added,
            changed: res.ticks.changed,
            last_change_tick: res.ticks.last_change_tick,
            change_tick: res.ticks.change_tick,
        }
    }
}

impl vstd::std_specs::convert::FromSpecImpl<ResMut> for Res {
    open spec fn obeys_from_spec() -> bool {
        true
    }

    open spec fn from_spec(res: ResMut) -> Res {
        Res {
            value: res.value,
            added: res.ticks.added,
            changed: res.ticks.changed,
            last_change_tick: res.ticks.last_change_tick,
            change_tick: res.ticks.change_tick,
        }
    }
}

/// Shared borrow of a non-shareable resource slot; only handed to systems
/// pinned to the designated execution context.
#[derive(PartialEq, Eq, Structural, Debug)]
pub struct NonSend {
    pub value: u64,
    pub ticks: ComponentTicks,
    pub last_change_tick: u32,
    pub change_tick: u32,
}

impl NonSend {
    /// True when the slot was added after the system last ran.
    pub fn is_added(&self) -> (r: bool)
        ensures
            r == tick_newer_than(self.ticks.added.tick, self.last_change_tick, self.change_tick),
    {
        self.ticks.is_added(self.last_change_tick, self.change_tick)
    }

    /// True when the slot was added or written after the system last ran.
    pub fn is_changed(&self) -> (r: bool)
        ensures
            r == tick_newer_than(self.ticks.changed.tick, self.last_change_tick, self.change_tick),
    {
        self.ticks.is_changed(self.last_change_tick, self.change_tick)
    }
}

/// Exclusive borrow of a non-shareable resource slot.
#[derive(PartialEq, Eq, Structural, Debug)]
pub struct NonSendMut {
    pub value: u64,
    pub ticks: Ticks,
}

impl NonSendMut {
    /// Overwrites the value and stamps the slot as changed now.
    pub fn set(&mut self, value: u64)
        ensures
            final(self).value == value,
            final(self).ticks.added == old(self).ticks.added,
            final(self).ticks.changed.tick == old(self).ticks.change_tick,
            final(self).ticks.last_change_tick == old(self).ticks.last_change_tick,
            final(self).ticks.change_tick == old(self).ticks.change_tick,
    {
        self.value = value;
        self.ticks.changed = Tick::new(self.ticks.change_tick);
    }
}

impl From<NonSendMut> for NonSend {
    /// Downgrades an exclusive handle to a read handle, preserving the
    /// value and every tick.
    fn from(nsm: NonSendMut) -> (r: NonSend)
        ensures
            r.value == nsm.value,
            r.ticks.added == nsm.ticks.added,
            r.ticks.changed == nsm.ticks.changed,
            r.last_change_tick == nsm.ticks.last_change_tick,
            r.change_tick == nsm.ticks.change_tick,
    {
        NonSend {
            value: nsm.value,
            ticks: ComponentTicks { added: nsm.ticks.added, changed: nsm.ticks.changed },
            last_change_tick: nsm.ticks.last_change_tick,
            change_tick: nsm.ticks.change_tick,
        }
    }
}

impl vstd::std_specs::convert::FromSpecImpl<NonSendMut> for NonSend {
    open spec fn obeys_from_spec() -> bool {
        true
    }

    open spec fn from_spec(nsm: NonSendMut) -> NonSend {
        NonSend {
            value: nsm.value,
            ticks: ComponentTicks { added: nsm.ticks.added, changed: nsm.ticks.changed },
            last_change_tick: nsm.ticks.last_change_tick,
            change_tick: nsm.ticks.change_tick,
        }
    }
}

/// Per-system private state: owned by one parameter of one system,
/// initialized once at build time, persisted across that system's
/// invocations, invisible to every other system.
#[derive(Clone, Copy, PartialEq, Eq, Structural, Debug)]
pub struct Local {
    pub value: u64,
}

impl Local {
    pub fn get(&self) -> (r: u64)
        ensures
            r == self.value,
    {
        self.value
    }

    pub fn set(&mut self, value: u64)
        ensures
            final(self).value == value,
    {
        self.value = value;
    }
}

/// The entities whose instance of one logical component was removed since
/// the store's records were last cleared, as seen at fetch time.
#[derive(Debug)]
pub struct RemovedComponents {
    pub entities: Vec<Entity>,
}

impl RemovedComponents {
    /// The removed entities, in the order the store recorded them.
    pub fn iter(&self) -> (r: Vec<Entity>)
        ensures
            r@ == self.entities@,
    {
        let mut r: Vec<Entity> = Vec::new();
        let mut i: usize = 0;
        while i < self.entities.len()
            invariant
                i <= self.entities@.len(),
                r@ == self.entities@.take(i as int),
            decreases self.entities@.len() - i,
        {
            r.push(self.entities[i]);
            proof {
                assert(r@ =~= self.entities@.take(i + 1));
            }
            i += 1;
        }
        proof {
            assert(self.entities@.take(self.entities@.len() as int) == self.entities@);
        }
        r
    }
}

/// One deferred mutation of the store.
#[derive(Clone, Copy, PartialEq, Eq, Structural, Debug)]
pub enum Command {
    InsertResource { component_id: usize, value: u64 },
    RemoveResource { component_id: usize },
}

/// The deferred-effect buffer: mutations recorded during an invocation, to
/// be applied against the store in order at the end of the stage and then
/// cleared.
#[derive(Debug)]
pub struct Commands {
    pub queue: Vec<Command>,
}

impl Commands {
    pub fn new() -> (r: Commands)
        ensures
            r.queue@.len() == 0,
    {
        Commands { queue: Vec::new() }
    }

    /// Queues writing `value` into slot `component_id`.
    pub fn insert_resource(&mut self, component_id: usize, value: u64)
        ensures
            final(self).queue@ == old(self).queue@.push(
                Command::InsertResource { component_id, value },
            ),
    {
        self.queue.push(Command::InsertResource { component_id, value });
    }

    /// Queues emptying slot `component_id`.
    pub fn remove_resource(&mut self, component_id: usize)
        ensures
            final(self).queue@ == old(self).queue@.push(
                Command::RemoveResource { component_id },
            ),
    {
        self.queue.push(Command::RemoveResource { component_id });
    }
}

/// The system's change-detection window, as a parameter of its own.
#[derive(Clone, Copy, PartialEq, Eq, Structural, Debug)]
pub struct SystemChangeTick {
    pub last_change_tick: u32,
    pub change_tick: u32,
}

impl SystemChangeTick {
    /// The current global change tick the system sees.
    pub fn change_tick(&self) -> (r: u32)
        ensures
            r == self.change_tick,
    {
        self.change_tick
    }

    /// The global change tick the system saw on its previous run.
    pub fn last_change_tick(&self) -> (r: u32)
        ensures
            r == self.last_change_tick,
    {
        self.last_change_tick
    }
}

/// The system's own display name, for diagnostics from inside the system.
#[derive(Debug)]
pub struct SystemName {
    pub name: String,
}

impl SystemName {
    pub fn name(&self) -> (r: &str)
        ensures
            r@ == self.name@,
    {
        self.name.as_str()
    }
}

} // verus!
