//! A model of the shared data store that systems draw their parameters
//! from: a registry of resource slots keyed by an explicit type tag, the
//! slots' current values with their change metadata, the per-slot records of
//! removed entities, and the global change counter.
//!
//! Each slot is a singleton: registering the same tag twice yields the same
//! slot identifier. Every slot also owns a distinct storage-location
//! identifier (its "archetype component id"), the coarse coordinate the
//! scheduler keys its overlap reasoning on.

use crate::tick::{ComponentTicks, Tick};
use vstd::prelude::*;

verus! {

/// Identifier of a resource slot: its index in the registry.
pub type ComponentId = usize;

/// Identifier of a row owner in the store.
pub type Entity = u64;

/// A slot's current value and the ticks at which it was added and last
/// written.
#[derive(Clone, Copy, PartialEq, Eq, Structural, Debug)]
pub struct ResourceSlot {
    pub value: u64,
    pub ticks: ComponentTicks,
}

/// Registration record of one slot.
#[derive(Debug)]
pub struct ResourceInfo {
    /// Explicit type tag; at most one slot per tag.
    pub tag: u64,
    /// Display name, used in diagnostics.
    pub name: String,
    /// Whether the value may only be touched from the designated execution
    /// context.
    pub non_send: bool,
    /// The slot's storage-location identifier.
    pub archetype_component_id: usize,
}

/// Descriptor of one data shape of the store: which logical components its
/// rows hold, and the storage-location identifier of each column.
#[derive(Debug)]
pub struct Archetype {
    pub components: Vec<usize>,
    pub archetype_component_ids: Vec<usize>,
}

impl Archetype {
    pub open spec fn inv(self) -> bool {
        self.components@.len() == self.archetype_component_ids@.len()
    }
}

/// The store: slot registry, live values, removed-entity records, and the
/// global change counter.
#[derive(Debug)]
pub struct World {
    pub infos: Vec<ResourceInfo>,
    pub slots: Vec<Option<ResourceSlot>>,
    pub removed: Vec<Vec<Entity>>,
    pub next_archetype_component_id: usize,
    pub change_tick: u32,
}

fn clone_entities(src: &Vec<u64>) -> (r: Vec<u64>)
    ensures
        r@ == src@,
{
    let mut r: Vec<u64> = Vec::new();
    let mut i: usize = 0;
    while i < src.len()
        invariant
            i <= src@.len(),
            r@ == src@.take(i as int),
        decreases src@.len() - i,
    {
        r.push(src[i]);
        proof {
            assert(r@ =~= src@.take(i + 1));
        }
        i += 1;
    }
    proof {
        assert(src@.take(src@.len() as int) == src@);
    }
    r
}

impl World {
    pub open spec fn n_resources(self) -> int {
        self.infos@.len() as int
    }

    /// Some slot is registered under `tag`.
    pub open spec fn sp_tag_registered(self, tag: u64) -> bool {
        exists|j: int| 0 <= j < self.infos@.len() && (#[trigger] self.infos@[j]).tag == tag
    }

    /// Registry well-formedness: parallel columns line up, tags are unique,
    /// and storage-location identifiers are distinct and below the counter.
    pub open spec fn inv(self) -> bool {
        &&& self.slots@.len() == self.infos@.len()
        &&& self.removed@.len() == self.infos@.len()
        &&& forall|i: int, j: int|
            0 <= i < j < self.infos@.len() ==> (#[trigger] self.infos@[i]).tag != (
            #[trigger] self.infos@[j]).tag
        &&& forall|i: int|
            0 <= i < self.infos@.len() ==> (#[trigger] self.infos@[i]).archetype_component_id
                < self.next_archetype_component_id
        &&& forall|i: int, j: int|
            0 <= i < j < self.infos@.len() ==> (#[trigger] self.infos@[i]).archetype_component_id
                != (#[trigger] self.infos@[j]).archetype_component_id
    }

    pub fn new() -> (r: World)
        ensures
            r.inv(),
            r.n_resources() == 0,
            r.change_tick == 0,
            r.next_archetype_component_id == 0,
    {
        World {
            infos: Vec::new(),
            slots: Vec::new(),
            removed: Vec::new(),
            next_archetype_component_id: 0,
            change_tick: 0,
        }
    }

    /// Looks a tag up in the registry.
    fn find_resource(&self, tag: u64) -> (r: Option<usize>)
        ensures
            match r {
                Some(id) => 0 <= id < self.infos@.len() && self.infos@[id as int].tag == tag,
                None => !self.sp_tag_registered(tag),
            },
    {
        let mut i: usize = 0;
        while i < self.infos.len()
            invariant
                i <= self.infos@.len(),
                forall|j: int| 0 <= j < i ==> (#[trigger] self.infos@[j]).tag != tag,
            decreases self.infos@.len() - i,
        {
            if self.infos[i].tag == tag {
                return Some(i);
            }
            i += 1;
        }
        None
    }

    fn init_resource_inner(&mut self, tag: u64, name: String, non_send: bool) -> (id: usize)
        requires
            old(self).inv(),
            old(self).next_archetype_component_id < usize::MAX,
        ensures
            final(self).inv(),
            id < final(self).n_resources(),
            final(self).infos@[id as int].tag == tag,
            final(self).sp_tag_registered(tag),
            final(self).slots@ == old(self).slots@ || final(self).slots@ == old(self).slots@.push(None::<ResourceSlot>),
            final(self).removed@.len() == final(self).infos@.len(),
            final(self).change_tick == old(self).change_tick,
            old(self).sp_tag_registered(tag) ==> (*final(self) == *old(self) && old(self).infos@[id as int].tag == tag),
            !old(self).sp_tag_registered(tag) ==> (id == old(self).n_resources() && final(self).infos@ == old(self).infos@.push(
                ResourceInfo {
                    tag,
                    name,
                    non_send,
                    archetype_component_id: old(self).next_archetype_component_id,
                },
            ) && final(self).slots@ == old(self).slots@.push(None::<ResourceSlot>) && final(self).removed@.len() == old(self).removed@.len() + 1 && final(self).removed@[id as int]@.len() == 0 && (forall|j: int|
                0 <= j < old(self).removed@.len() ==> (#[trigger] final(self).removed@[j])@ == old(
                    self,
                ).removed@[j]@) && final(self).next_archetype_component_id == old(
                self,
            ).next_archetype_component_id + 1),
    {
        match self.find_resource(tag) {
            Some(id) => id,
            None => {
                let id = self.infos.len();
                let archetype_component_id = self.next_archetype_component_id;
                self.infos.push(ResourceInfo { tag, name, non_send, archetype_component_id });
                self.slots.push(None);
                let empty: Vec<u64> = Vec::new();
                self.removed.push(empty);
                self.next_archetype_component_id = archetype_component_id + 1;
                proof {
                    assert(self.infos@[id as int].tag == tag);
                    assert forall|i: int, j: int|
                        0 <= i < j < self.infos@.len() implies (#[trigger] self.infos@[i]).tag != (
                    #[trigger] self.infos@[j]).tag by {
                        if j == old(self).infos@.len() {
                            assert(self.infos@[j].tag == tag);
                            assert(old(self).infos@[i].tag != tag);
                        }
                    }
                    assert forall|i: int, j: int|
                        0 <= i < j < self.infos@.len() implies (
                    #[trigger] self.infos@[i]).archetype_component_id != (
                    #[trigger] self.infos@[j]).archetype_component_id by {
                        if j == old(self).infos@.len() {
                            assert(old(self).infos@[i].archetype_component_id
                                < old(self).next_archetype_component_id);
                        }
                    }
                }
                id
            },
        }
    }

    /// Resolves or creates the slot for `tag`, to be touched from any
    /// execution context.
    pub fn initialize_resource(&mut self, tag: u64, name: String) -> (id: usize)
        requires
            old(self).inv(),
            old(self).next_archetype_component_id < usize::MAX,
        ensures
            final(self).inv(),
            id < final(self).n_resources(),
            final(self).infos@[id as int].tag == tag,
            final(self).sp_tag_registered(tag),
            final(self).slots@ == old(self).slots@ || final(self).slots@ == old(self).slots@.push(None::<ResourceSlot>),
            final(self).change_tick == old(self).change_tick,
            final(self).removed@.len() == final(self).infos@.len(),
            forall|j: int|
                0 <= j < old(self).removed@.len() ==> (#[trigger] final(self).removed@[j])@ == old(
                    self,
                ).removed@[j]@,
            final(self).next_archetype_component_id <= old(self).next_archetype_component_id + 1,
            old(self).next_archetype_component_id <= final(self).next_archetype_component_id,
            old(self).n_resources() <= final(self).n_resources(),
            old(self).sp_tag_registered(tag) ==> *final(self) == *old(self),
            !old(self).sp_tag_registered(tag) ==> final(self).removed@[id as int]@.len() == 0,
            !old(self).sp_tag_registered(tag) ==> (id == old(self).n_resources() && final(self).infos@ == old(self).infos@.push(
                ResourceInfo {
                    tag,
                    name,
                    non_send: false,
                    archetype_component_id: old(self).next_archetype_component_id,
                },
            )),
    {
        self.init_resource_inner(tag, name, false)
    }

    /// Resolves or creates the slot for `tag`, pinned to the designated
    /// execution context.
    pub fn initialize_non_send_resource(&mut self, tag: u64, name: String) -> (id: usize)
        requires
            old(self).inv(),
            old(self).next_archetype_component_id < usize::MAX,
        ensures
            final(self).inv(),
            id < final(self).n_resources(),
            final(self).infos@[id as int].tag == tag,
            final(self).sp_tag_registered(tag),
            final(self).slots@ == old(self).slots@ || final(self).slots@ == old(self).slots@.push(None::<ResourceSlot>),
            final(self).change_tick == old(self).change_tick,
            final(self).removed@.len() == final(self).infos@.len(),
            forall|j: int|
                0 <= j < old(self).removed@.len() ==> (#[trigger] final(self).removed@[j])@ == old(
                    self,
                ).removed@[j]@,
            final(self).next_archetype_component_id <= old(self).next_archetype_component_id + 1,
            old(self).next_archetype_component_id <= final(self).next_archetype_component_id,
            old(self).n_resources() <= final(self).n_resources(),
            old(self).sp_tag_registered(tag) ==> *final(self) == *old(self),
            !old(self).sp_tag_registered(tag) ==> final(self).removed@[id as int]@.len() == 0,
            !old(self).sp_tag_registered(tag) ==> (id == old(self).n_resources() && final(self).infos@ == old(self).infos@.push(
                ResourceInfo {
                    tag,
                    name,
                    non_send: true,
                    archetype_component_id: old(self).next_archetype_component_id,
                },
            )),
    {
        self.init_resource_inner(tag, name, true)
    }

    /// Registers the logical component `tag` without giving it a value
    /// slot's worth of data; removed-entity records are kept per component.
    pub fn init_component(&mut self, tag: u64, name: String) -> (id: usize)
        requires
            old(self).inv(),
            old(self).next_archetype_component_id < usize::MAX,
        ensures
            final(self).inv(),
            id < final(self).n_resources(),
            final(self).infos@[id as int].tag == tag,
            final(self).change_tick == old(self).change_tick,
            !old(self).sp_tag_registered(tag) ==> final(self).removed@[id as int]@.len() == 0,
            final(self).removed@.len() == final(self).infos@.len(),
            final(self).slots@ == old(self).slots@ || final(self).slots@ == old(self).slots@.push(
                None::<ResourceSlot>,
            ),
            forall|j: int|
                0 <= j < old(self).removed@.len() ==> (#[trigger] final(self).removed@[j])@ == old(
                    self,
                ).removed@[j]@,
            forall|j: int|
                0 <= j < old(self).n_resources() ==> final(self).infos@[j] == old(self).infos@[j],
            old(self).n_resources() <= final(self).n_resources(),
            final(self).next_archetype_component_id <= old(self).next_archetype_component_id + 1,
            old(self).next_archetype_component_id <= final(self).next_archetype_component_id,
            old(self).sp_tag_registered(tag) ==> *final(self) == *old(self),
    {
        self.init_resource_inner(tag, name, false)
    }

    /// The display name of a slot, for diagnostics.
    pub fn resource_name(&self, id: usize) -> (r: String)
        requires
            id < self.n_resources(),
        ensures
            r@ == self.infos@[id as int].name@,
    {
        self.infos[id].name.clone()
    }

    /// The storage-location identifier of a slot.
    pub fn get_resource_archetype_component_id(&self, id: usize) -> (r: usize)
        requires
            id < self.n_resources(),
        ensures
            r == self.infos@[id as int].archetype_component_id,
    {
        self.infos[id].archetype_component_id
    }

    /// Whether the slot is pinned to the designated execution context.
    pub fn is_non_send(&self, id: usize) -> (r: bool)
        requires
            id < self.n_resources(),
        ensures
            r == self.infos@[id as int].non_send,
    {
        self.infos[id].non_send
    }

    /// The current global change counter.
    pub fn read_change_tick(&self) -> (r: u32)
        ensures
            r == self.change_tick,
    {
        self.change_tick
    }

    /// Advances the global change counter, wrapping around at the top.
    pub fn increment_change_tick(&mut self)
        ensures
            final(self).change_tick == crate::tick::wrapping_bump(old(self).change_tick, 1),
            final(self).infos@ == old(self).infos@,
            final(self).slots@ == old(self).slots@,
            final(self).removed@ == old(self).removed@,
            final(self).next_archetype_component_id == old(self).next_archetype_component_id,
            old(self).inv() ==> final(self).inv(),
    {
        self.change_tick = self.change_tick.wrapping_add(1);
    }

    /// A slot's current value and ticks, or nothing when it was never
    /// inserted (or was removed).
    pub fn get_resource_with_ticks(&self, id: usize) -> (r: Option<(u64, Tick, Tick)>)
        requires
            self.inv(),
            id < self.n_resources(),
        ensures
            match r {
                Some(v) => self.slots@[id as int] matches Some(slot) && v.0 == slot.value && v.1
                    == slot.ticks.added && v.2 == slot.ticks.changed,
                None => self.slots@[id as int] is None,
            },
    {
        match &self.slots[id] {
            Some(slot) => Some((slot.value, slot.ticks.added, slot.ticks.changed)),
            None => None,
        }
    }

    /// Writes `value` into the slot at the current change tick. A slot that
    /// held no value gets a fresh `added` tick; one that did keeps it.
    pub fn insert_resource(&mut self, id: usize, value: u64)
        requires
            old(self).inv(),
            id < old(self).n_resources(),
        ensures
            final(self).inv(),
            final(self).infos@ == old(self).infos@,
            final(self).removed@ == old(self).removed@,
            final(self).change_tick == old(self).change_tick,
            final(self).next_archetype_component_id == old(self).next_archetype_component_id,
            final(self).slots@ == old(self).slots@.update(
                id as int,
                Some(
                    ResourceSlot {
                        value,
                        ticks: ComponentTicks {
                            added: match old(self).slots@[id as int] {
                                Some(slot) => slot.ticks.added,
                                None => Tick { tick: old(self).change_tick },
                            },
                            changed: Tick { tick: old(self).change_tick },
                        },
                    },
                ),
            ),
    {
        let tick = Tick::new(self.change_tick);
        let added = match &self.slots[id] {
            Some(slot) => slot.ticks.added,
            None => tick,
        };
        self.slots.set(
            id,
            Some(ResourceSlot { value, ticks: ComponentTicks { added, changed: tick } }),
        );
    }

    /// Empties the slot, handing back the value it held.
    pub fn remove_resource(&mut self, id: usize) -> (r: Option<u64>)
        requires
            old(self).inv(),
            id < old(self).n_resources(),
        ensures
            final(self).inv(),
            final(self).infos@ == old(self).infos@,
            final(self).removed@ == old(self).removed@,
            final(self).change_tick == old(self).change_tick,
            final(self).next_archetype_component_id == old(self).next_archetype_component_id,
            final(self).slots@ == old(self).slots@.update(id as int, None::<ResourceSlot>),
            match r {
                Some(v) => old(self).slots@[id as int] matches Some(slot) && slot.value == v,
                None => old(self).slots@[id as int] is None,
            },
    {
        let r = match &self.slots[id] {
            Some(slot) => Some(slot.value),
            None => None,
        };
        self.slots.set(id, None);
        r
    }

    /// The entities whose instance of component `id` was removed since the
    /// records were last cleared.
    pub fn removed_with_id(&self, id: usize) -> (r: Vec<Entity>)
        requires
            self.inv(),
            id < self.n_resources(),
        ensures
            r@ == self.removed@[id as int]@,
    {
        clone_entities(&self.removed[id])
    }

    /// Appends `entity` to the removed-entity record of component `id`;
    /// the store's housekeeping calls this when a component is taken off an
    /// entity.
    pub fn record_component_removed(&mut self, id: usize, entity: Entity)
        requires
            old(self).inv(),
            id < old(self).n_resources(),
        ensures
            final(self).inv(),
            final(self).infos@ == old(self).infos@,
            final(self).slots@ == old(self).slots@,
            final(self).change_tick == old(self).change_tick,
            final(self).removed@.len() == old(self).removed@.len(),
            final(self).removed@[id as int]@ == old(self).removed@[id as int]@.push(entity),
            forall|j: int|
                0 <= j < old(self).removed@.len() && j != id ==> (#[trigger] final(self).removed@[j])@ == old(self).removed@[j]@,
    {
        let mut record = clone_entities(&self.removed[id]);
        record.push(entity);
        self.removed.set(id, record);
    }
}

/// Tags identify slots uniquely: two registry entries with one tag are the
/// same entry.
pub proof fn lemma_tag_unique(w: World, a: int, b: int)
    requires
        w.inv(),
        0 <= a < w.n_resources(),
        0 <= b < w.n_resources(),
        w.infos@[a].tag == w.infos@[b].tag,
    ensures
        a == b,
{
    if a < b {
        assert((#[trigger] w.infos@[a]).tag != (#[trigger] w.infos@[b]).tag);
    } else if b < a {
        assert((#[trigger] w.infos@[b]).tag != (#[trigger] w.infos@[a]).tag);
    }
}

/// Storage-location identifiers identify slots uniquely: two registry
/// entries with one archetype component id are the same entry.
pub proof fn lemma_arch_unique(w: World, a: int, b: int)
    requires
        w.inv(),
        0 <= a < w.n_resources(),
        0 <= b < w.n_resources(),
        w.infos@[a].archetype_component_id == w.infos@[b].archetype_component_id,
    ensures
        a == b,
{
    if a < b {
        assert((#[trigger] w.infos@[a]).archetype_component_id != (
        #[trigger] w.infos@[b]).archetype_component_id);
    } else if b < a {
        assert((#[trigger] w.infos@[b]).archetype_component_id != (
        #[trigger] w.infos@[a]).archetype_component_id);
    }
}

} // verus!
