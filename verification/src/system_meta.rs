//! The per-system accumulator that registration writes into: the system's
//! display name, its accumulated footprint in both coordinate systems, the
//! change tick of its previous run, and whether it is pinned to the
//! designated execution context.

use crate::access::{Access, FilteredAccessSet};
use vstd::prelude::*;

verus! {

/// Metadata of one registered system.
#[derive(Debug)]
pub struct SystemMeta {
    /// Display name, used in diagnostics.
    pub name: String,
    /// Fine-grained footprint: logical component identifiers with filter
    /// context.
    pub component_access_set: FilteredAccessSet,
    /// Coarse footprint: storage-location identifiers; what the scheduler
    /// consults for parallelism.
    pub archetype_component_access: Access,
    /// The global change tick the system saw on its previous run.
    pub last_change_tick: u32,
    /// False once any parameter touches a non-shareable resource: the
    /// executor must then keep the system on the designated context.
    pub is_send: bool,
}

impl SystemMeta {
    pub open spec fn inv(self) -> bool {
        self.component_access_set.inv() && self.archetype_component_access.inv()
    }

    pub fn new(name: String) -> (r: SystemMeta)
        ensures
            r.inv(),
            r.name@ == name@,
            r.component_access_set.combined_access.sp_is_empty(),
            r.component_access_set.combined_access.reads@.len() == 0,
            r.component_access_set.combined_access.writes@.len() == 0,
            !r.component_access_set.combined_access.reads_all,
            !r.component_access_set.combined_access.writes_all,
            r.component_access_set.filtered_accesses@.len() == 0,
            r.archetype_component_access.sp_is_empty(),
            r.archetype_component_access.reads@.len() == 0,
            r.archetype_component_access.writes@.len() == 0,
            !r.archetype_component_access.reads_all,
            !r.archetype_component_access.writes_all,
            r.last_change_tick == 0,
            r.is_send,
    {
        SystemMeta {
            name,
            component_access_set: FilteredAccessSet::new(),
            archetype_component_access: Access::new(),
            last_change_tick: 0,
            is_send: true,
        }
    }

    /// Pins the system to the designated execution context.
    pub fn set_non_send(&mut self)
        ensures
            *final(self) == (SystemMeta { is_send: false, ..*old(self) }),
    {
        self.is_send = false;
    }

    /// Whether the system may run on any thread.
    pub fn is_send(&self) -> (r: bool)
        ensures
            r == self.is_send,
    {
        self.is_send
    }

    /// Remembers the change tick of the run that just finished.
    pub fn set_last_change_tick(&mut self, tick: u32)
        ensures
            *final(self) == (SystemMeta { last_change_tick: tick, ..*old(self) }),
    {
        self.last_change_tick = tick;
    }
}

} // verus!
