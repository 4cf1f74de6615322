//! The parameter capability protocol: what a system input declares at build
//! time, how the registration-time conflict checker decides whether the
//! declarations of one system may coexist, and how values are produced at
//! invocation time.
//!
//! Parameter kinds form a closed set of variants. Registration runs once
//! per system: each parameter resolves its slot, is checked against the
//! accesses accumulated so far, and then folds its own footprint into the
//! accumulator. Nothing here locks at runtime; the absence of aliased
//! mutation rests entirely on this build-time check.

use crate::access::{Access, FilteredAccess, FilteredAccessSet};
use crate::handles::{
    Command, Commands, Local, NonSend, NonSendMut, RemovedComponents, Res, ResMut,
    SystemChangeTick, SystemName, Ticks,
};
use crate::system_meta::SystemMeta;
use crate::tick::{ComponentTicks, Tick};
use crate::world::{Archetype, ResourceSlot, World};
use vstd::prelude::*;

verus! {

/// One system parameter's declaration.
#[derive(Debug)]
pub enum ParamKind {
    /// Shared handle of the slot registered under `tag` (the optional
    /// variant yields an empty result instead of failing when the slot
    /// holds no value; the non-shareable variant pins the system to the
    /// designated execution context).
    ResourceRead { tag: u64, name: String, optional: bool, non_send: bool },
    /// Exclusive handle of the slot registered under `tag`.
    ResourceWrite { tag: u64, name: String, optional: bool, non_send: bool },
    /// The deferred-effect buffer.
    CommandQueue,
    /// Read-only view of the whole store; conflicts with every mutable
    /// parameter of the system.
    WholeWorld,
    /// Per-system private state, starting from `initial`.
    LocalState { initial: u64 },
    /// The removed-entity record of the logical component under `tag`.
    RemovedRecord { tag: u64, name: String },
    /// A row-scanning parameter whose filtered footprint was computed by
    /// the query machinery; `name` describes it in diagnostics.
    QueryAccess { access: FilteredAccess, name: String },
    /// The system's change-detection window.
    ChangeTick,
    /// The system's display name.
    SystemNameParam,
}

/// A parameter declaration: a single kind, or a disjoint-access
/// multiplexer wrapping several kinds that are expected to conflict with
/// each other.
#[derive(Debug)]
pub enum ParamDecl {
    Single(ParamKind),
    Multiplexer(Vec<ParamKind>),
}

/// The state one parameter keeps across invocations of its system.
#[derive(Debug)]
pub enum ParamState {
    /// The resolved slot identifier.
    SlotId { component_id: usize },
    /// The pending command queue.
    Queue { queue: Vec<Command> },
    /// The persisted local value.
    LocalValue { value: u64 },
    /// The registered filtered footprint of a row-scanning parameter.
    QueryState { access: FilteredAccess },
    /// Nothing to persist.
    NoState,
}

/// The persisted state of one declaration.
#[derive(Debug)]
pub enum ParamStateSlot {
    Single(ParamState),
    Multiplexer(Vec<ParamState>),
}

/// Two parameters of one system declare overlapping mutable access.
/// Registration fails loudly with the system, the offending parameter and
/// the conflicting slots all named.
#[derive(Debug)]
pub struct AccessConflictError {
    /// The system whose build failed.
    pub system_name: String,
    /// The newly declared parameter that clashed.
    pub param_name: String,
    /// The filter context of a row-scanning parameter, empty otherwise.
    pub filter_name: String,
    /// Display names of the slots on which the clash happens.
    pub conflicts: Vec<String>,
}

impl ParamKind {
    /// The slot tag a resource-like declaration speaks of.
    pub open spec fn sp_tag(self) -> u64 {
        match self {
            ParamKind::ResourceRead { tag, .. } => tag,
            ParamKind::ResourceWrite { tag, .. } => tag,
            ParamKind::RemovedRecord { tag, .. } => tag,
            _ => 0,
        }
    }

    /// A plain, unfiltered single-slot resource declaration.
    pub open spec fn sp_is_simple_resource(self) -> bool {
        self matches ParamKind::ResourceRead { .. } || self matches ParamKind::ResourceWrite { .. }
    }

    /// The declaration claims mutable access to its slot.
    pub open spec fn sp_writes(self) -> bool {
        self matches ParamKind::ResourceWrite { .. }
    }

    /// The declaration pins its system to the designated execution context.
    pub open spec fn sp_pins(self) -> bool {
        match self {
            ParamKind::ResourceRead { non_send, .. } => non_send,
            ParamKind::ResourceWrite { non_send, .. } => non_send,
            _ => false,
        }
    }
}

impl ParamKind {
    /// The read-only marker: a kind may only claim it when fetching it can
    /// never produce a handle capable of mutating the store — neither an
    /// exclusive resource handle nor a row-scanning footprint that claims
    /// writes. The scheduler uses it to run all read-only systems of a
    /// stage concurrently.
    pub open spec fn sp_is_read_only(self) -> bool {
        match self {
            ParamKind::ResourceWrite { .. } => false,
            ParamKind::QueryAccess { access, .. } => access.access.writes@.len() == 0
                && !access.access.writes_all,
            _ => true,
        }
    }

    /// Decides [`ParamKind::sp_is_read_only`].
    pub fn is_read_only(&self) -> (r: bool)
        ensures
            r == self.sp_is_read_only(),
    {
        match self {
            ParamKind::ResourceWrite { .. } => false,
            ParamKind::QueryAccess { access, .. } => access.access.writes.len() == 0
                && !access.access.writes_all,
            _ => true,
        }
    }
}

impl ParamDecl {
    /// A declaration is read-only when every kind it wraps is.
    pub open spec fn sp_is_read_only(self) -> bool {
        match self {
            ParamDecl::Single(k) => k.sp_is_read_only(),
            ParamDecl::Multiplexer(ks) => forall|m: int|
                0 <= m < ks@.len() ==> (#[trigger] ks@[m]).sp_is_read_only(),
        }
    }

    /// Decides [`ParamDecl::sp_is_read_only`].
    #[verifier::loop_isolation(false)]
    pub fn is_read_only(&self) -> (r: bool)
        ensures
            r == self.sp_is_read_only(),
    {
        match self {
            ParamDecl::Single(k) => k.is_read_only(),
            ParamDecl::Multiplexer(ks) => {
                let mut m: usize = 0;
                while m < ks.len()
                    invariant
                        m <= ks@.len(),
                        forall|j: int| 0 <= j < m ==> (#[trigger] ks@[j]).sp_is_read_only(),
                    decreases ks@.len() - m,
                {
                    if !ks[m].is_read_only() {
                        proof {
                            assert(!ks@[m as int].sp_is_read_only());
                            assert(!(forall|j: int|
                                0 <= j < ks@.len() ==> (#[trigger] ks@[j]).sp_is_read_only()));
                        }
                        return false;
                    }
                    m += 1;
                }
                true
            },
        }
    }
}

/// The kind registers no access and can never conflict with anything.
pub open spec fn sp_kind_plain(k: ParamKind) -> bool {
    ||| k matches ParamKind::CommandQueue
    ||| k matches ParamKind::LocalState { .. }
    ||| k matches ParamKind::RemovedRecord { .. }
    ||| k matches ParamKind::ChangeTick
    ||| k matches ParamKind::SystemNameParam
}

/// The kind is a shared handle of the slot under `t`.
pub open spec fn sp_kind_reads_slot(k: ParamKind, t: u64) -> bool {
    k matches ParamKind::ResourceRead { tag, .. } && tag == t
}

/// The kind is an exclusive handle of the slot under `t`.
pub open spec fn sp_kind_writes_slot(k: ParamKind, t: u64) -> bool {
    k matches ParamKind::ResourceWrite { tag, .. } && tag == t
}

/// The declaration's footprint is slot-level: a bare resource handle, a
/// whole-store read, a footprint-free kind, or a multiplexer of bare
/// resource handles. Row-scanning footprints are the one kind left out:
/// whether they conflict depends on their filter context, not on slots
/// alone.
pub open spec fn sp_slot_level_decl(d: ParamDecl) -> bool {
    match d {
        ParamDecl::Single(k) => k.sp_is_simple_resource() || k matches ParamKind::WholeWorld
            || sp_kind_plain(k),
        ParamDecl::Multiplexer(ks) => forall|m: int|
            0 <= m < ks@.len() ==> (#[trigger] ks@[m]).sp_is_simple_resource(),
    }
}

/// Every declaration of the list is slot-level.
pub open spec fn sp_slot_level_decls(decls: Seq<ParamDecl>) -> bool {
    forall|i: int| 0 <= i < decls.len() ==> sp_slot_level_decl(#[trigger] decls[i])
}

/// The declaration, or one of its multiplexer members, reads the slot
/// under `t`.
pub open spec fn sp_decl_reads_slot(d: ParamDecl, t: u64) -> bool {
    match d {
        ParamDecl::Single(k) => sp_kind_reads_slot(k, t),
        ParamDecl::Multiplexer(ks) => exists|m: int|
            0 <= m < ks@.len() && sp_kind_reads_slot(#[trigger] ks@[m], t),
    }
}

/// The declaration, or one of its multiplexer members, writes the slot
/// under `t`.
pub open spec fn sp_decl_writes_slot(d: ParamDecl, t: u64) -> bool {
    match d {
        ParamDecl::Single(k) => sp_kind_writes_slot(k, t),
        ParamDecl::Multiplexer(ks) => exists|m: int|
            0 <= m < ks@.len() && sp_kind_writes_slot(#[trigger] ks@[m], t),
    }
}

/// The declaration is the whole-store read.
pub open spec fn sp_decl_whole_world(d: ParamDecl) -> bool {
    d matches ParamDecl::Single(ParamKind::WholeWorld)
}

/// Some declaration among the first `n` is the whole-store read.
pub open spec fn sp_decls_whole_world(decls: Seq<ParamDecl>, n: int) -> bool {
    exists|k: int| 0 <= k < n && sp_decl_whole_world(#[trigger] decls[k])
}

/// Some declaration among the first `n` reads the slot under `t`.
pub open spec fn sp_decls_read_slot(decls: Seq<ParamDecl>, n: int, t: u64) -> bool {
    exists|k: int| 0 <= k < n && sp_decl_reads_slot(#[trigger] decls[k], t)
}

/// Some declaration among the first `n` writes the slot under `t`.
pub open spec fn sp_decls_write_slot(decls: Seq<ParamDecl>, n: int, t: u64) -> bool {
    exists|k: int| 0 <= k < n && sp_decl_writes_slot(#[trigger] decls[k], t)
}

/// Declaration `d` and kind `pk` (standing in another declaration of the
/// same system) claim accesses that may not coexist: one writes a slot the
/// other touches, or one is the whole-store read and the other writes.
pub open spec fn sp_decl_kind_clash(d: ParamDecl, pk: ParamKind) -> bool {
    ||| exists|t: u64|
        #![trigger sp_decl_writes_slot(d, t)]
        sp_decl_writes_slot(d, t) && (sp_kind_reads_slot(pk, t) || sp_kind_writes_slot(pk, t))
    ||| exists|t: u64|
        #![trigger sp_decl_reads_slot(d, t)]
        sp_decl_reads_slot(d, t) && sp_kind_writes_slot(pk, t)
    ||| (sp_decl_whole_world(d) && exists|t: u64| sp_kind_writes_slot(pk, t))
    ||| (pk matches ParamKind::WholeWorld && exists|t: u64| sp_decl_writes_slot(d, t))
}

/// Two declarations of one system claim accesses that may not coexist.
/// Members of one multiplexer never clash with each other, only with
/// other declarations.
pub open spec fn sp_decls_conflict(a: ParamDecl, b: ParamDecl) -> bool {
    match b {
        ParamDecl::Single(k) => sp_decl_kind_clash(a, k),
        ParamDecl::Multiplexer(ks) => exists|m: int|
            0 <= m < ks@.len() && sp_decl_kind_clash(a, #[trigger] ks@[m]),
    }
}

/// Among the first `n` declarations, some two claim accesses that may not
/// coexist.
pub open spec fn sp_has_conflict(decls: Seq<ParamDecl>, n: int) -> bool {
    exists|a: int, b: int|
        0 <= a < b < n && sp_decls_conflict(#[trigger] decls[a], #[trigger] decls[b])
}

/// Kind `pk` is one of the kinds declaration `d` wraps.
pub open spec fn sp_decl_holds_kind(d: ParamDecl, pk: ParamKind) -> bool {
    match d {
        ParamDecl::Single(k) => k == pk,
        ParamDecl::Multiplexer(ks) => exists|m: int| 0 <= m < ks@.len() && ks@[m] == pk,
    }
}

/// The tags of every slot the declaration touches are registered.
pub open spec fn sp_decl_ready(d: ParamDecl, w: World) -> bool {
    match d {
        ParamDecl::Single(k) => sp_kind_ready(k, w),
        ParamDecl::Multiplexer(ks) => forall|m: int|
            0 <= m < ks@.len() ==> sp_kind_ready(#[trigger] ks@[m], w),
    }
}

/// The accumulated fine footprint names no slot the store has not
/// registered.
pub open spec fn sp_meta_in_range(meta: SystemMeta, n: int) -> bool {
    forall|id: usize|
        #[trigger] meta.component_access_set.combined_access.sp_mentions(id) ==> id < n
}

/// The coarse accumulated footprint names only storage locations the
/// store has assigned.
pub open spec fn sp_coarse_in_range(meta: SystemMeta, next: int) -> bool {
    forall|y: usize| #[trigger] meta.archetype_component_access.sp_mentions(y) ==> y < next
}

/// The registry only grew: every slot of `before` is still there,
/// unchanged, and the counter did not move.
pub open spec fn sp_world_extends(after: World, before: World) -> bool {
    &&& after.inv()
    &&& before.n_resources() <= after.n_resources()
    &&& forall|j: int| 0 <= j < before.n_resources() ==> after.infos@[j] == before.infos@[j]
    &&& forall|j: int| 0 <= j < before.n_resources() ==> after.slots@[j] == before.slots@[j]
    &&& forall|j: int|
        0 <= j < before.n_resources() ==> (#[trigger] after.removed@[j])@ == before.removed@[j]@
    &&& after.change_tick == before.change_tick
}

/// Builds the diagnostic list of slot names for a set of conflicting slot
/// identifiers.
fn resolve_conflict_names(ids: &Vec<usize>, world: &World) -> (r: Vec<String>)
    requires
        world.inv(),
        forall|t: int| 0 <= t < ids@.len() ==> (#[trigger] ids@[t]) < world.n_resources(),
    ensures
        r@.len() == ids@.len(),
        forall|t: int|
            0 <= t < ids@.len() ==> (#[trigger] r@[t])@ == world.infos@[ids@[t] as int].name@,
{
    let mut r: Vec<String> = Vec::new();
    let mut t: usize = 0;
    while t < ids.len()
        invariant
            t <= ids@.len(),
            world.inv(),
            forall|u: int| 0 <= u < ids@.len() ==> (#[trigger] ids@[u]) < world.n_resources(),
            r@.len() == t,
            forall|u: int|
                0 <= u < t ==> (#[trigger] r@[u])@ == world.infos@[ids@[u] as int].name@,
        decreases ids@.len() - t,
    {
        r.push(world.resource_name(ids[t]));
        t += 1;
    }
    r
}

/// The registration-time conflict check for a row-scanning parameter:
/// computes the slots on which the system's accumulated footprint clashes
/// with the new parameter's, and succeeds exactly when there are none. On
/// failure the diagnostic names the system, the parameter, its filter and
/// every conflicting slot.
pub fn assert_component_access_compatibility(
    system_name: &String,
    query_name: &String,
    filter_name: &String,
    system_access: &FilteredAccessSet,
    current: &FilteredAccess,
    world: &World,
) -> (r: Result<(), AccessConflictError>)
    requires
        system_access.inv(),
        current.inv(),
        world.inv(),
        forall|id: usize|
            #[trigger] system_access.sp_conflicts_with(*current, id) ==> id < world.n_resources(),
    ensures
        r is Ok <==> (forall|id: usize| !system_access.sp_conflicts_with(*current, id)),
        r matches Err(e) ==> {
            &&& e.system_name@ == system_name@
            &&& e.param_name@ == query_name@
            &&& e.filter_name@ == filter_name@
            &&& e.conflicts@.len() > 0
            &&& forall|t: int|
                0 <= t < e.conflicts@.len() ==> exists|id: usize|
                    #[trigger] system_access.sp_conflicts_with(*current, id) && id
                        < world.n_resources() && (#[trigger] e.conflicts@[t])@ == world.infos@[id as int].name@
            &&& forall|id: usize|
                #[trigger] system_access.sp_conflicts_with(*current, id) ==> exists|t: int|
                    0 <= t < e.conflicts@.len() && (#[trigger] e.conflicts@[t])@ == world.infos@[id as int].name@
        },
{
    let conflicts = system_access.get_conflicts_single(current);
    if conflicts.len() == 0 {
        proof {
            assert forall|id: usize| !system_access.sp_conflicts_with(*current, id) by {
                assert(!conflicts@.contains(id));
            }
        }
        return Ok(());
    }
    proof {
        assert(conflicts@.contains(conflicts@[0]));
        assert forall|t: int| 0 <= t < conflicts@.len() implies (#[trigger] conflicts@[t])
            < world.n_resources() by {
            assert(conflicts@.contains(conflicts@[t]));
            assert(system_access.sp_conflicts_with(*current, conflicts@[t]));
        }
    }
    let names = resolve_conflict_names(&conflicts, world);
    let e = AccessConflictError {
        system_name: system_name.clone(),
        param_name: query_name.clone(),
        filter_name: filter_name.clone(),
        conflicts: names,
    };
    proof {
        assert forall|t: int| 0 <= t < e.conflicts@.len() implies exists|id: usize|
            #[trigger] system_access.sp_conflicts_with(*current, id) && id < world.n_resources()
                && (#[trigger] e.conflicts@[t])@ == world.infos@[id as int].name@ by {
            let id = conflicts@[t];
            assert(conflicts@.contains(id));
            assert(system_access.sp_conflicts_with(*current, id));
            assert(e.conflicts@[t]@ == world.infos@[id as int].name@);
        }
        assert forall|id: usize| #[trigger] system_access.sp_conflicts_with(
            *current,
            id,
        ) implies exists|t: int|
            0 <= t < e.conflicts@.len() && (#[trigger] e.conflicts@[t])@ == world.infos@[id as int].name@ by {
            assert(conflicts@.contains(id));
            let t = choose|t: int| 0 <= t < conflicts@.len() && conflicts@[t] == id;
            assert(e.conflicts@[t]@ == world.infos@[id as int].name@);
        }
    }
    Err(e)
}


/// The display name a declaration carries, for diagnostics.
pub open spec fn sp_kind_name(kind: ParamKind) -> Seq<char> {
    match kind {
        ParamKind::ResourceRead { name, .. } => name@,
        ParamKind::ResourceWrite { name, .. } => name@,
        ParamKind::RemovedRecord { name, .. } => name@,
        ParamKind::QueryAccess { name, .. } => name@,
        ParamKind::WholeWorld => "&World"@,
        _ => Seq::<char>::empty(),
    }
}

/// A query declaration's footprint is well-formed and names only slots the
/// store has registered.
pub open spec fn sp_kind_wf(kind: ParamKind, n: int) -> bool {
    match kind {
        ParamKind::QueryAccess { access, .. } => access.inv() && (forall|id: usize|
            #[trigger] access.access.sp_mentions(id) ==> id < n),
        _ => true,
    }
}

/// The slot a resource-like declaration speaks of is registered.
pub open spec fn sp_kind_ready(kind: ParamKind, w: World) -> bool {
    match kind {
        ParamKind::ResourceRead { tag, .. } => w.sp_tag_registered(tag),
        ParamKind::ResourceWrite { tag, .. } => w.sp_tag_registered(tag),
        ParamKind::RemovedRecord { tag, .. } => w.sp_tag_registered(tag),
        _ => true,
    }
}

/// The persisted state a declaration must have produced.
pub open spec fn sp_state_shape(kind: ParamKind, st: ParamState, w: World) -> bool {
    match kind {
        ParamKind::ResourceRead { tag, .. } => (st matches ParamState::SlotId { component_id }
            && component_id < w.n_resources() && w.infos@[component_id as int].tag == tag),
        ParamKind::ResourceWrite { tag, .. } => (st matches ParamState::SlotId { component_id }
            && component_id < w.n_resources() && w.infos@[component_id as int].tag == tag),
        ParamKind::RemovedRecord { tag, .. } => (st matches ParamState::SlotId { component_id }
            && component_id < w.n_resources() && w.infos@[component_id as int].tag == tag),
        ParamKind::CommandQueue => (st matches ParamState::Queue { queue } && queue@.len() == 0),
        ParamKind::WholeWorld => st matches ParamState::NoState,
        ParamKind::LocalState { initial } => (st matches ParamState::LocalValue { value } && value
            == initial),
        ParamKind::QueryAccess { access, .. } => (st matches ParamState::QueryState { access: a }
            && a.inv() && a.access.reads@ == access.access.reads@ && a.access.writes@
            == access.access.writes@ && a.access.reads_all == access.access.reads_all
            && a.access.writes_all == access.access.writes_all && a.with_filters@
            == access.with_filters@ && a.without_filters@ == access.without_filters@),
        ParamKind::ChangeTick => st matches ParamState::NoState,
        ParamKind::SystemNameParam => st matches ParamState::NoState,
    }
}

/// Phase one of registration: resolve the declaration's slot in the store
/// and decide, against the accesses accumulated so far, whether it may
/// join the system. Nothing is folded into the accumulator yet, so the
/// members of a disjoint-access multiplexer can all be checked against the
/// same pre-multiplexer footprint.
pub fn check_single_param(kind: &ParamKind, world: &mut World, meta: &SystemMeta) -> (r: Result<
    (),
    AccessConflictError,
>)
    requires
        old(world).inv(),
        meta.inv(),
        old(world).next_archetype_component_id < usize::MAX,
        sp_meta_in_range(*meta, old(world).n_resources()),
        sp_kind_wf(*kind, old(world).n_resources()),
    ensures
        sp_world_extends(*final(world), *old(world)),
        final(world).n_resources() <= old(world).n_resources() + 1,
        final(world).next_archetype_component_id <= old(world).next_archetype_component_id + 1,
        old(world).next_archetype_component_id <= final(world).next_archetype_component_id,
        sp_kind_ready(*kind, *final(world)),
        !(kind matches ParamKind::ResourceRead { .. } || kind matches ParamKind::ResourceWrite {
            ..
        } || kind matches ParamKind::RemovedRecord { .. }) ==> *final(world) == *old(world),
        kind.sp_is_simple_resource() ==> (forall|id: usize|
            (id < final(world).n_resources() && (#[trigger] final(world).infos@[id as int]).tag
                == kind.sp_tag()) ==> (r is Ok <==> (
            !meta.component_access_set.combined_access.sp_has_write(id) && (kind.sp_writes()
                ==> !meta.component_access_set.combined_access.sp_has_read(id))))),
        (kind matches ParamKind::CommandQueue || kind matches ParamKind::LocalState { .. }
            || kind matches ParamKind::RemovedRecord { .. } || kind matches ParamKind::ChangeTick
            || kind matches ParamKind::SystemNameParam) ==> r is Ok,
        kind matches ParamKind::WholeWorld ==> (r is Ok <==> ((forall|id: usize|
            !meta.archetype_component_access.sp_has_write(id)) && (forall|j: int, id: usize|
            0 <= j < meta.component_access_set.filtered_accesses@.len() ==> !((
            #[trigger] meta.component_access_set.filtered_accesses@[j].access.sp_has_write(id))
                && (#[trigger] meta.component_access_set.filtered_accesses@[j].access.sp_mentions(
                id,
            )))))),
        *kind matches ParamKind::QueryAccess { access, .. } ==> (r is Ok <==> (forall|id: usize|
            !meta.component_access_set.sp_conflicts_with(access, id))),
        kind matches ParamKind::WholeWorld ==> (r matches Err(e) ==> e.param_name@
            == sp_kind_name(*kind)),
        r matches Err(e) ==> (e.system_name@ == meta.name@ && (kind.sp_is_simple_resource() ==> (
        e.param_name@ == sp_kind_name(*kind) && e.conflicts@.len() == 1 && (forall|id: usize|
            (id < final(world).n_resources() && (#[trigger] final(world).infos@[id as int]).tag
                == kind.sp_tag()) ==> e.conflicts@[0]@ == final(world).infos@[id as int].name@)))),
{
    match kind {
        ParamKind::ResourceRead { tag, name, optional: _, non_send } => {
            let id = if *non_send {
                world.initialize_non_send_resource(*tag, name.clone())
            } else {
                world.initialize_resource(*tag, name.clone())
            };
            proof {
                assert forall|id2: usize|
                    (id2 < world.n_resources() && (#[trigger] world.infos@[id2 as int]).tag
                        == kind.sp_tag()) implies id2 == id by {
                    crate::world::lemma_tag_unique(*world, id2 as int, id as int);
                }
            }
            if meta.component_access_set.combined_access().has_write(id) {
                let mut conflicts: Vec<String> = Vec::new();
                conflicts.push(world.resource_name(id));
                Err(
                    AccessConflictError {
                        system_name: meta.name.clone(),
                        param_name: name.clone(),
                        filter_name: String::new(),
                        conflicts,
                    },
                )
            } else {
                Ok(())
            }
        },
        ParamKind::ResourceWrite { tag, name, optional: _, non_send } => {
            let id = if *non_send {
                world.initialize_non_send_resource(*tag, name.clone())
            } else {
                world.initialize_resource(*tag, name.clone())
            };
            proof {
                assert forall|id2: usize|
                    (id2 < world.n_resources() && (#[trigger] world.infos@[id2 as int]).tag
                        == kind.sp_tag()) implies id2 == id by {
                    crate::world::lemma_tag_unique(*world, id2 as int, id as int);
                }
            }
            let combined = meta.component_access_set.combined_access();
            if combined.has_write(id) || combined.has_read(id) {
                let mut conflicts: Vec<String> = Vec::new();
                conflicts.push(world.resource_name(id));
                Err(
                    AccessConflictError {
                        system_name: meta.name.clone(),
                        param_name: name.clone(),
                        filter_name: String::new(),
                        conflicts,
                    },
                )
            } else {
                Ok(())
            }
        },
        ParamKind::RemovedRecord { tag, name } => {
            let id = world.init_component(*tag, name.clone());
            Ok(())
        },
        ParamKind::WholeWorld => {
            let mut all = Access::new();
            all.read_all();
            let arch_ok = meta.archetype_component_access.is_compatible(&all);
            let mut fa = FilteredAccess::new();
            fa.read_all();
            let conflicts = meta.component_access_set.get_conflicts_single(&fa);
            let ok = arch_ok && conflicts.len() == 0;
            proof {
                let members = meta.component_access_set.filtered_accesses@;
                if ok {
                    assert forall|id: usize|
                        !meta.archetype_component_access.sp_has_write(id) by {
                        assert(!meta.archetype_component_access.sp_slot_conflict(all, id));
                    }
                    assert forall|j: int, id: usize|
                        0 <= j < members.len() implies !((#[trigger] members[j].access.sp_has_write(
                        id,
                    )) && (#[trigger] members[j].access.sp_mentions(id))) by {
                        if members[j].access.sp_has_write(id) && members[j].access.sp_mentions(id) {
                            assert(!members[j].access.sp_compatible(fa.access)) by {
                                assert(members[j].access.sp_slot_conflict(fa.access, id));
                            }
                            assert(!members[j].sp_filters_disjoint(fa));
                            assert(!members[j].sp_compatible(fa));
                            assert(meta.component_access_set.sp_member_clash(fa, j, id));
                            assert(meta.component_access_set.sp_conflicts_with(fa, id));
                            assert(conflicts@.contains(id));
                        }
                    }
                } else {
                    if !arch_ok {
                        let bad = choose|id: usize|
                            meta.archetype_component_access.sp_slot_conflict(all, id);
                        assert(meta.archetype_component_access.sp_has_write(bad));
                    } else {
                        assert(conflicts@.len() > 0);
                        let id = conflicts@[0];
                        assert(conflicts@.contains(id));
                        assert(meta.component_access_set.sp_conflicts_with(fa, id));
                        let m = choose|m: int|
                            0 <= m < members.len()
                                && #[trigger] meta.component_access_set.sp_member_clash(fa, m, id);
                        assert(members[m].access.sp_slot_conflict(fa.access, id));
                        assert(!fa.access.sp_has_write(id));
                        assert(members[m].access.sp_has_write(id));
                        assert(members[m].access.sp_mentions(id) || fa.access.sp_mentions(id));
                        assert(!fa.access.sp_mentions(id));
                        assert(members[m].access.sp_mentions(id));
                    }
                }
            }
            if ok {
                Ok(())
            } else {
                proof {
                    assert forall|t: int|
                        0 <= t < conflicts@.len() implies meta.component_access_set.combined_access.sp_mentions(
                        #[trigger] conflicts@[t],
                    ) by {
                        let id = conflicts@[t];
                        assert(conflicts@.contains(id));
                        assert(meta.component_access_set.sp_conflicts_with(fa, id));
                        let m = choose|m: int|
                            0 <= m < meta.component_access_set.filtered_accesses@.len()
                                && #[trigger] meta.component_access_set.sp_member_clash(fa, m, id);
                        assert(meta.component_access_set.filtered_accesses@[m].access.sp_mentions(
                            id,
                        ) || fa.access.sp_mentions(id));
                        assert(!fa.access.sp_mentions(id));
                    }
                }
                let names = resolve_conflict_names_guarded(&conflicts, world, meta);
                Err(
                    AccessConflictError {
                        system_name: meta.name.clone(),
                        param_name: whole_world_label(),
                        filter_name: String::new(),
                        conflicts: names,
                    },
                )
            }
        },
        ParamKind::QueryAccess { access, name } => {
            proof {
                assert forall|id: usize|
                    #[trigger] meta.component_access_set.sp_conflicts_with(*access, id) implies id
                    < world.n_resources() by {
                    let members = meta.component_access_set.filtered_accesses@;
                    let m = choose|m: int|
                        0 <= m < members.len()
                            && #[trigger] meta.component_access_set.sp_member_clash(*access, m, id);
                    assert(members[m].access.sp_mentions(id) || access.access.sp_mentions(id));
                    if members[m].access.sp_mentions(id) {
                        assert(meta.component_access_set.combined_access.sp_mentions(id));
                    }
                }
            }
            let filter_label = String::new();
            assert_component_access_compatibility(
                &meta.name,
                name,
                &filter_label,
                &meta.component_access_set,
                access,
                world,
            )
        },
        _ => Ok(()),
    }
}

/// Resolves conflict names where range information comes from the
/// accumulated footprint rather than from the caller.
fn resolve_conflict_names_guarded(ids: &Vec<usize>, world: &World, meta: &SystemMeta) -> (r: Vec<
    String,
>)
    requires
        world.inv(),
        meta.inv(),
        sp_meta_in_range(*meta, world.n_resources()),
        forall|t: int|
            0 <= t < ids@.len() ==> meta.component_access_set.combined_access.sp_mentions(
                #[trigger] ids@[t],
            ),
    ensures
        r@.len() == ids@.len(),
{
    proof {
        assert forall|t: int| 0 <= t < ids@.len() implies (#[trigger] ids@[t])
            < world.n_resources() by {
            assert(meta.component_access_set.combined_access.sp_mentions(ids@[t]));
        }
    }
    resolve_conflict_names(ids, world)
}

/// The display label of the whole-store parameter, for diagnostics.
fn whole_world_label() -> (r: String)
    ensures
        r@ == "&World"@,
{
    "&World".to_owned()
}


/// Phase two of registration: fold the declaration's footprint into the
/// system's accumulator — both coordinate systems in lockstep — and hand
/// back the state the parameter keeps. The slot was resolved and the
/// conflict decision taken in phase one.
pub fn record_single_param(kind: &ParamKind, world: &mut World, meta: &mut SystemMeta) -> (st:
    ParamState)
    requires
        old(world).inv(),
        old(meta).inv(),
        old(world).next_archetype_component_id < usize::MAX,
        sp_kind_ready(*kind, *old(world)),
        sp_kind_wf(*kind, old(world).n_resources()),
        sp_meta_in_range(*old(meta), old(world).n_resources()),
        sp_coarse_in_range(*old(meta), old(world).next_archetype_component_id as int),
    ensures
        *final(world) == *old(world),
        final(meta).inv(),
        final(meta).name@ == old(meta).name@,
        final(meta).last_change_tick == old(meta).last_change_tick,
        final(meta).is_send == (old(meta).is_send && !kind.sp_pins()),
        sp_meta_in_range(*final(meta), old(world).n_resources()),
        sp_coarse_in_range(*final(meta), old(world).next_archetype_component_id as int),
        sp_state_shape(*kind, st, *old(world)),
        kind.sp_is_simple_resource() ==> {
            &&& final(meta).archetype_component_access.reads_all == old(meta).archetype_component_access.reads_all
            &&& final(meta).archetype_component_access.writes_all == old(meta).archetype_component_access.writes_all
            &&& forall|id: usize|
                (id < old(world).n_resources() && (#[trigger] old(world).infos@[id as int]).tag
                    == kind.sp_tag()) ==> (forall|y: usize|
                    #![trigger final(meta).archetype_component_access.reads@.contains(y)]
                    #![trigger old(meta).archetype_component_access.reads@.contains(y)]
                    final(meta).archetype_component_access.reads@.contains(y) <==> (old(
                        meta,
                    ).archetype_component_access.reads@.contains(y) || (!kind.sp_writes() && y
                        == old(world).infos@[id as int].archetype_component_id)))
            &&& forall|id: usize|
                (id < old(world).n_resources() && (#[trigger] old(world).infos@[id as int]).tag
                    == kind.sp_tag()) ==> (forall|y: usize|
                    #![trigger final(meta).archetype_component_access.writes@.contains(y)]
                    #![trigger old(meta).archetype_component_access.writes@.contains(y)]
                    final(meta).archetype_component_access.writes@.contains(y) <==> (old(
                        meta,
                    ).archetype_component_access.writes@.contains(y) || (kind.sp_writes() && y
                        == old(world).infos@[id as int].archetype_component_id)))
            &&& final(meta).component_access_set.combined_access.reads_all == old(meta).component_access_set.combined_access.reads_all
            &&& final(meta).component_access_set.combined_access.writes_all == old(meta).component_access_set.combined_access.writes_all
            &&& forall|y: usize|
                #![trigger final(meta).component_access_set.combined_access.reads@.contains(y)]
                #![trigger old(meta).component_access_set.combined_access.reads@.contains(y)]
                final(meta).component_access_set.combined_access.reads@.contains(y) <==> (old(meta).component_access_set.combined_access.reads@.contains(y) || (!kind.sp_writes() && y
                    < old(world).n_resources() && old(world).infos@[y as int].tag
                    == kind.sp_tag()))
            &&& forall|y: usize|
                #![trigger final(meta).component_access_set.combined_access.writes@.contains(y)]
                #![trigger old(meta).component_access_set.combined_access.writes@.contains(y)]
                final(meta).component_access_set.combined_access.writes@.contains(y) <==> (old(meta).component_access_set.combined_access.writes@.contains(y) || (kind.sp_writes() && y
                    < old(world).n_resources() && old(world).infos@[y as int].tag
                    == kind.sp_tag()))
        },
        (kind matches ParamKind::CommandQueue || kind matches ParamKind::LocalState { .. }
            || kind matches ParamKind::RemovedRecord { .. } || kind matches ParamKind::ChangeTick
            || kind matches ParamKind::SystemNameParam) ==> *final(meta) == *old(meta),
        kind matches ParamKind::WholeWorld ==> {
            &&& final(meta).component_access_set.combined_access.reads_all
            &&& final(meta).component_access_set.combined_access.writes_all == old(meta).component_access_set.combined_access.writes_all
            &&& final(meta).component_access_set.combined_access.reads@ == old(meta).component_access_set.combined_access.reads@
            &&& final(meta).component_access_set.combined_access.writes@ == old(meta).component_access_set.combined_access.writes@
            &&& final(meta).archetype_component_access.reads_all
            &&& final(meta).archetype_component_access.writes_all == old(meta).archetype_component_access.writes_all
            &&& final(meta).archetype_component_access.reads@ == old(meta).archetype_component_access.reads@
            &&& final(meta).archetype_component_access.writes@ == old(meta).archetype_component_access.writes@
        },
        *kind matches ParamKind::QueryAccess { access, .. } ==> {
            &&& final(meta).component_access_set.combined_access.reads_all == (old(meta).component_access_set.combined_access.reads_all || access.access.reads_all)
            &&& final(meta).component_access_set.combined_access.writes_all == (old(meta).component_access_set.combined_access.writes_all || access.access.writes_all)
            &&& forall|y: usize|
                #![trigger final(meta).component_access_set.combined_access.reads@.contains(y)]
                #![trigger old(meta).component_access_set.combined_access.reads@.contains(y)]
                final(meta).component_access_set.combined_access.reads@.contains(y) <==> (old(meta).component_access_set.combined_access.reads@.contains(y)
                    || access.access.reads@.contains(y))
            &&& forall|y: usize|
                #![trigger final(meta).component_access_set.combined_access.writes@.contains(y)]
                #![trigger old(meta).component_access_set.combined_access.writes@.contains(y)]
                final(meta).component_access_set.combined_access.writes@.contains(y) <==> (old(meta).component_access_set.combined_access.writes@.contains(y)
                    || access.access.writes@.contains(y))
            &&& final(meta).archetype_component_access == old(meta).archetype_component_access
        },
{
    match kind {
        ParamKind::ResourceRead { tag, name, optional: _, non_send } => {
            let id = if *non_send {
                world.initialize_non_send_resource(*tag, name.clone())
            } else {
                world.initialize_resource(*tag, name.clone())
            };
            meta.component_access_set.add_unfiltered_read(id);
            let archetype_component_id = world.get_resource_archetype_component_id(id);
            meta.archetype_component_access.add_read(archetype_component_id);
            if *non_send {
                meta.set_non_send();
            }
            proof {
                assert forall|y: usize|
                    #![trigger final(meta).component_access_set.combined_access.reads@.contains(y)]
                    #![trigger old(meta).component_access_set.combined_access.reads@.contains(y)]
                    meta.component_access_set.combined_access.reads@.contains(y) <==> (old(meta).component_access_set.combined_access.reads@.contains(y) || (y < old(world).n_resources() && old(world).infos@[y as int].tag == kind.sp_tag())) by {
                    if y == id {
                        assert(old(world).infos@[y as int].tag == kind.sp_tag());
                    }
                    if y != id && y < old(world).n_resources() && old(world).infos@[y as int].tag
                        == kind.sp_tag() {
                        crate::world::lemma_tag_unique(*old(world), y as int, id as int);
                    }
                }
                assert forall|id2: usize|
                    #[trigger] meta.component_access_set.combined_access.sp_mentions(
                        id2,
                    ) implies id2 < old(world).n_resources() by {
                    if !old(meta).component_access_set.combined_access.sp_mentions(id2) {
                        assert(id2 == id);
                    }
                }
                assert forall|id2: usize|
                    (id2 < old(world).n_resources() && (#[trigger] old(world).infos@[id2 as int]).tag
                        == kind.sp_tag()) implies (forall|y: usize|
                    #![trigger final(meta).archetype_component_access.reads@.contains(y)]
                    #![trigger old(meta).archetype_component_access.reads@.contains(y)]
                    meta.archetype_component_access.reads@.contains(y) <==> (old(
                        meta,
                    ).archetype_component_access.reads@.contains(y) || y == old(
                        world,
                    ).infos@[id2 as int].archetype_component_id)) by {
                    crate::world::lemma_tag_unique(*old(world), id2 as int, id as int);
                    assert(old(world).infos@[id2 as int].archetype_component_id
                        == archetype_component_id);
                }
                assert forall|y: usize|
                    #[trigger] meta.archetype_component_access.sp_mentions(y) implies y < old(
                        world,
                    ).next_archetype_component_id by {
                    if !old(meta).archetype_component_access.sp_mentions(y) {
                        assert(y == archetype_component_id);
                        assert((#[trigger] old(world).infos@[id as int]).archetype_component_id
                            < old(world).next_archetype_component_id);
                    }
                }
            }
            ParamState::SlotId { component_id: id }
        },
        ParamKind::ResourceWrite { tag, name, optional: _, non_send } => {
            let id = if *non_send {
                world.initialize_non_send_resource(*tag, name.clone())
            } else {
                world.initialize_resource(*tag, name.clone())
            };
            meta.component_access_set.add_unfiltered_write(id);
            let archetype_component_id = world.get_resource_archetype_component_id(id);
            meta.archetype_component_access.add_write(archetype_component_id);
            if *non_send {
                meta.set_non_send();
            }
            proof {
                assert forall|y: usize|
                    #![trigger final(meta).component_access_set.combined_access.writes@.contains(y)]
                    #![trigger old(meta).component_access_set.combined_access.writes@.contains(y)]
                    meta.component_access_set.combined_access.writes@.contains(y) <==> (old(meta).component_access_set.combined_access.writes@.contains(y) || (y < old(world).n_resources() && old(world).infos@[y as int].tag == kind.sp_tag())) by {
                    if y == id {
                        assert(old(world).infos@[y as int].tag == kind.sp_tag());
                    }
                    if y != id && y < old(world).n_resources() && old(world).infos@[y as int].tag
                        == kind.sp_tag() {
                        crate::world::lemma_tag_unique(*old(world), y as int, id as int);
                    }
                }
                assert forall|id2: usize|
                    #[trigger] meta.component_access_set.combined_access.sp_mentions(
                        id2,
                    ) implies id2 < old(world).n_resources() by {
                    if !old(meta).component_access_set.combined_access.sp_mentions(id2) {
                        assert(id2 == id);
                    }
                }
                assert forall|id2: usize|
                    (id2 < old(world).n_resources() && (#[trigger] old(world).infos@[id2 as int]).tag
                        == kind.sp_tag()) implies (forall|y: usize|
                    #![trigger final(meta).archetype_component_access.writes@.contains(y)]
                    #![trigger old(meta).archetype_component_access.writes@.contains(y)]
                    meta.archetype_component_access.writes@.contains(y) <==> (old(
                        meta,
                    ).archetype_component_access.writes@.contains(y) || y == old(
                        world,
                    ).infos@[id2 as int].archetype_component_id)) by {
                    crate::world::lemma_tag_unique(*old(world), id2 as int, id as int);
                    assert(old(world).infos@[id2 as int].archetype_component_id
                        == archetype_component_id);
                }
                assert forall|y: usize|
                    #[trigger] meta.archetype_component_access.sp_mentions(y) implies y < old(
                        world,
                    ).next_archetype_component_id by {
                    if !old(meta).archetype_component_access.sp_mentions(y) {
                        assert(y == archetype_component_id);
                        assert((#[trigger] old(world).infos@[id as int]).archetype_component_id
                            < old(world).next_archetype_component_id);
                    }
                }
            }
            ParamState::SlotId { component_id: id }
        },
        ParamKind::CommandQueue => {
            let queue: Vec<Command> = Vec::new();
            ParamState::Queue { queue }
        },
        ParamKind::WholeWorld => {
            let mut fa = FilteredAccess::new();
            fa.read_all();
            meta.component_access_set.add(fa);
            meta.archetype_component_access.read_all();
            proof {
                assert(forall|y: usize|
                    meta.archetype_component_access.sp_mentions(y) == old(
                        meta,
                    ).archetype_component_access.sp_mentions(y));
                assert forall|id2: usize|
                    #[trigger] meta.component_access_set.combined_access.sp_mentions(
                        id2,
                    ) implies id2 < old(world).n_resources() by {
                    if meta.component_access_set.combined_access.reads@.contains(id2) {
                        assert(old(meta).component_access_set.combined_access.reads@.contains(id2));
                    } else {
                        assert(meta.component_access_set.combined_access.writes@.contains(id2));
                        assert(old(meta).component_access_set.combined_access.writes@.contains(
                            id2,
                        ));
                    }
                    assert(old(meta).component_access_set.combined_access.sp_mentions(id2));
                }
            }
            ParamState::NoState
        },
        ParamKind::LocalState { initial } => ParamState::LocalValue { value: *initial },
        ParamKind::RemovedRecord { tag, name } => {
            let id = world.init_component(*tag, name.clone());
            ParamState::SlotId { component_id: id }
        },
        ParamKind::QueryAccess { access, name: _ } => {
            let registered = access.duplicate();
            meta.component_access_set.add(registered);
            proof {
                assert(forall|y: usize|
                    meta.archetype_component_access.sp_mentions(y) == old(
                        meta,
                    ).archetype_component_access.sp_mentions(y));
                assert forall|id2: usize|
                    #[trigger] meta.component_access_set.combined_access.sp_mentions(
                        id2,
                    ) implies id2 < old(world).n_resources() by {
                    if !old(meta).component_access_set.combined_access.sp_mentions(id2) {
                        assert(access.access.sp_mentions(id2));
                    }
                }
            }
            ParamState::QueryState { access: access.duplicate() }
        },
        ParamKind::ChangeTick => ParamState::NoState,
        ParamKind::SystemNameParam => ParamState::NoState,
    }
}


/// How many parameter kinds a declaration contributes.
pub open spec fn sp_decl_kinds(d: ParamDecl) -> int {
    match d {
        ParamDecl::Single(_) => 1,
        ParamDecl::Multiplexer(ks) => ks@.len() as int,
    }
}

/// How many parameter kinds a declaration list contributes in all.
pub open spec fn sp_total_kinds(decls: Seq<ParamDecl>) -> int
    decreases decls.len(),
{
    if decls.len() == 0 {
        0
    } else {
        sp_decl_kinds(decls[0]) + sp_total_kinds(decls.drop_first())
    }
}

proof fn lemma_total_kinds_nonneg(decls: Seq<ParamDecl>)
    ensures
        sp_total_kinds(decls) >= 0,
    decreases decls.len(),
{
    if decls.len() > 0 {
        lemma_total_kinds_nonneg(decls.drop_first());
    }
}

proof fn lemma_total_kinds_skip(decls: Seq<ParamDecl>, i: int)
    requires
        0 <= i < decls.len(),
    ensures
        sp_total_kinds(decls.skip(i)) == sp_decl_kinds(decls[i]) + sp_total_kinds(
            decls.skip(i + 1),
        ),
{
    assert(decls.skip(i)[0] == decls[i]);
    assert(decls.skip(i).drop_first() =~= decls.skip(i + 1));
}

/// The declaration pins its system to the designated execution context.
pub open spec fn sp_decl_pins(d: ParamDecl) -> bool {
    match d {
        ParamDecl::Single(k) => k.sp_pins(),
        ParamDecl::Multiplexer(ks) => exists|m: int|
            0 <= m < ks@.len() && (#[trigger] ks@[m]).sp_pins(),
    }
}

/// Well-formedness of one declaration: row-scanning footprints are sound,
/// and a multiplexer wraps at most eight members.
pub open spec fn sp_decl_wf(d: ParamDecl, n: int) -> bool {
    match d {
        ParamDecl::Single(k) => sp_kind_wf(k, n),
        ParamDecl::Multiplexer(ks) => ks@.len() <= 8 && (forall|m: int|
            0 <= m < ks@.len() ==> sp_kind_wf(#[trigger] ks@[m], n)),
    }
}

/// Well-formedness of a whole declaration list: at most sixteen
/// parameters, each sound against the store.
pub open spec fn sp_decls_wf(decls: Seq<ParamDecl>, n: int) -> bool {
    &&& decls.len() <= 16
    &&& forall|i: int| 0 <= i < decls.len() ==> sp_decl_wf(#[trigger] decls[i], n)
}

/// The persisted state of one declaration has the shape its kind demands.
pub open spec fn sp_decl_state_shape(d: ParamDecl, s: ParamStateSlot, w: World) -> bool {
    match d {
        ParamDecl::Single(k) => (s matches ParamStateSlot::Single(st) && sp_state_shape(k, st, w)),
        ParamDecl::Multiplexer(ks) => (s matches ParamStateSlot::Multiplexer(sts) && sts@.len()
            == ks@.len() && (forall|m: int|
            0 <= m < ks@.len() ==> sp_state_shape(ks@[m], #[trigger] sts@[m], w))),
    }
}

/// A state shape keeps holding as the store's registry grows.
proof fn lemma_state_shape_extends(k: ParamKind, st: ParamState, w1: World, w2: World)
    requires
        sp_state_shape(k, st, w1),
        sp_world_extends(w2, w1),
    ensures
        sp_state_shape(k, st, w2),
{
    match k {
        ParamKind::ResourceRead { .. } => {
            if let ParamState::SlotId { component_id } = st {
                assert(w2.infos@[component_id as int] == w1.infos@[component_id as int]);
            }
        },
        ParamKind::ResourceWrite { .. } => {
            if let ParamState::SlotId { component_id } = st {
                assert(w2.infos@[component_id as int] == w1.infos@[component_id as int]);
            }
        },
        ParamKind::RemovedRecord { .. } => {
            if let ParamState::SlotId { component_id } = st {
                assert(w2.infos@[component_id as int] == w1.infos@[component_id as int]);
            }
        },
        _ => {},
    }
}


proof fn lemma_decls_read_slot_one_more(decls: Seq<ParamDecl>, i: int, t: u64)
    requires
        0 <= i < decls.len(),
    ensures
        sp_decls_read_slot(decls, i + 1, t) == (sp_decls_read_slot(decls, i, t)
            || sp_decl_reads_slot(decls[i], t)),
{
    if sp_decls_read_slot(decls, i + 1, t) {
        let k = choose|k: int| 0 <= k < i + 1 && sp_decl_reads_slot(#[trigger] decls[k], t);
        if k < i {
            assert(sp_decls_read_slot(decls, i, t));
        }
    }
    if sp_decls_read_slot(decls, i, t) {
        let k = choose|k: int| 0 <= k < i && sp_decl_reads_slot(#[trigger] decls[k], t);
        assert(sp_decls_read_slot(decls, i + 1, t));
    }
    if sp_decl_reads_slot(decls[i], t) {
        assert(sp_decls_read_slot(decls, i + 1, t));
    }
}

proof fn lemma_decls_write_slot_one_more(decls: Seq<ParamDecl>, i: int, t: u64)
    requires
        0 <= i < decls.len(),
    ensures
        sp_decls_write_slot(decls, i + 1, t) == (sp_decls_write_slot(decls, i, t)
            || sp_decl_writes_slot(decls[i], t)),
{
    if sp_decls_write_slot(decls, i + 1, t) {
        let k = choose|k: int| 0 <= k < i + 1 && sp_decl_writes_slot(#[trigger] decls[k], t);
        if k < i {
            assert(sp_decls_write_slot(decls, i, t));
        }
    }
    if sp_decls_write_slot(decls, i, t) {
        let k = choose|k: int| 0 <= k < i && sp_decl_writes_slot(#[trigger] decls[k], t);
        assert(sp_decls_write_slot(decls, i + 1, t));
    }
    if sp_decl_writes_slot(decls[i], t) {
        assert(sp_decls_write_slot(decls, i + 1, t));
    }
}

proof fn lemma_decls_whole_world_one_more(decls: Seq<ParamDecl>, i: int)
    requires
        0 <= i < decls.len(),
    ensures
        sp_decls_whole_world(decls, i + 1) == (sp_decls_whole_world(decls, i)
            || sp_decl_whole_world(decls[i])),
{
    if sp_decls_whole_world(decls, i + 1) {
        let k = choose|k: int| 0 <= k < i + 1 && sp_decl_whole_world(#[trigger] decls[k]);
        if k < i {
            assert(sp_decls_whole_world(decls, i));
        }
    }
    if sp_decls_whole_world(decls, i) {
        let k = choose|k: int| 0 <= k < i && sp_decl_whole_world(#[trigger] decls[k]);
        assert(sp_decls_whole_world(decls, i + 1));
    }
    if sp_decl_whole_world(decls[i]) {
        assert(sp_decls_whole_world(decls, i + 1));
    }
}

/// A registered tag a declaration touches stays out of the way of freshly
/// registered slots: whatever a ready declaration reads or writes is
/// already in the registry.
proof fn lemma_ready_decl_touches_registered(d: ParamDecl, w: World, t: u64)
    requires
        sp_decl_ready(d, w),
        sp_decl_reads_slot(d, t) || sp_decl_writes_slot(d, t),
    ensures
        w.sp_tag_registered(t),
{
    match d {
        ParamDecl::Single(k) => {},
        ParamDecl::Multiplexer(ks) => {
            if sp_decl_reads_slot(d, t) {
                let m = choose|m: int|
                    0 <= m < ks@.len() && sp_kind_reads_slot(#[trigger] ks@[m], t);
                assert(sp_kind_ready(ks@[m], w));
            } else {
                let m = choose|m: int|
                    0 <= m < ks@.len() && sp_kind_writes_slot(#[trigger] ks@[m], t);
                assert(sp_kind_ready(ks@[m], w));
            }
        },
    }
}

/// With the accumulated fine footprint exactly describing the first `i`
/// slot-level declarations, the conflict decision for a fresh single-slot
/// kind comes out precisely when some earlier declaration clashes with it.
proof fn lemma_simple_check_decides(
    decls: Seq<ParamDecl>,
    i: int,
    w: World,
    meta: SystemMeta,
    pk: ParamKind,
    id: usize,
)
    requires
        0 <= i <= decls.len(),
        pk.sp_is_simple_resource(),
        id < w.n_resources(),
        w.infos@[id as int].tag == pk.sp_tag(),
        w.inv(),
        !meta.component_access_set.combined_access.writes_all,
        meta.component_access_set.combined_access.reads_all == sp_decls_whole_world(decls, i),
        forall|id2: usize|
            #![trigger w.infos@[id2 as int]]
            id2 < w.n_resources() ==> (meta.component_access_set.combined_access.reads@.contains(
                id2,
            ) <==> sp_decls_read_slot(decls, i, w.infos@[id2 as int].tag)),
        forall|id2: usize|
            #![trigger w.infos@[id2 as int]]
            id2 < w.n_resources() ==> (meta.component_access_set.combined_access.writes@.contains(
                id2,
            ) <==> sp_decls_write_slot(decls, i, w.infos@[id2 as int].tag)),
        sp_meta_in_range(meta, w.n_resources()),
    ensures
        (meta.component_access_set.combined_access.sp_has_write(id) || (pk.sp_writes()
            && meta.component_access_set.combined_access.sp_has_read(id))) <==> (exists|a: int|
            0 <= a < i && sp_decl_kind_clash(#[trigger] decls[a], pk)),
{
    let t = pk.sp_tag();
    let combined = meta.component_access_set.combined_access;
    if combined.sp_has_write(id) {
        assert(combined.writes@.contains(id));
        assert(sp_decls_write_slot(decls, i, t));
        let a = choose|a: int| 0 <= a < i && sp_decl_writes_slot(#[trigger] decls[a], t);
        assert(sp_kind_reads_slot(pk, t) || sp_kind_writes_slot(pk, t));
        assert(sp_decl_kind_clash(decls[a], pk));
    } else if pk.sp_writes() && combined.sp_has_read(id) {
        if combined.reads_all {
            let a = choose|a: int| 0 <= a < i && sp_decl_whole_world(#[trigger] decls[a]);
            assert(sp_kind_writes_slot(pk, t));
            assert(sp_decl_kind_clash(decls[a], pk));
        } else if combined.reads@.contains(id) {
            assert(sp_decls_read_slot(decls, i, t));
            let a = choose|a: int| 0 <= a < i && sp_decl_reads_slot(#[trigger] decls[a], t);
            assert(sp_kind_writes_slot(pk, t));
            assert(sp_decl_kind_clash(decls[a], pk));
        } else {
            assert(combined.writes@.contains(id));
            assert(sp_decls_write_slot(decls, i, t));
            let a = choose|a: int| 0 <= a < i && sp_decl_writes_slot(#[trigger] decls[a], t);
            assert(sp_decl_kind_clash(decls[a], pk));
        }
    }
    if exists|a: int| 0 <= a < i && sp_decl_kind_clash(#[trigger] decls[a], pk) {
        let a = choose|a: int| 0 <= a < i && sp_decl_kind_clash(#[trigger] decls[a], pk);
        let d = decls[a];
        if exists|t2: u64|
            #![trigger sp_decl_writes_slot(d, t2)]
            sp_decl_writes_slot(d, t2) && (sp_kind_reads_slot(pk, t2) || sp_kind_writes_slot(
                pk,
                t2,
            )) {
            let t2 = choose|t2: u64|
                #![trigger sp_decl_writes_slot(d, t2)]
                sp_decl_writes_slot(d, t2) && (sp_kind_reads_slot(pk, t2) || sp_kind_writes_slot(
                    pk,
                    t2,
                ));
            assert(t2 == t);
            assert(sp_decls_write_slot(decls, i, t));
            assert(combined.writes@.contains(id));
        } else if exists|t2: u64|
            #![trigger sp_decl_reads_slot(d, t2)]
            sp_decl_reads_slot(d, t2) && sp_kind_writes_slot(pk, t2) {
            let t2 = choose|t2: u64|
                #![trigger sp_decl_reads_slot(d, t2)]
                sp_decl_reads_slot(d, t2) && sp_kind_writes_slot(pk, t2);
            assert(t2 == t);
            assert(pk.sp_writes());
            assert(sp_decls_read_slot(decls, i, t));
            assert(combined.reads@.contains(id));
            assert(combined.sp_has_read(id));
        } else if sp_decl_whole_world(d) && (exists|t2: u64| sp_kind_writes_slot(pk, t2)) {
            assert(sp_decls_whole_world(decls, i));
            assert(combined.reads_all);
            assert(pk.sp_writes());
            assert(combined.sp_has_read(id));
        } else {
            assert(pk matches ParamKind::WholeWorld && (exists|t2: u64| sp_decl_writes_slot(
                d,
                t2,
            )));
            assert(false);
        }
    }
}

/// With both accumulated footprints exactly describing the first `i`
/// slot-level declarations, the whole-store read's conflict decision comes
/// out precisely when some earlier declaration writes a slot.
proof fn lemma_whole_world_check_decides(decls: Seq<ParamDecl>, i: int, w: World, meta: SystemMeta)
    requires
        0 <= i <= decls.len(),
        w.inv(),
        meta.inv(),
        !meta.component_access_set.combined_access.writes_all,
        !meta.archetype_component_access.writes_all,
        forall|id2: usize|
            #![trigger w.infos@[id2 as int]]
            id2 < w.n_resources() ==> (meta.component_access_set.combined_access.writes@.contains(
                id2,
            ) <==> sp_decls_write_slot(decls, i, w.infos@[id2 as int].tag)),
        forall|id2: usize|
            #![trigger w.infos@[id2 as int]]
            id2 < w.n_resources() ==> (meta.archetype_component_access.writes@.contains(
                w.infos@[id2 as int].archetype_component_id,
            ) <==> sp_decls_write_slot(decls, i, w.infos@[id2 as int].tag)),
        forall|y: usize|
            #[trigger] meta.archetype_component_access.sp_mentions(y) ==> exists|id2: int|
                0 <= id2 < w.n_resources() && w.infos@[id2].archetype_component_id == y,
        sp_meta_in_range(meta, w.n_resources()),
        forall|k: int| 0 <= k < i ==> sp_decl_ready(#[trigger] decls[k], w),
    ensures
        ((forall|y: usize| !meta.archetype_component_access.sp_has_write(y)) && (forall|j: int, y: usize|
            0 <= j < meta.component_access_set.filtered_accesses@.len() ==> !((
            #[trigger] meta.component_access_set.filtered_accesses@[j].access.sp_has_write(y))
                && (#[trigger] meta.component_access_set.filtered_accesses@[j].access.sp_mentions(
                y,
            ))))) <==> !(exists|a: int|
            0 <= a < i && sp_decl_kind_clash(#[trigger] decls[a], ParamKind::WholeWorld)),
{
    let coarse = meta.archetype_component_access;
    let combined = meta.component_access_set.combined_access;
    let members = meta.component_access_set.filtered_accesses@;
    if exists|a: int| 0 <= a < i && sp_decl_kind_clash(#[trigger] decls[a], ParamKind::WholeWorld) {
        let a = choose|a: int|
            0 <= a < i && sp_decl_kind_clash(#[trigger] decls[a], ParamKind::WholeWorld);
        let d = decls[a];
        assert(exists|t2: u64| sp_decl_writes_slot(d, t2)) by {
            if exists|t2: u64|
                #![trigger sp_decl_writes_slot(d, t2)]
                sp_decl_writes_slot(d, t2) && (sp_kind_reads_slot(ParamKind::WholeWorld, t2)
                    || sp_kind_writes_slot(ParamKind::WholeWorld, t2)) {
                let t2 = choose|t2: u64|
                    #![trigger sp_decl_writes_slot(d, t2)]
                    sp_decl_writes_slot(d, t2) && (sp_kind_reads_slot(ParamKind::WholeWorld, t2)
                        || sp_kind_writes_slot(ParamKind::WholeWorld, t2));
                assert(false);
            }
            if exists|t2: u64|
                #![trigger sp_decl_reads_slot(d, t2)]
                sp_decl_reads_slot(d, t2) && sp_kind_writes_slot(ParamKind::WholeWorld, t2) {
                let t2 = choose|t2: u64|
                    #![trigger sp_decl_reads_slot(d, t2)]
                    sp_decl_reads_slot(d, t2) && sp_kind_writes_slot(ParamKind::WholeWorld, t2);
                assert(false);
            }
            if sp_decl_whole_world(d) && (exists|t2: u64| sp_kind_writes_slot(
                ParamKind::WholeWorld,
                t2,
            )) {
                let t2 = choose|t2: u64| sp_kind_writes_slot(ParamKind::WholeWorld, t2);
                assert(false);
            }
        }
        let t2 = choose|t2: u64| sp_decl_writes_slot(d, t2);
        lemma_ready_decl_touches_registered(d, w, t2);
        vstd::std_specs::vec::axiom_spec_len(&w.infos);
        let j = choose|j: int| 0 <= j < w.infos@.len() && (#[trigger] w.infos@[j]).tag == t2;
        assert((j as usize) as int == j);
        assert(sp_decls_write_slot(decls, i, t2));
        assert(combined.writes@.contains(j as usize)) by {
            assert((w.infos@[(j as usize) as int]).tag == t2);
        }
        assert(exists|jj: int|
            0 <= jj < members.len() && (#[trigger] members[jj]).access.writes@.contains(
                j as usize,
            ));
        let jj = choose|jj: int|
            0 <= jj < members.len() && (#[trigger] members[jj]).access.writes@.contains(j as usize);
        assert(members[jj].access.sp_has_write(j as usize));
        assert(members[jj].access.sp_mentions(j as usize));
    } else {
        assert forall|y: usize| !coarse.sp_has_write(y) by {
            if coarse.sp_has_write(y) {
                assert(coarse.writes@.contains(y));
                assert(coarse.sp_mentions(y));
                vstd::std_specs::vec::axiom_spec_len(&w.infos);
                let id2 = choose|id2: int|
                    0 <= id2 < w.n_resources() && w.infos@[id2].archetype_component_id == y;
                assert((id2 as usize) as int == id2);
                assert((w.infos@[(id2 as usize) as int]).archetype_component_id == y);
                assert(sp_decls_write_slot(decls, i, w.infos@[id2].tag));
                let a = choose|a: int|
                    0 <= a < i && sp_decl_writes_slot(#[trigger] decls[a], w.infos@[id2].tag);
                assert(sp_decl_kind_clash(decls[a], ParamKind::WholeWorld));
                assert(false);
            }
        }
        assert forall|j: int, y: usize|
            0 <= j < members.len() implies !((#[trigger] members[j].access.sp_has_write(y)) && (
        #[trigger] members[j].access.sp_mentions(y))) by {
            if members[j].access.sp_has_write(y) && members[j].access.sp_mentions(y) {
                assert(combined.sp_has_write(y));
                assert(combined.writes@.contains(y));
                assert(combined.sp_mentions(y));
                assert(y < w.n_resources());
                assert((w.infos@[y as int]).tag == w.infos@[y as int].tag);
                assert(sp_decls_write_slot(decls, i, w.infos@[y as int].tag));
                let a = choose|a: int|
                    0 <= a < i && sp_decl_writes_slot(#[trigger] decls[a], w.infos@[y as int].tag);
                assert(sp_decl_kind_clash(decls[a], ParamKind::WholeWorld));
                assert(false);
            }
        }
    }
}

/// The accumulated-footprint characterizations survive growth of the
/// registry: freshly registered slots are touched by no declaration whose
/// slots were already registered.
proof fn lemma_chars_extend(decls: Seq<ParamDecl>, i: int, w1: World, w2: World, meta: SystemMeta)
    requires
        0 <= i <= decls.len(),
        sp_world_extends(w2, w1),
        w1.inv(),
        sp_meta_in_range(meta, w1.n_resources()),
        forall|k: int| 0 <= k < i ==> sp_decl_ready(#[trigger] decls[k], w1),
        forall|id2: usize|
            #![trigger w1.infos@[id2 as int]]
            id2 < w1.n_resources() ==> (meta.component_access_set.combined_access.reads@.contains(
                id2,
            ) <==> sp_decls_read_slot(decls, i, w1.infos@[id2 as int].tag)),
        forall|id2: usize|
            #![trigger w1.infos@[id2 as int]]
            id2 < w1.n_resources() ==> (meta.component_access_set.combined_access.writes@.contains(
                id2,
            ) <==> sp_decls_write_slot(decls, i, w1.infos@[id2 as int].tag)),
        forall|id2: usize|
            #![trigger w1.infos@[id2 as int]]
            id2 < w1.n_resources() ==> (meta.archetype_component_access.reads@.contains(
                w1.infos@[id2 as int].archetype_component_id,
            ) <==> sp_decls_read_slot(decls, i, w1.infos@[id2 as int].tag)),
        forall|id2: usize|
            #![trigger w1.infos@[id2 as int]]
            id2 < w1.n_resources() ==> (meta.archetype_component_access.writes@.contains(
                w1.infos@[id2 as int].archetype_component_id,
            ) <==> sp_decls_write_slot(decls, i, w1.infos@[id2 as int].tag)),
        forall|y: usize|
            #[trigger] meta.archetype_component_access.sp_mentions(y) ==> exists|id2: int|
                0 <= id2 < w1.n_resources() && w1.infos@[id2].archetype_component_id == y,
    ensures
        sp_meta_in_range(meta, w2.n_resources()),
        forall|k: int| 0 <= k < i ==> sp_decl_ready(#[trigger] decls[k], w2),
        forall|id2: usize|
            #![trigger w2.infos@[id2 as int]]
            id2 < w2.n_resources() ==> (meta.component_access_set.combined_access.reads@.contains(
                id2,
            ) <==> sp_decls_read_slot(decls, i, w2.infos@[id2 as int].tag)),
        forall|id2: usize|
            #![trigger w2.infos@[id2 as int]]
            id2 < w2.n_resources() ==> (meta.component_access_set.combined_access.writes@.contains(
                id2,
            ) <==> sp_decls_write_slot(decls, i, w2.infos@[id2 as int].tag)),
        forall|id2: usize|
            #![trigger w2.infos@[id2 as int]]
            id2 < w2.n_resources() ==> (meta.archetype_component_access.reads@.contains(
                w2.infos@[id2 as int].archetype_component_id,
            ) <==> sp_decls_read_slot(decls, i, w2.infos@[id2 as int].tag)),
        forall|id2: usize|
            #![trigger w2.infos@[id2 as int]]
            id2 < w2.n_resources() ==> (meta.archetype_component_access.writes@.contains(
                w2.infos@[id2 as int].archetype_component_id,
            ) <==> sp_decls_write_slot(decls, i, w2.infos@[id2 as int].tag)),
        forall|y: usize|
            #[trigger] meta.archetype_component_access.sp_mentions(y) ==> exists|id2: int|
                0 <= id2 < w2.n_resources() && w2.infos@[id2].archetype_component_id == y,
{
    assert forall|k: int| 0 <= k < i implies sp_decl_ready(#[trigger] decls[k], w2) by {
        vstd::std_specs::vec::axiom_spec_len(&w1.infos);
        match decls[k] {
            ParamDecl::Single(kk) => {
                match kk {
                    ParamKind::ResourceRead { tag, .. } => {
                        let j = choose|j: int|
                            0 <= j < w1.infos@.len() && (#[trigger] w1.infos@[j]).tag == tag;
                        assert(w2.infos@[j].tag == tag);
                    },
                    ParamKind::ResourceWrite { tag, .. } => {
                        let j = choose|j: int|
                            0 <= j < w1.infos@.len() && (#[trigger] w1.infos@[j]).tag == tag;
                        assert(w2.infos@[j].tag == tag);
                    },
                    ParamKind::RemovedRecord { tag, .. } => {
                        let j = choose|j: int|
                            0 <= j < w1.infos@.len() && (#[trigger] w1.infos@[j]).tag == tag;
                        assert(w2.infos@[j].tag == tag);
                    },
                    _ => {},
                }
            },
            ParamDecl::Multiplexer(ks) => {
                assert forall|m: int| 0 <= m < ks@.len() implies sp_kind_ready(
                    #[trigger] ks@[m],
                    w2,
                ) by {
                    assert(sp_kind_ready(ks@[m], w1));
                    match ks@[m] {
                        ParamKind::ResourceRead { tag, .. } => {
                            let j = choose|j: int|
                                0 <= j < w1.infos@.len() && (#[trigger] w1.infos@[j]).tag == tag;
                            assert(w2.infos@[j].tag == tag);
                        },
                        ParamKind::ResourceWrite { tag, .. } => {
                            let j = choose|j: int|
                                0 <= j < w1.infos@.len() && (#[trigger] w1.infos@[j]).tag == tag;
                            assert(w2.infos@[j].tag == tag);
                        },
                        ParamKind::RemovedRecord { tag, .. } => {
                            let j = choose|j: int|
                                0 <= j < w1.infos@.len() && (#[trigger] w1.infos@[j]).tag == tag;
                            assert(w2.infos@[j].tag == tag);
                        },
                        _ => {},
                    }
                }
            },
        }
    }
    assert forall|id2: usize|
        w1.n_resources() <= id2 < w2.n_resources() implies (!sp_decls_read_slot(
        decls,
        i,
        (#[trigger] w2.infos@[id2 as int]).tag,
    ) && !sp_decls_write_slot(decls, i, w2.infos@[id2 as int].tag)) by {
        let tg = w2.infos@[id2 as int].tag;
        vstd::std_specs::vec::axiom_spec_len(&w1.infos);
        if sp_decls_read_slot(decls, i, tg) {
            let k = choose|k: int| 0 <= k < i && sp_decl_reads_slot(#[trigger] decls[k], tg);
            lemma_ready_decl_touches_registered(decls[k], w1, tg);
            let j = choose|j: int| 0 <= j < w1.infos@.len() && (#[trigger] w1.infos@[j]).tag == tg;
            assert(w2.infos@[j].tag == tg);
            crate::world::lemma_tag_unique(w2, j, id2 as int);
            assert(false);
        }
        if sp_decls_write_slot(decls, i, tg) {
            let k = choose|k: int| 0 <= k < i && sp_decl_writes_slot(#[trigger] decls[k], tg);
            lemma_ready_decl_touches_registered(decls[k], w1, tg);
            let j = choose|j: int| 0 <= j < w1.infos@.len() && (#[trigger] w1.infos@[j]).tag == tg;
            assert(w2.infos@[j].tag == tg);
            crate::world::lemma_tag_unique(w2, j, id2 as int);
            assert(false);
        }
    }
    assert forall|id2: usize|
        w1.n_resources() <= id2 < w2.n_resources() implies (
    !meta.component_access_set.combined_access.sp_mentions(id2)
        && !meta.archetype_component_access.reads@.contains(
        (#[trigger] w2.infos@[id2 as int]).archetype_component_id,
    ) && !meta.archetype_component_access.writes@.contains(
        w2.infos@[id2 as int].archetype_component_id,
    )) by {
        let y = w2.infos@[id2 as int].archetype_component_id;
        if meta.archetype_component_access.reads@.contains(y)
            || meta.archetype_component_access.writes@.contains(y) {
            assert(meta.archetype_component_access.sp_mentions(y));
            let idb = choose|idb: int|
                0 <= idb < w1.n_resources() && w1.infos@[idb].archetype_component_id == y;
            assert(w2.infos@[idb].archetype_component_id == y);
            crate::world::lemma_arch_unique(w2, idb, id2 as int);
            assert(false);
        }
    }
    assert forall|id2: usize|
        id2 < w2.n_resources() implies ((
    #[trigger] w2.infos@[id2 as int]) == w2.infos@[id2 as int] && (
    meta.component_access_set.combined_access.reads@.contains(id2) <==> sp_decls_read_slot(
        decls,
        i,
        w2.infos@[id2 as int].tag,
    ))) by {
        if id2 < w1.n_resources() {
            assert(w1.infos@[id2 as int] == w2.infos@[id2 as int]);
        } else {
            assert(!meta.component_access_set.combined_access.sp_mentions(id2));
        }
    }
    assert forall|id2: usize|
        id2 < w2.n_resources() implies ((
    #[trigger] w2.infos@[id2 as int]) == w2.infos@[id2 as int] && (
    meta.component_access_set.combined_access.writes@.contains(id2) <==> sp_decls_write_slot(
        decls,
        i,
        w2.infos@[id2 as int].tag,
    ))) by {
        if id2 < w1.n_resources() {
            assert(w1.infos@[id2 as int] == w2.infos@[id2 as int]);
        } else {
            assert(!meta.component_access_set.combined_access.sp_mentions(id2));
        }
    }
    assert forall|id2: usize|
        id2 < w2.n_resources() implies ((
    #[trigger] w2.infos@[id2 as int]) == w2.infos@[id2 as int] && (
    meta.archetype_component_access.reads@.contains(
        w2.infos@[id2 as int].archetype_component_id,
    ) <==> sp_decls_read_slot(decls, i, w2.infos@[id2 as int].tag))) by {
        if id2 < w1.n_resources() {
            assert(w1.infos@[id2 as int] == w2.infos@[id2 as int]);
        }
    }
    assert forall|id2: usize|
        id2 < w2.n_resources() implies ((
    #[trigger] w2.infos@[id2 as int]) == w2.infos@[id2 as int] && (
    meta.archetype_component_access.writes@.contains(
        w2.infos@[id2 as int].archetype_component_id,
    ) <==> sp_decls_write_slot(decls, i, w2.infos@[id2 as int].tag))) by {
        if id2 < w1.n_resources() {
            assert(w1.infos@[id2 as int] == w2.infos@[id2 as int]);
        }
    }
    assert forall|y: usize| #[trigger] meta.archetype_component_access.sp_mentions(
        y,
    ) implies exists|id2: int|
        0 <= id2 < w2.n_resources() && w2.infos@[id2].archetype_component_id == y by {
        let idb = choose|idb: int|
            0 <= idb < w1.n_resources() && w1.infos@[idb].archetype_component_id == y;
        assert(w2.infos@[idb].archetype_component_id == y);
    }
}

/// The product of a successful system build: the metadata the scheduler
/// consults, the declarations, and the per-parameter persisted states.
#[derive(Debug)]
pub struct SystemState {
    pub meta: SystemMeta,
    pub decls: Vec<ParamDecl>,
    pub states: Vec<ParamStateSlot>,
}

/// Registers one system: every declared parameter is resolved against the
/// store, checked against the parameters registered before it, and folded
/// into the accumulated footprint — both coordinate systems in lockstep.
/// Runs once per system, before any invocation.
///
/// For a system of slot-level declarations (bare resource handles,
/// whole-store reads, footprint-free kinds, multiplexers of resource
/// handles) the outcome is exact: the build fails precisely when two
/// declarations clash — one writes a slot the other touches, or one is the
/// whole-store read and the other writes anything — and on success the
/// accumulated footprint, fine and coarse alike, is precisely the union of
/// the declared footprints. Row-scanning declarations keep their exact
/// per-registration contract on [`check_single_param`] and
/// [`record_single_param`]; their conflicts depend on filter context, which
/// this system-level summary does not model.
#[verifier::loop_isolation(false)]
#[verifier::rlimit(100)]
pub fn build(name: String, decls: Vec<ParamDecl>, world: &mut World) -> (r: Result<
    SystemState,
    AccessConflictError,
>)
    requires
        old(world).inv(),
        old(world).next_archetype_component_id + sp_total_kinds(decls@) < usize::MAX,
        sp_decls_wf(decls@, old(world).n_resources()),
    ensures
        sp_world_extends(*final(world), *old(world)),
        r matches Ok(st) ==> {
            &&& st.meta.inv()
            &&& st.meta.name@ == name@
            &&& st.meta.last_change_tick == 0
            &&& st.decls@ == decls@
            &&& st.states@.len() == decls@.len()
            &&& forall|i: int|
                0 <= i < decls@.len() ==> sp_decl_state_shape(
                    decls@[i],
                    #[trigger] st.states@[i],
                    *final(world),
                )
            &&& st.meta.is_send <==> (forall|i: int|
                0 <= i < decls@.len() ==> !sp_decl_pins(#[trigger] decls@[i]))
            &&& sp_meta_in_range(st.meta, final(world).n_resources())
        },
        r matches Err(e) ==> e.system_name@ == name@,
        sp_slot_level_decls(decls@) ==> (r is Err <==> sp_has_conflict(
            decls@,
            decls@.len() as int,
        )),
        r matches Err(e) ==> (sp_slot_level_decls(decls@) ==> (exists|i: int, pk: ParamKind|
            0 <= i < decls@.len() && #[trigger] sp_decl_holds_kind(decls@[i], pk) && e.param_name@
                == sp_kind_name(pk) && (pk.sp_is_simple_resource() ==> (e.conflicts@.len() == 1
                && (forall|id: usize|
                (id < final(world).n_resources() && final(world).infos@[id as int].tag
                    == pk.sp_tag()) ==> e.conflicts@[0]@ == final(world).infos@[id as int].name@))))),
        r matches Ok(st) ==> (sp_slot_level_decls(decls@) ==> {
            &&& st.meta.component_access_set.combined_access.reads_all == sp_decls_whole_world(decls@, decls@.len() as int)
            &&& !st.meta.component_access_set.combined_access.writes_all
            &&& st.meta.archetype_component_access.reads_all == sp_decls_whole_world(decls@, decls@.len() as int)
            &&& !st.meta.archetype_component_access.writes_all
            &&& forall|id: usize|
                #![trigger final(world).infos@[id as int]]
                id < final(world).n_resources() ==> {
                    &&& (st.meta.component_access_set.combined_access.reads@.contains(id) <==> sp_decls_read_slot(decls@, decls@.len() as int, final(world).infos@[id as int].tag))
                    &&& (st.meta.component_access_set.combined_access.writes@.contains(id) <==> sp_decls_write_slot(decls@, decls@.len() as int, final(world).infos@[id as int].tag))
                    &&& (st.meta.archetype_component_access.reads@.contains(final(world).infos@[id as int].archetype_component_id) <==> sp_decls_read_slot(decls@, decls@.len() as int, final(world).infos@[id as int].tag))
                    &&& (st.meta.archetype_component_access.writes@.contains(final(world).infos@[id as int].archetype_component_id) <==> sp_decls_write_slot(decls@, decls@.len() as int, final(world).infos@[id as int].tag))
                }
            &&& forall|y: usize|
                #[trigger] st.meta.archetype_component_access.sp_mentions(y) ==> exists|id: int|
                    0 <= id < final(world).n_resources() && final(world).infos@[id].archetype_component_id == y
        }),
{
    let ghost w0 = *old(world);
    proof {
        assert(decls@.skip(0) =~= decls@);
    }
    let mut meta = SystemMeta::new(name);
    proof {
        assert(forall|y: usize| !meta.archetype_component_access.sp_mentions(y));
        assert(forall|id: usize| !meta.component_access_set.combined_access.sp_mentions(id));
    }
    let mut states: Vec<ParamStateSlot> = Vec::new();
    let mut i: usize = 0;
    while i < decls.len()
        invariant
            world.inv(),
            sp_world_extends(*world, w0),
            world.next_archetype_component_id + sp_total_kinds(decls@.skip(i as int))
                < usize::MAX,
            i <= decls@.len(),
            meta.inv(),
            meta.name@ == name@,
            meta.last_change_tick == 0,
            sp_meta_in_range(meta, world.n_resources()),
            sp_coarse_in_range(meta, world.next_archetype_component_id as int),
            states@.len() == i,
            forall|k: int|
                0 <= k < i ==> sp_decl_state_shape(decls@[k], #[trigger] states@[k], *world),
            meta.is_send <==> (forall|k: int| 0 <= k < i ==> !sp_decl_pins(#[trigger] decls@[k])),
            sp_slot_level_decls(decls@) ==> {
                &&& !meta.component_access_set.combined_access.writes_all
                &&& meta.component_access_set.combined_access.reads_all == sp_decls_whole_world(decls@, i as int)
                &&& !meta.archetype_component_access.writes_all
                &&& meta.archetype_component_access.reads_all == sp_decls_whole_world(decls@, i as int)
                &&& forall|id: usize|
                    #![trigger world.infos@[id as int]]
                    id < world.n_resources() ==> (meta.component_access_set.combined_access.reads@.contains(id) <==> sp_decls_read_slot(decls@, i as int, world.infos@[id as int].tag))
                &&& forall|id: usize|
                    #![trigger world.infos@[id as int]]
                    id < world.n_resources() ==> (meta.component_access_set.combined_access.writes@.contains(id) <==> sp_decls_write_slot(decls@, i as int, world.infos@[id as int].tag))
                &&& forall|id: usize|
                    #![trigger world.infos@[id as int]]
                    id < world.n_resources() ==> (meta.archetype_component_access.reads@.contains(world.infos@[id as int].archetype_component_id) <==> sp_decls_read_slot(decls@, i as int, world.infos@[id as int].tag))
                &&& forall|id: usize|
                    #![trigger world.infos@[id as int]]
                    id < world.n_resources() ==> (meta.archetype_component_access.writes@.contains(world.infos@[id as int].archetype_component_id) <==> sp_decls_write_slot(decls@, i as int, world.infos@[id as int].tag))
                &&& forall|y: usize|
                    #[trigger] meta.archetype_component_access.sp_mentions(y) ==> exists|id: int|
                        0 <= id < world.n_resources() && world.infos@[id].archetype_component_id == y
                &&& !sp_has_conflict(decls@, i as int)
                &&& forall|k: int| 0 <= k < i ==> sp_decl_ready(#[trigger] decls@[k], *world)
            },
        decreases decls@.len() - i,
    {
        let ghost w_pre = *world;
        let ghost meta_pre = meta;
        proof {
            lemma_total_kinds_skip(decls@, i as int);
            lemma_total_kinds_nonneg(decls@.skip(i + 1));
            assert(sp_decl_wf(decls@[i as int], w0.n_resources()));
        }
        match &decls[i] {
            ParamDecl::Single(kind) => {
                let ghost gkind = *kind;
                proof {
                    assert(sp_kind_wf(gkind, world.n_resources())) by {
                        match gkind {
                            ParamKind::QueryAccess { access, .. } => {
                                assert(forall|id: usize|
                                    #[trigger] access.access.sp_mentions(id) ==> id
                                        < w0.n_resources());
                            },
                            _ => {},
                        }
                    }
                }
                let c = check_single_param(kind, world, &meta);
                let ghost w_mid = *world;
                match c {
                    Err(e) => {
                        proof {
                            if sp_slot_level_decls(decls@) {
                                assert(sp_slot_level_decl(decls@[i as int]));
                                lemma_chars_extend(decls@, i as int, w_pre, *world, meta);
                                if gkind.sp_is_simple_resource() {
                                    let t = gkind.sp_tag();
                                    vstd::std_specs::vec::axiom_spec_len(&world.infos);
                                    let idi = choose|j: int|
                                        0 <= j < world.infos@.len() && (
                                        #[trigger] world.infos@[j]).tag == t;
                                    let idt = idi as usize;
                                    assert(idt as int == idi);
                                    assert((world.infos@[idt as int]).tag == t);
                                    assert(idt < world.n_resources());
                                    lemma_simple_check_decides(
                                        decls@,
                                        i as int,
                                        *world,
                                        meta,
                                        gkind,
                                        idt,
                                    );
                                    assert(meta.component_access_set.combined_access.sp_has_write(
                                        idt,
                                    ) || (gkind.sp_writes()
                                        && meta.component_access_set.combined_access.sp_has_read(
                                        idt,
                                    )));
                                    let a = choose|a: int|
                                        0 <= a < i && sp_decl_kind_clash(
                                            #[trigger] decls@[a],
                                            gkind,
                                        );
                                    assert(sp_decls_conflict(decls@[a], decls@[i as int]));
                                    assert(sp_has_conflict(decls@, decls@.len() as int));
                                    assert(sp_decl_holds_kind(decls@[i as int], gkind));
                                    assert(e.param_name@ == sp_kind_name(gkind));
                                    assert(e.conflicts@.len() == 1);
                                } else {
                                    match gkind {
                                        ParamKind::WholeWorld => {
                                            lemma_whole_world_check_decides(
                                                decls@,
                                                i as int,
                                                *world,
                                                meta,
                                            );
                                            let a = choose|a: int|
                                                0 <= a < i && sp_decl_kind_clash(
                                                    #[trigger] decls@[a],
                                                    ParamKind::WholeWorld,
                                                );
                                            assert(sp_decls_conflict(
                                                decls@[a],
                                                decls@[i as int],
                                            ));
                                            assert(sp_has_conflict(
                                                decls@,
                                                decls@.len() as int,
                                            ));
                                            assert(sp_decl_holds_kind(
                                                decls@[i as int],
                                                gkind,
                                            ));
                                            assert(e.param_name@ == sp_kind_name(gkind));
                                            assert(!gkind.sp_is_simple_resource());
                                        },
                                        _ => {
                                            assert(sp_kind_plain(gkind));
                                            assert(false);
                                        },
                                    }
                                }
                            }
                        }
                        return Err(e);
                    },
                    Ok(_) => {},
                }
                let st = record_single_param(kind, world, &mut meta);
                states.push(ParamStateSlot::Single(st));
                proof {
                    assert(states@[i as int] == ParamStateSlot::Single(st));
                    assert forall|k: int|
                        0 <= k < i + 1 implies sp_decl_state_shape(
                        decls@[k],
                        #[trigger] states@[k],
                        *world,
                    ) by {
                        if k < i {
                            assert(sp_decl_state_shape(decls@[k], states@[k], w_pre));
                            match decls@[k] {
                                ParamDecl::Single(kk) => {
                                    match states@[k] {
                                        ParamStateSlot::Single(sk) => {
                                            lemma_state_shape_extends(kk, sk, w_pre, *world);
                                        },
                                        _ => {},
                                    }
                                },
                                ParamDecl::Multiplexer(kks) => {
                                    match states@[k] {
                                        ParamStateSlot::Multiplexer(sts) => {
                                            assert forall|m: int|
                                                0 <= m < kks@.len() implies sp_state_shape(
                                                kks@[m],
                                                #[trigger] sts@[m],
                                                *world,
                                            ) by {
                                                lemma_state_shape_extends(
                                                    kks@[m],
                                                    sts@[m],
                                                    w_pre,
                                                    *world,
                                                );
                                            }
                                        },
                                        _ => {},
                                    }
                                },
                            }
                        } else {
                            assert(sp_state_shape(gkind, st, w_mid));
                            lemma_state_shape_extends(gkind, st, w_mid, *world);
                        }
                    }
                    assert forall|k: int| 0 <= k < i + 1 implies !sp_decl_pins(
                        #[trigger] decls@[k],
                    ) == (if k < i {
                        !sp_decl_pins(decls@[k])
                    } else {
                        !gkind.sp_pins()
                    }) by {}
                    if sp_slot_level_decls(decls@) {
                        assert(sp_slot_level_decl(decls@[i as int]));
                        lemma_chars_extend(decls@, i as int, w_pre, w_mid, meta_pre);
                        lemma_decls_whole_world_one_more(decls@, i as int);
                        if gkind.sp_is_simple_resource() {
                            let t = gkind.sp_tag();
                            vstd::std_specs::vec::axiom_spec_len(&world.infos);
                            let idi = choose|j: int|
                                0 <= j < world.infos@.len() && (#[trigger] world.infos@[j]).tag
                                    == t;
                            let idt = idi as usize;
                            assert(idt as int == idi);
                            assert((world.infos@[idt as int]).tag == t);
                            assert(idt < world.n_resources());
                            lemma_simple_check_decides(
                                decls@,
                                i as int,
                                w_mid,
                                meta_pre,
                                gkind,
                                idt,
                            );
                            assert(!(exists|a: int|
                                0 <= a < i && sp_decl_kind_clash(#[trigger] decls@[a], gkind)));
                            assert(!sp_decl_whole_world(decls@[i as int]));
                            assert forall|id: usize|
                                id < world.n_resources() implies ((
                            #[trigger] world.infos@[id as int]) == world.infos@[id as int] && (
                            meta.component_access_set.combined_access.reads@.contains(id)
                                <==> sp_decls_read_slot(
                                decls@,
                                i + 1,
                                world.infos@[id as int].tag,
                            )) && (meta.component_access_set.combined_access.writes@.contains(id)
                                <==> sp_decls_write_slot(
                                decls@,
                                i + 1,
                                world.infos@[id as int].tag,
                            ))) by {
                                let tg = world.infos@[id as int].tag;
                                lemma_decls_read_slot_one_more(decls@, i as int, tg);
                                lemma_decls_write_slot_one_more(decls@, i as int, tg);
                                if tg == t && id != idt {
                                    crate::world::lemma_tag_unique(w_mid, id as int, idt as int);
                                }
                                assert(meta.component_access_set.combined_access.reads@.contains(
                                    id,
                                ) <==> (meta_pre.component_access_set.combined_access.reads@.contains(
                                    id,
                                ) || (!gkind.sp_writes() && id < w_mid.n_resources()
                                    && w_mid.infos@[id as int].tag == t)));
                                assert(meta.component_access_set.combined_access.writes@.contains(
                                    id,
                                ) <==> (meta_pre.component_access_set.combined_access.writes@.contains(
                                    id,
                                ) || (gkind.sp_writes() && id < w_mid.n_resources()
                                    && w_mid.infos@[id as int].tag == t)));
                            }
                            assert forall|id: usize|
                                id < world.n_resources() implies ((
                            #[trigger] world.infos@[id as int]) == world.infos@[id as int] && (
                            meta.archetype_component_access.reads@.contains(
                                world.infos@[id as int].archetype_component_id,
                            ) <==> sp_decls_read_slot(
                                decls@,
                                i + 1,
                                world.infos@[id as int].tag,
                            )) && (meta.archetype_component_access.writes@.contains(
                                world.infos@[id as int].archetype_component_id,
                            ) <==> sp_decls_write_slot(
                                decls@,
                                i + 1,
                                world.infos@[id as int].tag,
                            ))) by {
                                let tg = world.infos@[id as int].tag;
                                let y = world.infos@[id as int].archetype_component_id;
                                lemma_decls_read_slot_one_more(decls@, i as int, tg);
                                lemma_decls_write_slot_one_more(decls@, i as int, tg);
                                if tg == t && id != idt {
                                    crate::world::lemma_tag_unique(w_mid, id as int, idt as int);
                                }
                                if y == world.infos@[idt as int].archetype_component_id && id
                                    != idt {
                                    crate::world::lemma_arch_unique(w_mid, id as int, idt as int);
                                }
                                assert(meta.archetype_component_access.reads@.contains(y) <==> (
                                meta_pre.archetype_component_access.reads@.contains(y) || (
                                !gkind.sp_writes() && y == w_mid.infos@[idt as int].archetype_component_id)));
                                assert(meta.archetype_component_access.writes@.contains(y) <==> (
                                meta_pre.archetype_component_access.writes@.contains(y) || (
                                gkind.sp_writes() && y == w_mid.infos@[idt as int].archetype_component_id)));
                            }
                            assert forall|y: usize|
                                #[trigger] meta.archetype_component_access.sp_mentions(
                                    y,
                                ) implies exists|id: int|
                                0 <= id < world.n_resources()
                                    && world.infos@[id].archetype_component_id == y by {
                                if !meta_pre.archetype_component_access.sp_mentions(y) {
                                    assert(meta.archetype_component_access.reads@.contains(y)
                                        || meta.archetype_component_access.writes@.contains(y));
                                    assert(meta.archetype_component_access.reads@.contains(y) <==> (
                                    meta_pre.archetype_component_access.reads@.contains(y) || (
                                    !gkind.sp_writes() && y == w_mid.infos@[idt as int].archetype_component_id)));
                                    assert(meta.archetype_component_access.writes@.contains(y)
                                        <==> (meta_pre.archetype_component_access.writes@.contains(
                                        y,
                                    ) || (gkind.sp_writes() && y == w_mid.infos@[idt as int].archetype_component_id)));
                                    assert(y == w_mid.infos@[idt as int].archetype_component_id);
                                    assert(world.infos@[idt as int].archetype_component_id == y);
                                }
                            }
                            assert(!sp_has_conflict(decls@, i + 1)) by {
                                if sp_has_conflict(decls@, i + 1) {
                                    let (a, b) = choose|a: int, b: int|
                                        0 <= a < b < i + 1 && sp_decls_conflict(
                                            #[trigger] decls@[a],
                                            #[trigger] decls@[b],
                                        );
                                    if b < i {
                                        assert(sp_has_conflict(decls@, i as int));
                                    } else {
                                        assert(sp_decls_conflict(decls@[a], decls@[i as int]));
                                        assert(sp_decl_kind_clash(decls@[a], gkind));
                                        assert(false);
                                    }
                                }
                            }
                            assert forall|k: int| 0 <= k < i + 1 implies sp_decl_ready(
                                #[trigger] decls@[k],
                                *world,
                            ) by {
                                if k == i {
                                    assert(sp_kind_ready(gkind, *world));
                                }
                            }
                        } else {
                            match gkind {
                                ParamKind::WholeWorld => {
                                    lemma_whole_world_check_decides(
                                        decls@,
                                        i as int,
                                        w_mid,
                                        meta_pre,
                                    );
                                    assert(!(exists|a: int|
                                        0 <= a < i && sp_decl_kind_clash(
                                            #[trigger] decls@[a],
                                            ParamKind::WholeWorld,
                                        )));
                                    assert(sp_decl_whole_world(decls@[i as int]));
                                    assert forall|id: usize|
                                        id < world.n_resources() implies ((
                                    #[trigger] world.infos@[id as int]) == world.infos@[id as int]
                                        && (meta.component_access_set.combined_access.reads@.contains(
                                        id,
                                    ) <==> sp_decls_read_slot(
                                        decls@,
                                        i + 1,
                                        world.infos@[id as int].tag,
                                    )) && (meta.component_access_set.combined_access.writes@.contains(
                                        id,
                                    ) <==> sp_decls_write_slot(
                                        decls@,
                                        i + 1,
                                        world.infos@[id as int].tag,
                                    )) && (meta.archetype_component_access.reads@.contains(
                                        world.infos@[id as int].archetype_component_id,
                                    ) <==> sp_decls_read_slot(
                                        decls@,
                                        i + 1,
                                        world.infos@[id as int].tag,
                                    )) && (meta.archetype_component_access.writes@.contains(
                                        world.infos@[id as int].archetype_component_id,
                                    ) <==> sp_decls_write_slot(
                                        decls@,
                                        i + 1,
                                        world.infos@[id as int].tag,
                                    ))) by {
                                        let tg = world.infos@[id as int].tag;
                                        lemma_decls_read_slot_one_more(decls@, i as int, tg);
                                        lemma_decls_write_slot_one_more(decls@, i as int, tg);
                                        assert(!sp_decl_reads_slot(decls@[i as int], tg));
                                        assert(!sp_decl_writes_slot(decls@[i as int], tg));
                                    }
                                    assert(forall|y: usize|
                                        meta.archetype_component_access.sp_mentions(y)
                                            == meta_pre.archetype_component_access.sp_mentions(y));
                                    assert(!sp_has_conflict(decls@, i + 1)) by {
                                        if sp_has_conflict(decls@, i + 1) {
                                            let (a, b) = choose|a: int, b: int|
                                                0 <= a < b < i + 1 && sp_decls_conflict(
                                                    #[trigger] decls@[a],
                                                    #[trigger] decls@[b],
                                                );
                                            if b < i {
                                                assert(sp_has_conflict(decls@, i as int));
                                            } else {
                                                assert(sp_decls_conflict(
                                                    decls@[a],
                                                    decls@[i as int],
                                                ));
                                                assert(sp_decl_kind_clash(decls@[a], gkind));
                                                assert(gkind == ParamKind::WholeWorld);
                                                assert(false);
                                            }
                                        }
                                    }
                                    assert forall|k: int| 0 <= k < i + 1 implies sp_decl_ready(
                                        #[trigger] decls@[k],
                                        *world,
                                    ) by {}
                                },
                                _ => {
                                    assert(sp_kind_plain(gkind));
                                    assert(meta == meta_pre);
                                    assert(!sp_decl_whole_world(decls@[i as int]));
                                    assert forall|id: usize|
                                        id < world.n_resources() implies ((
                                    #[trigger] world.infos@[id as int]) == world.infos@[id as int]
                                        && (meta.component_access_set.combined_access.reads@.contains(
                                        id,
                                    ) <==> sp_decls_read_slot(
                                        decls@,
                                        i + 1,
                                        world.infos@[id as int].tag,
                                    )) && (meta.component_access_set.combined_access.writes@.contains(
                                        id,
                                    ) <==> sp_decls_write_slot(
                                        decls@,
                                        i + 1,
                                        world.infos@[id as int].tag,
                                    )) && (meta.archetype_component_access.reads@.contains(
                                        world.infos@[id as int].archetype_component_id,
                                    ) <==> sp_decls_read_slot(
                                        decls@,
                                        i + 1,
                                        world.infos@[id as int].tag,
                                    )) && (meta.archetype_component_access.writes@.contains(
                                        world.infos@[id as int].archetype_component_id,
                                    ) <==> sp_decls_write_slot(
                                        decls@,
                                        i + 1,
                                        world.infos@[id as int].tag,
                                    ))) by {
                                        let tg = world.infos@[id as int].tag;
                                        lemma_decls_read_slot_one_more(decls@, i as int, tg);
                                        lemma_decls_write_slot_one_more(decls@, i as int, tg);
                                        assert(!sp_decl_reads_slot(decls@[i as int], tg));
                                        assert(!sp_decl_writes_slot(decls@[i as int], tg));
                                    }
                                    assert(!sp_has_conflict(decls@, i + 1)) by {
                                        if sp_has_conflict(decls@, i + 1) {
                                            let (a, b) = choose|a: int, b: int|
                                                0 <= a < b < i + 1 && sp_decls_conflict(
                                                    #[trigger] decls@[a],
                                                    #[trigger] decls@[b],
                                                );
                                            if b < i {
                                                assert(sp_has_conflict(decls@, i as int));
                                            } else {
                                                assert(sp_decl_kind_clash(decls@[a], gkind));
                                                assert(!(exists|t2: u64|
                                                    sp_kind_writes_slot(gkind, t2)));
                                                assert(!(exists|t2: u64|
                                                    #![trigger sp_decl_writes_slot(decls@[a], t2)]
                                                    sp_decl_writes_slot(decls@[a], t2) && (
                                                    sp_kind_reads_slot(gkind, t2)
                                                        || sp_kind_writes_slot(gkind, t2))));
                                                assert(!(gkind
                                                    matches ParamKind::WholeWorld));
                                                assert(false);
                                            }
                                        }
                                    }
                                    assert forall|k: int| 0 <= k < i + 1 implies sp_decl_ready(
                                        #[trigger] decls@[k],
                                        *world,
                                    ) by {
                                        if k == i {
                                            assert(sp_kind_ready(gkind, *world));
                                        }
                                    }
                                },
                            }
                        }
                    }
                }
            },
            ParamDecl::Multiplexer(kinds) => {
                let ghost ks = kinds@;
                let mut t: usize = 0;
                while t < kinds.len()
                    invariant
                        world.inv(),
                        sp_world_extends(*world, w_pre),
                        t <= ks.len(),
                        kinds@ == ks,
                        world.next_archetype_component_id + (ks.len() - t) + sp_total_kinds(
                            decls@.skip(i + 1),
                        ) < usize::MAX,
                        forall|m: int|
                            0 <= m < t ==> sp_kind_ready(#[trigger] ks[m], *world),
                        sp_meta_in_range(meta, world.n_resources()),
                        sp_coarse_in_range(meta, world.next_archetype_component_id as int),
                        sp_slot_level_decls(decls@) ==> {
                            &&& !meta.component_access_set.combined_access.writes_all
                            &&& meta.component_access_set.combined_access.reads_all == sp_decls_whole_world(decls@, i as int)
                            &&& !meta.archetype_component_access.writes_all
                            &&& meta.archetype_component_access.reads_all == sp_decls_whole_world(decls@, i as int)
                            &&& forall|id: usize|
                                #![trigger world.infos@[id as int]]
                                id < world.n_resources() ==> (meta.component_access_set.combined_access.reads@.contains(id) <==> sp_decls_read_slot(decls@, i as int, world.infos@[id as int].tag))
                            &&& forall|id: usize|
                                #![trigger world.infos@[id as int]]
                                id < world.n_resources() ==> (meta.component_access_set.combined_access.writes@.contains(id) <==> sp_decls_write_slot(decls@, i as int, world.infos@[id as int].tag))
                            &&& forall|id: usize|
                                #![trigger world.infos@[id as int]]
                                id < world.n_resources() ==> (meta.archetype_component_access.reads@.contains(world.infos@[id as int].archetype_component_id) <==> sp_decls_read_slot(decls@, i as int, world.infos@[id as int].tag))
                            &&& forall|id: usize|
                                #![trigger world.infos@[id as int]]
                                id < world.n_resources() ==> (meta.archetype_component_access.writes@.contains(world.infos@[id as int].archetype_component_id) <==> sp_decls_write_slot(decls@, i as int, world.infos@[id as int].tag))
                            &&& forall|y: usize|
                                #[trigger] meta.archetype_component_access.sp_mentions(y) ==> exists|id: int|
                                    0 <= id < world.n_resources() && world.infos@[id].archetype_component_id == y
                            &&& !sp_has_conflict(decls@, i as int)
                            &&& forall|k: int| 0 <= k < i ==> sp_decl_ready(#[trigger] decls@[k], *world)
                            &&& forall|m: int|
                                0 <= m < t ==> !(exists|a: int|
                                    0 <= a < i && sp_decl_kind_clash(
                                        #[trigger] decls@[a],
                                        #[trigger] ks[m],
                                    ))
                        },
                    decreases ks.len() - t,
                {
                    let ghost w_t = *world;
                    proof {
                        assert(sp_kind_wf(ks[t as int], world.n_resources())) by {
                            match ks[t as int] {
                                ParamKind::QueryAccess { access, .. } => {
                                    assert(forall|id: usize|
                                        #[trigger] access.access.sp_mentions(id) ==> id
                                            < w0.n_resources());
                                },
                                _ => {},
                            }
                        }
                    }
                    let c = check_single_param(&kinds[t], world, &meta);
                    proof {
                        if sp_slot_level_decls(decls@) {
                            assert(sp_slot_level_decl(decls@[i as int]));
                            assert(ks[t as int].sp_is_simple_resource());
                            lemma_chars_extend(decls@, i as int, w_t, *world, meta);
                            let pk = ks[t as int];
                            let tg = pk.sp_tag();
                            vstd::std_specs::vec::axiom_spec_len(&world.infos);
                            assert(world.sp_tag_registered(tg));
                            let idi = choose|j: int|
                                0 <= j < world.infos@.len() && (#[trigger] world.infos@[j]).tag
                                    == tg;
                            let idt = idi as usize;
                            assert(idt as int == idi);
                            assert((world.infos@[idt as int]).tag == tg);
                            assert(idt < world.n_resources());
                            lemma_simple_check_decides(
                                decls@,
                                i as int,
                                *world,
                                meta,
                                pk,
                                idt,
                            );
                            if c is Err {
                                assert(meta.component_access_set.combined_access.sp_has_write(idt)
                                    || (pk.sp_writes()
                                    && meta.component_access_set.combined_access.sp_has_read(
                                    idt,
                                )));
                                let a = choose|a: int|
                                    0 <= a < i && sp_decl_kind_clash(#[trigger] decls@[a], pk);
                                assert(sp_decls_conflict(decls@[a], decls@[i as int]));
                                assert(sp_has_conflict(decls@, decls@.len() as int));
                            } else {
                                assert(!(exists|a: int|
                                    0 <= a < i && sp_decl_kind_clash(
                                        #[trigger] decls@[a],
                                        ks[t as int],
                                    )));
                            }
                        }
                    }
                    if let Err(e) = c {
                        proof {
                            if sp_slot_level_decls(decls@) {
                                assert(sp_decl_holds_kind(decls@[i as int], ks[t as int])) by {
                                    assert(kinds@[t as int] == ks[t as int]);
                                }
                                assert(e.param_name@ == sp_kind_name(ks[t as int]));
                                assert(e.conflicts@.len() == 1);
                            }
                        }
                        return Err(e);
                    }
                    proof {
                        assert forall|m: int| 0 <= m < t + 1 implies sp_kind_ready(
                            #[trigger] ks[m],
                            *world,
                        ) by {
                            if m < t {
                                match ks[m] {
                                    ParamKind::ResourceRead { tag, .. } => {
                                        let j = choose|j: int|
                                            0 <= j < w_t.infos@.len() && (
                                            #[trigger] w_t.infos@[j]).tag == tag;
                                        assert(world.infos@[j].tag == tag);
                                    },
                                    ParamKind::ResourceWrite { tag, .. } => {
                                        let j = choose|j: int|
                                            0 <= j < w_t.infos@.len() && (
                                            #[trigger] w_t.infos@[j]).tag == tag;
                                        assert(world.infos@[j].tag == tag);
                                    },
                                    ParamKind::RemovedRecord { tag, .. } => {
                                        let j = choose|j: int|
                                            0 <= j < w_t.infos@.len() && (
                                            #[trigger] w_t.infos@[j]).tag == tag;
                                        assert(world.infos@[j].tag == tag);
                                    },
                                    _ => {},
                                }
                            }
                        }
                    }
                    t += 1;
                }
                let ghost w_set = *world;
                let ghost meta_set = meta;
                let mut member_states: Vec<ParamState> = Vec::new();
                let mut u: usize = 0;
                while u < kinds.len()
                    invariant
                        *world == w_set,
                        world.inv(),
                        u <= ks.len(),
                        kinds@ == ks,
                        forall|m: int| 0 <= m < ks.len() ==> sp_kind_ready(#[trigger] ks[m], w_set),
                        world.next_archetype_component_id < usize::MAX,
                        meta.inv(),
                        meta.name@ == name@,
                        meta.last_change_tick == 0,
                        sp_meta_in_range(meta, world.n_resources()),
                        sp_coarse_in_range(meta, world.next_archetype_component_id as int),
                        member_states@.len() == u,
                        forall|m: int|
                            0 <= m < u ==> sp_state_shape(
                                ks[m],
                                #[trigger] member_states@[m],
                                w_set,
                            ),
                        meta.is_send <==> (meta_set.is_send && (forall|m: int|
                            0 <= m < u ==> !(#[trigger] ks[m]).sp_pins())),
                        sp_slot_level_decls(decls@) ==> {
                            &&& !meta.component_access_set.combined_access.writes_all
                            &&& meta.component_access_set.combined_access.reads_all == sp_decls_whole_world(decls@, i as int)
                            &&& !meta.archetype_component_access.writes_all
                            &&& meta.archetype_component_access.reads_all == sp_decls_whole_world(decls@, i as int)
                            &&& forall|id: usize|
                                #![trigger world.infos@[id as int]]
                                id < world.n_resources() ==> (meta.component_access_set.combined_access.reads@.contains(id) <==> (sp_decls_read_slot(decls@, i as int, world.infos@[id as int].tag) || (exists|m: int| 0 <= m < u && sp_kind_reads_slot(#[trigger] ks[m], world.infos@[id as int].tag))))
                            &&& forall|id: usize|
                                #![trigger world.infos@[id as int]]
                                id < world.n_resources() ==> (meta.component_access_set.combined_access.writes@.contains(id) <==> (sp_decls_write_slot(decls@, i as int, world.infos@[id as int].tag) || (exists|m: int| 0 <= m < u && sp_kind_writes_slot(#[trigger] ks[m], world.infos@[id as int].tag))))
                            &&& forall|id: usize|
                                #![trigger world.infos@[id as int]]
                                id < world.n_resources() ==> (meta.archetype_component_access.reads@.contains(world.infos@[id as int].archetype_component_id) <==> (sp_decls_read_slot(decls@, i as int, world.infos@[id as int].tag) || (exists|m: int| 0 <= m < u && sp_kind_reads_slot(#[trigger] ks[m], world.infos@[id as int].tag))))
                            &&& forall|id: usize|
                                #![trigger world.infos@[id as int]]
                                id < world.n_resources() ==> (meta.archetype_component_access.writes@.contains(world.infos@[id as int].archetype_component_id) <==> (sp_decls_write_slot(decls@, i as int, world.infos@[id as int].tag) || (exists|m: int| 0 <= m < u && sp_kind_writes_slot(#[trigger] ks[m], world.infos@[id as int].tag))))
                            &&& forall|y: usize|
                                #[trigger] meta.archetype_component_access.sp_mentions(y) ==> exists|id: int|
                                    0 <= id < world.n_resources() && world.infos@[id].archetype_component_id == y
                            &&& !sp_has_conflict(decls@, i as int)
                            &&& forall|k: int| 0 <= k < i ==> sp_decl_ready(#[trigger] decls@[k], *world)
                            &&& forall|m: int|
                                0 <= m < ks.len() ==> !(exists|a: int|
                                    0 <= a < i && sp_decl_kind_clash(
                                        #[trigger] decls@[a],
                                        #[trigger] ks[m],
                                    ))
                        },
                    decreases ks.len() - u,
                {
                    proof {
                        assert(sp_kind_wf(ks[u as int], world.n_resources())) by {
                            match ks[u as int] {
                                ParamKind::QueryAccess { access, .. } => {
                                    assert(forall|id: usize|
                                        #[trigger] access.access.sp_mentions(id) ==> id
                                            < w0.n_resources());
                                },
                                _ => {},
                            }
                        }
                    }
                    let ghost meta_u = meta;
                    let st = record_single_param(&kinds[u], world, &mut meta);
                    member_states.push(st);
                    proof {
                        if sp_slot_level_decls(decls@) {
                            assert(sp_slot_level_decl(decls@[i as int]));
                            let pk = ks[u as int];
                            assert(pk.sp_is_simple_resource());
                            let tg0 = pk.sp_tag();
                            vstd::std_specs::vec::axiom_spec_len(&world.infos);
                            assert(world.sp_tag_registered(tg0));
                            let idi = choose|j: int|
                                0 <= j < world.infos@.len() && (#[trigger] world.infos@[j]).tag
                                    == tg0;
                            let idt = idi as usize;
                            assert(idt as int == idi);
                            assert((world.infos@[idt as int]).tag == tg0);
                            assert(idt < world.n_resources());
                            assert forall|id: usize|
                                id < world.n_resources() implies ((
                            #[trigger] world.infos@[id as int]) == world.infos@[id as int] && (
                            meta.component_access_set.combined_access.reads@.contains(id) <==> (
                            sp_decls_read_slot(decls@, i as int, world.infos@[id as int].tag) || (
                            exists|m: int|
                                0 <= m < u + 1 && sp_kind_reads_slot(
                                    #[trigger] ks[m],
                                    world.infos@[id as int].tag,
                                )))) && (meta.component_access_set.combined_access.writes@.contains(
                                id,
                            ) <==> (sp_decls_write_slot(
                                decls@,
                                i as int,
                                world.infos@[id as int].tag,
                            ) || (exists|m: int|
                                0 <= m < u + 1 && sp_kind_writes_slot(
                                    #[trigger] ks[m],
                                    world.infos@[id as int].tag,
                                ))))) by {
                                let tg = world.infos@[id as int].tag;
                                if tg == tg0 && id != idt {
                                    crate::world::lemma_tag_unique(*world, id as int, idt as int);
                                }
                                assert(meta.component_access_set.combined_access.reads@.contains(
                                    id,
                                ) <==> (meta_u.component_access_set.combined_access.reads@.contains(
                                    id,
                                ) || (!pk.sp_writes() && id < world.n_resources()
                                    && world.infos@[id as int].tag == tg0)));
                                assert(meta.component_access_set.combined_access.writes@.contains(
                                    id,
                                ) <==> (meta_u.component_access_set.combined_access.writes@.contains(
                                    id,
                                ) || (pk.sp_writes() && id < world.n_resources()
                                    && world.infos@[id as int].tag == tg0)));
                                if exists|m: int|
                                    0 <= m < u + 1 && sp_kind_reads_slot(#[trigger] ks[m], tg) {
                                    let m = choose|m: int|
                                        0 <= m < u + 1 && sp_kind_reads_slot(#[trigger] ks[m], tg);
                                    if m < u {
                                        assert(exists|m2: int|
                                            0 <= m2 < u && sp_kind_reads_slot(
                                                #[trigger] ks[m2],
                                                tg,
                                            ));
                                    }
                                }
                                if exists|m: int|
                                    0 <= m < u && sp_kind_reads_slot(#[trigger] ks[m], tg) {
                                    let m = choose|m: int|
                                        0 <= m < u && sp_kind_reads_slot(#[trigger] ks[m], tg);
                                    assert(exists|m2: int|
                                        0 <= m2 < u + 1 && sp_kind_reads_slot(
                                            #[trigger] ks[m2],
                                            tg,
                                        ));
                                }
                                if exists|m: int|
                                    0 <= m < u + 1 && sp_kind_writes_slot(#[trigger] ks[m], tg) {
                                    let m = choose|m: int|
                                        0 <= m < u + 1 && sp_kind_writes_slot(
                                            #[trigger] ks[m],
                                            tg,
                                        );
                                    if m < u {
                                        assert(exists|m2: int|
                                            0 <= m2 < u && sp_kind_writes_slot(
                                                #[trigger] ks[m2],
                                                tg,
                                            ));
                                    }
                                }
                                if exists|m: int|
                                    0 <= m < u && sp_kind_writes_slot(#[trigger] ks[m], tg) {
                                    let m = choose|m: int|
                                        0 <= m < u && sp_kind_writes_slot(#[trigger] ks[m], tg);
                                    assert(exists|m2: int|
                                        0 <= m2 < u + 1 && sp_kind_writes_slot(
                                            #[trigger] ks[m2],
                                            tg,
                                        ));
                                }
                                if sp_kind_reads_slot(ks[u as int], tg) {
                                    assert(exists|m2: int|
                                        0 <= m2 < u + 1 && sp_kind_reads_slot(
                                            #[trigger] ks[m2],
                                            tg,
                                        ));
                                }
                                if sp_kind_writes_slot(ks[u as int], tg) {
                                    assert(exists|m2: int|
                                        0 <= m2 < u + 1 && sp_kind_writes_slot(
                                            #[trigger] ks[m2],
                                            tg,
                                        ));
                                }
                            }
                            assert forall|id: usize|
                                id < world.n_resources() implies ((
                            #[trigger] world.infos@[id as int]) == world.infos@[id as int] && (
                            meta.archetype_component_access.reads@.contains(
                                world.infos@[id as int].archetype_component_id,
                            ) <==> (sp_decls_read_slot(
                                decls@,
                                i as int,
                                world.infos@[id as int].tag,
                            ) || (exists|m: int|
                                0 <= m < u + 1 && sp_kind_reads_slot(
                                    #[trigger] ks[m],
                                    world.infos@[id as int].tag,
                                )))) && (meta.archetype_component_access.writes@.contains(
                                world.infos@[id as int].archetype_component_id,
                            ) <==> (sp_decls_write_slot(
                                decls@,
                                i as int,
                                world.infos@[id as int].tag,
                            ) || (exists|m: int|
                                0 <= m < u + 1 && sp_kind_writes_slot(
                                    #[trigger] ks[m],
                                    world.infos@[id as int].tag,
                                ))))) by {
                                let tg = world.infos@[id as int].tag;
                                let y = world.infos@[id as int].archetype_component_id;
                                if tg == tg0 && id != idt {
                                    crate::world::lemma_tag_unique(*world, id as int, idt as int);
                                }
                                if y == world.infos@[idt as int].archetype_component_id && id
                                    != idt {
                                    crate::world::lemma_arch_unique(*world, id as int, idt as int);
                                }
                                assert(meta.archetype_component_access.reads@.contains(y) <==> (
                                meta_u.archetype_component_access.reads@.contains(y) || (
                                !pk.sp_writes() && y == world.infos@[idt as int].archetype_component_id)));
                                assert(meta.archetype_component_access.writes@.contains(y) <==> (
                                meta_u.archetype_component_access.writes@.contains(y) || (
                                pk.sp_writes() && y == world.infos@[idt as int].archetype_component_id)));
                                if exists|m: int|
                                    0 <= m < u + 1 && sp_kind_reads_slot(#[trigger] ks[m], tg) {
                                    let m = choose|m: int|
                                        0 <= m < u + 1 && sp_kind_reads_slot(#[trigger] ks[m], tg);
                                    if m < u {
                                        assert(exists|m2: int|
                                            0 <= m2 < u && sp_kind_reads_slot(
                                                #[trigger] ks[m2],
                                                tg,
                                            ));
                                    }
                                }
                                if exists|m: int|
                                    0 <= m < u && sp_kind_reads_slot(#[trigger] ks[m], tg) {
                                    let m = choose|m: int|
                                        0 <= m < u && sp_kind_reads_slot(#[trigger] ks[m], tg);
                                    assert(exists|m2: int|
                                        0 <= m2 < u + 1 && sp_kind_reads_slot(
                                            #[trigger] ks[m2],
                                            tg,
                                        ));
                                }
                                if exists|m: int|
                                    0 <= m < u + 1 && sp_kind_writes_slot(#[trigger] ks[m], tg) {
                                    let m = choose|m: int|
                                        0 <= m < u + 1 && sp_kind_writes_slot(
                                            #[trigger] ks[m],
                                            tg,
                                        );
                                    if m < u {
                                        assert(exists|m2: int|
                                            0 <= m2 < u && sp_kind_writes_slot(
                                                #[trigger] ks[m2],
                                                tg,
                                            ));
                                    }
                                }
                                if exists|m: int|
                                    0 <= m < u && sp_kind_writes_slot(#[trigger] ks[m], tg) {
                                    let m = choose|m: int|
                                        0 <= m < u && sp_kind_writes_slot(#[trigger] ks[m], tg);
                                    assert(exists|m2: int|
                                        0 <= m2 < u + 1 && sp_kind_writes_slot(
                                            #[trigger] ks[m2],
                                            tg,
                                        ));
                                }
                                if sp_kind_reads_slot(ks[u as int], tg) {
                                    assert(exists|m2: int|
                                        0 <= m2 < u + 1 && sp_kind_reads_slot(
                                            #[trigger] ks[m2],
                                            tg,
                                        ));
                                }
                                if sp_kind_writes_slot(ks[u as int], tg) {
                                    assert(exists|m2: int|
                                        0 <= m2 < u + 1 && sp_kind_writes_slot(
                                            #[trigger] ks[m2],
                                            tg,
                                        ));
                                }
                            }
                            assert forall|y: usize|
                                #[trigger] meta.archetype_component_access.sp_mentions(
                                    y,
                                ) implies exists|id: int|
                                0 <= id < world.n_resources()
                                    && world.infos@[id].archetype_component_id == y by {
                                if !meta_u.archetype_component_access.sp_mentions(y) {
                                    assert(meta.archetype_component_access.reads@.contains(y)
                                        || meta.archetype_component_access.writes@.contains(y));
                                    assert(meta.archetype_component_access.reads@.contains(y)
                                        <==> (meta_u.archetype_component_access.reads@.contains(y)
                                        || (!pk.sp_writes() && y == world.infos@[idt as int].archetype_component_id)));
                                    assert(meta.archetype_component_access.writes@.contains(y)
                                        <==> (meta_u.archetype_component_access.writes@.contains(
                                        y,
                                    ) || (pk.sp_writes() && y == world.infos@[idt as int].archetype_component_id)));
                                    assert(y == world.infos@[idt as int].archetype_component_id);
                                    assert(world.infos@[idt as int].archetype_component_id == y);
                                }
                            }
                        }
                    }
                    u += 1;
                }
                states.push(ParamStateSlot::Multiplexer(member_states));
                proof {
                    assert forall|k: int|
                        0 <= k < i + 1 implies sp_decl_state_shape(
                        decls@[k],
                        #[trigger] states@[k],
                        *world,
                    ) by {
                        if k < i {
                            assert(sp_decl_state_shape(decls@[k], states@[k], w_pre));
                            match decls@[k] {
                                ParamDecl::Single(kk) => {
                                    match states@[k] {
                                        ParamStateSlot::Single(sk) => {
                                            lemma_state_shape_extends(kk, sk, w_pre, *world);
                                        },
                                        _ => {},
                                    }
                                },
                                ParamDecl::Multiplexer(kks) => {
                                    match states@[k] {
                                        ParamStateSlot::Multiplexer(sts) => {
                                            assert forall|m: int|
                                                0 <= m < kks@.len() implies sp_state_shape(
                                                kks@[m],
                                                #[trigger] sts@[m],
                                                *world,
                                            ) by {
                                                lemma_state_shape_extends(
                                                    kks@[m],
                                                    sts@[m],
                                                    w_pre,
                                                    *world,
                                                );
                                            }
                                        },
                                        _ => {},
                                    }
                                },
                            }
                        }
                    }
                    assert(meta.is_send <==> (meta_pre.is_send && !sp_decl_pins(
                        decls@[i as int],
                    ))) by {
                        if sp_decl_pins(decls@[i as int]) {
                            let m = choose|m: int| 0 <= m < ks.len() && (#[trigger] ks[m]).sp_pins();
                            assert(!(meta_set.is_send && (forall|m2: int|
                                0 <= m2 < ks.len() ==> !(#[trigger] ks[m2]).sp_pins()))
                                ==> !meta.is_send || !meta_set.is_send);
                        }
                    }
                    if sp_slot_level_decls(decls@) {
                        assert(sp_slot_level_decl(decls@[i as int]));
                        assert(!sp_decl_whole_world(decls@[i as int]));
                        lemma_decls_whole_world_one_more(decls@, i as int);
                        assert forall|id: usize|
                            id < world.n_resources() implies ((
                        #[trigger] world.infos@[id as int]) == world.infos@[id as int] && (
                        meta.component_access_set.combined_access.reads@.contains(id)
                            <==> sp_decls_read_slot(
                            decls@,
                            i + 1,
                            world.infos@[id as int].tag,
                        )) && (meta.component_access_set.combined_access.writes@.contains(id)
                            <==> sp_decls_write_slot(
                            decls@,
                            i + 1,
                            world.infos@[id as int].tag,
                        )) && (meta.archetype_component_access.reads@.contains(
                            world.infos@[id as int].archetype_component_id,
                        ) <==> sp_decls_read_slot(
                            decls@,
                            i + 1,
                            world.infos@[id as int].tag,
                        )) && (meta.archetype_component_access.writes@.contains(
                            world.infos@[id as int].archetype_component_id,
                        ) <==> sp_decls_write_slot(
                            decls@,
                            i + 1,
                            world.infos@[id as int].tag,
                        ))) by {
                            let tg = world.infos@[id as int].tag;
                            lemma_decls_read_slot_one_more(decls@, i as int, tg);
                            lemma_decls_write_slot_one_more(decls@, i as int, tg);
                            assert(sp_decl_reads_slot(decls@[i as int], tg) == (exists|m: int|
                                0 <= m < ks.len() && sp_kind_reads_slot(#[trigger] ks[m], tg)));
                            assert(sp_decl_writes_slot(decls@[i as int], tg) == (exists|m: int|
                                0 <= m < ks.len() && sp_kind_writes_slot(#[trigger] ks[m], tg)));
                        }
                        assert(!sp_has_conflict(decls@, i + 1)) by {
                            if sp_has_conflict(decls@, i + 1) {
                                let (a, b) = choose|a: int, b: int|
                                    0 <= a < b < i + 1 && sp_decls_conflict(
                                        #[trigger] decls@[a],
                                        #[trigger] decls@[b],
                                    );
                                if b < i {
                                    assert(sp_has_conflict(decls@, i as int));
                                } else {
                                    assert(sp_decls_conflict(decls@[a], decls@[i as int]));
                                    let m = choose|m: int|
                                        0 <= m < ks.len() && sp_decl_kind_clash(
                                            decls@[a],
                                            #[trigger] ks[m],
                                        );
                                    assert(exists|a2: int|
                                        0 <= a2 < i && sp_decl_kind_clash(
                                            #[trigger] decls@[a2],
                                            ks[m],
                                        ));
                                    assert(false);
                                }
                            }
                        }
                        assert forall|k: int| 0 <= k < i + 1 implies sp_decl_ready(
                            #[trigger] decls@[k],
                            *world,
                        ) by {
                            if k == i {
                                assert(forall|m: int|
                                    0 <= m < ks.len() ==> sp_kind_ready(#[trigger] ks[m], w_set));
                            }
                        }
                    }
                }
            },
        }
        i += 1;
    }
    proof {
        assert(i == decls@.len());
        assert(decls@.skip(i as int) =~= Seq::<ParamDecl>::empty());
    }
    Ok(SystemState { meta, decls, states })
}


/// A non-optional resource handle was fetched for a slot that holds no
/// value: fatal for the invocation, surfaced with the system and the
/// parameter named.
#[derive(Debug)]
pub struct MissingResourceError {
    pub system_name: String,
    pub param_name: String,
}

/// Accessor token of a disjoint-access multiplexer: its members are
/// materialized one at a time through [`SystemState::param_set_get`],
/// which demands exclusive use of this token, so no two member handles of
/// one multiplexer are produced concurrently.
#[derive(Debug)]
pub struct ParamSet {
    pub decl_index: usize,
    pub n_members: usize,
    pub last_change_tick: u32,
    pub change_tick: u32,
}

/// The value one parameter receives for one invocation.
#[derive(Debug)]
pub enum ParamValue {
    ResParam(Res),
    ResOptParam(Option<Res>),
    ResMutParam(ResMut),
    ResMutOptParam(Option<ResMut>),
    NonSendParam(NonSend),
    NonSendOptParam(Option<NonSend>),
    NonSendMutParam(NonSendMut),
    NonSendMutOptParam(Option<NonSendMut>),
    CommandsParam(Commands),
    WholeWorldParam,
    LocalParam(Local),
    RemovedParam(RemovedComponents),
    QueryParam { last_change_tick: u32, change_tick: u32 },
    ChangeTickParam(SystemChangeTick),
    NameParam(SystemName),
    MultiplexerParam(ParamSet),
}

/// Whether fetching this kind must succeed: only a non-optional resource
/// handle over an empty slot fails.
pub open spec fn sp_fetch_ok(kind: ParamKind, state: ParamState, w: World) -> bool {
    match kind {
        ParamKind::ResourceRead { optional, .. } => optional || (state
            matches ParamState::SlotId { component_id } && w.slots@[component_id as int] is Some),
        ParamKind::ResourceWrite { optional, .. } => optional || (state
            matches ParamState::SlotId { component_id } && w.slots@[component_id as int] is Some),
        _ => true,
    }
}

/// What the fetched value of one parameter holds, for every kind: the
/// slot's value and ticks as the store has them, and the system's
/// observation window.
pub open spec fn sp_value_matches(
    kind: ParamKind,
    state: ParamState,
    w: World,
    name: Seq<char>,
    last_change_tick: u32,
    change_tick: u32,
    v: ParamValue,
) -> bool {
    match kind {
        ParamKind::ResourceRead { optional, non_send, .. } => (state
            matches ParamState::SlotId { component_id } && {
            let slot = w.slots@[component_id as int];
            if non_send {
                if optional {
                    v matches ParamValue::NonSendOptParam(o) && (match slot {
                        Some(s) => (o matches Some(h) && h.value == s.value && h.ticks
                            == s.ticks && h.last_change_tick == last_change_tick && h.change_tick
                            == change_tick),
                        None => o is None,
                    })
                } else {
                    slot matches Some(s) ==> (v matches ParamValue::NonSendParam(h) && h.value
                        == s.value && h.ticks == s.ticks && h.last_change_tick == last_change_tick
                        && h.change_tick == change_tick)
                }
            } else {
                if optional {
                    v matches ParamValue::ResOptParam(o) && (match slot {
                        Some(s) => (o matches Some(h) && h.value == s.value && h.added
                            == s.ticks.added && h.changed == s.ticks.changed && h.last_change_tick
                            == last_change_tick && h.change_tick == change_tick),
                        None => o is None,
                    })
                } else {
                    slot matches Some(s) ==> (v matches ParamValue::ResParam(h) && h.value
                        == s.value && h.added == s.ticks.added && h.changed == s.ticks.changed
                        && h.last_change_tick == last_change_tick && h.change_tick == change_tick)
                }
            }
        }),
        ParamKind::ResourceWrite { optional, non_send, .. } => (state
            matches ParamState::SlotId { component_id } && {
            let slot = w.slots@[component_id as int];
            let want = |value: u64, ticks: ComponentTicks| Ticks {
                added: ticks.added,
                changed: ticks.changed,
                last_change_tick,
                change_tick,
            };
            if non_send {
                if optional {
                    v matches ParamValue::NonSendMutOptParam(o) && (match slot {
                        Some(s) => (o matches Some(h) && h.value == s.value && h.ticks == (want(
                            s.value,
                            s.ticks,
                        ))),
                        None => o is None,
                    })
                } else {
                    slot matches Some(s) ==> (v matches ParamValue::NonSendMutParam(h) && h.value
                        == s.value && h.ticks == (want(s.value, s.ticks)))
                }
            } else {
                if optional {
                    v matches ParamValue::ResMutOptParam(o) && (match slot {
                        Some(s) => (o matches Some(h) && h.value == s.value && h.ticks == (want(
                            s.value,
                            s.ticks,
                        ))),
                        None => o is None,
                    })
                } else {
                    slot matches Some(s) ==> (v matches ParamValue::ResMutParam(h) && h.value
                        == s.value && h.ticks == (want(s.value, s.ticks)))
                }
            }
        }),
        ParamKind::CommandQueue => (state matches ParamState::Queue { queue } && v
            matches ParamValue::CommandsParam(c) && c.queue@ == queue@),
        ParamKind::WholeWorld => v matches ParamValue::WholeWorldParam,
        ParamKind::LocalState { .. } => (state matches ParamState::LocalValue { value } && v
            matches ParamValue::LocalParam(l) && l.value == value),
        ParamKind::RemovedRecord { .. } => (state matches ParamState::SlotId { component_id } && v
            matches ParamValue::RemovedParam(rc) && rc.entities@ == w.removed@[component_id as int]@),
        ParamKind::QueryAccess { .. } => (v matches ParamValue::QueryParam {
            last_change_tick: l,
            change_tick: c,
        } && l == last_change_tick && c == change_tick),
        ParamKind::ChangeTick => (v matches ParamValue::ChangeTickParam(t) && t.last_change_tick
            == last_change_tick && t.change_tick == change_tick),
        ParamKind::SystemNameParam => (v matches ParamValue::NameParam(n) && n.name@ == name),
    }
}

/// Copies a pending command list.
fn copy_commands(src: &Vec<Command>) -> (r: Vec<Command>)
    ensures
        r@ == src@,
{
    let mut r: Vec<Command> = Vec::new();
    let mut i: usize = 0;
    while i < src.len()
        invariant
            i <= src@.len(),
            r@ == src@.take(i as int),
        decreases src@.len() - i,
    {
        r.push(src[i]);
        proof {
            assert(r@ =~= src@.take(i + 1));
        }
        i += 1;
    }
    proof {
        assert(src@.take(src@.len() as int) == src@);
    }
    r
}

/// Produces the value of one parameter for this invocation: a fresh,
/// timestamped view of its slot. A non-optional resource parameter whose
/// slot holds no value fails; the optional variant yields an empty result
/// instead.
fn fetch_single_param(
    kind: &ParamKind,
    state: &ParamState,
    system_name: &String,
    last_change_tick: u32,
    world: &World,
    change_tick: u32,
) -> (r: Result<ParamValue, MissingResourceError>)
    requires
        world.inv(),
        sp_state_shape(*kind, *state, *world),
    ensures
        r is Ok <==> sp_fetch_ok(*kind, *state, *world),
        r matches Ok(v) ==> sp_value_matches(
            *kind,
            *state,
            *world,
            system_name@,
            last_change_tick,
            change_tick,
            v,
        ),
        r matches Err(e) ==> (e.system_name@ == system_name@ && e.param_name@ == sp_kind_name(
            *kind,
        )),
{
    match kind {
        ParamKind::ResourceRead { tag: _, name, optional, non_send } => {
            let component_id = match state {
                ParamState::SlotId { component_id } => *component_id,
                _ => {
                    proof {
                        assert(false);
                    }
                    0
                },
            };
            match world.get_resource_with_ticks(component_id) {
                Some((value, added, changed)) => {
                    if *non_send {
                        let h = NonSend {
                            value,
                            ticks: ComponentTicks { added, changed },
                            last_change_tick,
                            change_tick,
                        };
                        if *optional {
                            Ok(ParamValue::NonSendOptParam(Some(h)))
                        } else {
                            Ok(ParamValue::NonSendParam(h))
                        }
                    } else {
                        let h = Res { value, added, changed, last_change_tick, change_tick };
                        if *optional {
                            Ok(ParamValue::ResOptParam(Some(h)))
                        } else {
                            Ok(ParamValue::ResParam(h))
                        }
                    }
                },
                None => {
                    if *optional {
                        if *non_send {
                            Ok(ParamValue::NonSendOptParam(None))
                        } else {
                            Ok(ParamValue::ResOptParam(None))
                        }
                    } else {
                        Err(
                            MissingResourceError {
                                system_name: system_name.clone(),
                                param_name: name.clone(),
                            },
                        )
                    }
                },
            }
        },
        ParamKind::ResourceWrite { tag: _, name, optional, non_send } => {
            let component_id = match state {
                ParamState::SlotId { component_id } => *component_id,
                _ => {
                    proof {
                        assert(false);
                    }
                    0
                },
            };
            match world.get_resource_with_ticks(component_id) {
                Some((value, added, changed)) => {
                    let ticks = Ticks { added, changed, last_change_tick, change_tick };
                    if *non_send {
                        let h = NonSendMut { value, ticks };
                        if *optional {
                            Ok(ParamValue::NonSendMutOptParam(Some(h)))
                        } else {
                            Ok(ParamValue::NonSendMutParam(h))
                        }
                    } else {
                        let h = ResMut { value, ticks };
                        if *optional {
                            Ok(ParamValue::ResMutOptParam(Some(h)))
                        } else {
                            Ok(ParamValue::ResMutParam(h))
                        }
                    }
                },
                None => {
                    if *optional {
                        if *non_send {
                            Ok(ParamValue::NonSendMutOptParam(None))
                        } else {
                            Ok(ParamValue::ResMutOptParam(None))
                        }
                    } else {
                        Err(
                            MissingResourceError {
                                system_name: system_name.clone(),
                                param_name: name.clone(),
                            },
                        )
                    }
                },
            }
        },
        ParamKind::CommandQueue => {
            let queue = match state {
                ParamState::Queue { queue } => copy_commands(queue),
                _ => {
                    proof {
                        assert(false);
                    }
                    Vec::new()
                },
            };
            Ok(ParamValue::CommandsParam(Commands { queue }))
        },
        ParamKind::WholeWorld => Ok(ParamValue::WholeWorldParam),
        ParamKind::LocalState { .. } => {
            let value = match state {
                ParamState::LocalValue { value } => *value,
                _ => {
                    proof {
                        assert(false);
                    }
                    0
                },
            };
            Ok(ParamValue::LocalParam(Local { value }))
        },
        ParamKind::RemovedRecord { .. } => {
            let component_id = match state {
                ParamState::SlotId { component_id } => *component_id,
                _ => {
                    proof {
                        assert(false);
                    }
                    0
                },
            };
            let entities = world.removed_with_id(component_id);
            Ok(ParamValue::RemovedParam(RemovedComponents { entities }))
        },
        ParamKind::QueryAccess { .. } => Ok(
            ParamValue::QueryParam { last_change_tick, change_tick },
        ),
        ParamKind::ChangeTick => Ok(
            ParamValue::ChangeTickParam(SystemChangeTick { last_change_tick, change_tick }),
        ),
        ParamKind::SystemNameParam => Ok(
            ParamValue::NameParam(SystemName { name: system_name.clone() }),
        ),
    }
}


/// Fetch decision for one declaration: the members of a multiplexer are
/// materialized lazily, so only single declarations can fail here.
pub open spec fn sp_decl_fetch_ok(d: ParamDecl, s: ParamStateSlot, w: World) -> bool {
    match d {
        ParamDecl::Single(k) => (s matches ParamStateSlot::Single(st) && sp_fetch_ok(k, st, w)),
        ParamDecl::Multiplexer(_) => true,
    }
}

/// What the fetched value of one declaration holds.
pub open spec fn sp_decl_value_matches(
    d: ParamDecl,
    s: ParamStateSlot,
    w: World,
    name: Seq<char>,
    last_change_tick: u32,
    change_tick: u32,
    v: ParamValue,
    i: int,
) -> bool {
    match d {
        ParamDecl::Single(k) => (s matches ParamStateSlot::Single(st) && sp_value_matches(
            k,
            st,
            w,
            name,
            last_change_tick,
            change_tick,
            v,
        )),
        ParamDecl::Multiplexer(ks) => (v matches ParamValue::MultiplexerParam(ps) && ps.decl_index
            == i && ps.n_members == ks@.len() && ps.last_change_tick == last_change_tick
            && ps.change_tick == change_tick),
    }
}

impl SystemState {
    /// The built system is coherent with the store: every parameter's
    /// persisted state has the shape its declaration demands.
    pub open spec fn sp_ready(self, w: World) -> bool {
        &&& self.meta.inv()
        &&& self.decls@.len() == self.states@.len()
        &&& forall|i: int|
            0 <= i < self.decls@.len() ==> sp_decl_state_shape(
                #[trigger] self.decls@[i],
                self.states@[i],
                w,
            )
    }

    /// Produces every parameter's value for one invocation, left to right.
    /// Succeeds exactly when every non-optional resource parameter's slot
    /// holds a value; the first missing one is reported. To be called only
    /// when no concurrently running system's footprint conflicts with this
    /// system's — which the build-time check lets the scheduler decide.
    pub fn fetch_all(&self, world: &World, change_tick: u32) -> (r: Result<
        Vec<ParamValue>,
        MissingResourceError,
    >)
        requires
            world.inv(),
            self.sp_ready(*world),
        ensures
            r is Ok <==> (forall|i: int|
                0 <= i < self.decls@.len() ==> sp_decl_fetch_ok(
                    #[trigger] self.decls@[i],
                    self.states@[i],
                    *world,
                )),
            r matches Ok(vs) ==> {
                &&& vs@.len() == self.decls@.len()
                &&& forall|i: int|
                    0 <= i < self.decls@.len() ==> sp_decl_value_matches(
                        #[trigger] self.decls@[i],
                        self.states@[i],
                        *world,
                        self.meta.name@,
                        self.meta.last_change_tick,
                        change_tick,
                        vs@[i],
                        i,
                    )
            },
            r matches Err(e) ==> (e.system_name@ == self.meta.name@ && (exists|i: int|
                0 <= i < self.decls@.len() && !sp_decl_fetch_ok(
                    #[trigger] self.decls@[i],
                    self.states@[i],
                    *world,
                ) && (self.decls@[i] matches ParamDecl::Single(k) && e.param_name@ == sp_kind_name(
                    k,
                )))),
    {
        let mut vs: Vec<ParamValue> = Vec::new();
        let mut i: usize = 0;
        while i < self.decls.len()
            invariant
                world.inv(),
                self.sp_ready(*world),
                i <= self.decls@.len(),
                vs@.len() == i,
                forall|j: int|
                    0 <= j < i ==> sp_decl_fetch_ok(
                        #[trigger] self.decls@[j],
                        self.states@[j],
                        *world,
                    ),
                forall|j: int|
                    0 <= j < i ==> sp_decl_value_matches(
                        #[trigger] self.decls@[j],
                        self.states@[j],
                        *world,
                        self.meta.name@,
                        self.meta.last_change_tick,
                        change_tick,
                        vs@[j],
                        j,
                    ),
            decreases self.decls@.len() - i,
        {
            match &self.decls[i] {
                ParamDecl::Single(kind) => {
                    let st = match &self.states[i] {
                        ParamStateSlot::Single(st) => st,
                        ParamStateSlot::Multiplexer(_) => {
                            proof {
                                assert(false);
                            }
                            &ParamState::NoState
                        },
                    };
                    match fetch_single_param(
                        kind,
                        st,
                        &self.meta.name,
                        self.meta.last_change_tick,
                        world,
                        change_tick,
                    ) {
                        Ok(v) => {
                            vs.push(v);
                        },
                        Err(e) => {
                            proof {
                                assert(!sp_decl_fetch_ok(
                                    self.decls@[i as int],
                                    self.states@[i as int],
                                    *world,
                                ));
                                assert(exists|i2: int|
                                    0 <= i2 < self.decls@.len() && !sp_decl_fetch_ok(
                                        #[trigger] self.decls@[i2],
                                        self.states@[i2],
                                        *world,
                                    ) && (self.decls@[i2] matches ParamDecl::Single(k)
                                        && e.param_name@ == sp_kind_name(k)));
                            }
                            return Err(e);
                        },
                    }
                },
                ParamDecl::Multiplexer(kinds) => {
                    let ps = ParamSet {
                        decl_index: i,
                        n_members: kinds.len(),
                        last_change_tick: self.meta.last_change_tick,
                        change_tick,
                    };
                    vs.push(ParamValue::MultiplexerParam(ps));
                },
            }
            i += 1;
        }
        Ok(vs)
    }

    /// Materializes one member of a disjoint-access multiplexer. The
    /// exclusive borrow of the accessor token keeps two members of one
    /// multiplexer from being produced at the same time.
    pub fn param_set_get(&self, set: &mut ParamSet, member: usize, world: &World) -> (r: Result<
        ParamValue,
        MissingResourceError,
    >)
        requires
            world.inv(),
            self.sp_ready(*world),
            old(set).decl_index < self.decls@.len(),
            member < old(set).n_members,
            self.decls@[old(set).decl_index as int] matches ParamDecl::Multiplexer(ks)
                && ks@.len() == old(set).n_members,
        ensures
            *final(set) == *old(set),
            self.decls@[old(set).decl_index as int] matches ParamDecl::Multiplexer(ks) ==> (
            self.states@[old(set).decl_index as int] matches ParamStateSlot::Multiplexer(sts) ==> {
                &&& (r is Ok <==> sp_fetch_ok(ks@[member as int], sts@[member as int], *world))
                &&& (r matches Ok(v) ==> sp_value_matches(
                    ks@[member as int],
                    sts@[member as int],
                    *world,
                    self.meta.name@,
                    old(set).last_change_tick,
                    old(set).change_tick,
                    v,
                ))
                &&& (r matches Err(e) ==> e.param_name@ == sp_kind_name(ks@[member as int]))
            }),
            r matches Err(e) ==> e.system_name@ == self.meta.name@,
    {
        let di = set.decl_index;
        match &self.decls[di] {
            ParamDecl::Multiplexer(kinds) => {
                match &self.states[di] {
                    ParamStateSlot::Multiplexer(sts) => {
                        fetch_single_param(
                            &kinds[member],
                            &sts[member],
                            &self.meta.name,
                            set.last_change_tick,
                            world,
                            set.change_tick,
                        )
                    },
                    ParamStateSlot::Single(_) => {
                        proof {
                            assert(false);
                        }
                        Err(
                            MissingResourceError {
                                system_name: String::new(),
                                param_name: String::new(),
                            },
                        )
                    },
                }
            },
            ParamDecl::Single(_) => {
                proof {
                    assert(false);
                }
                Err(MissingResourceError { system_name: String::new(), param_name: String::new() })
            },
        }
    }

    /// Hands a filled command queue back to its parameter's state, to be
    /// drained by the flush step at the end of the stage.
    pub fn store_commands(&mut self, index: usize, commands: Commands)
        requires
            index < old(self).decls@.len(),
            old(self).decls@.len() == old(self).states@.len(),
            old(self).decls@[index as int] matches ParamDecl::Single(ParamKind::CommandQueue),
        ensures
            final(self).meta == old(self).meta,
            final(self).decls@ == old(self).decls@,
            final(self).states@.len() == old(self).states@.len(),
            final(self).states@[index as int] matches ParamStateSlot::Single(st) && st
                matches ParamState::Queue { queue } && queue@ == commands.queue@,
            forall|j: int|
                0 <= j < old(self).states@.len() && j != index ==> final(self).states@[j] == old(self).states@[j],
    {
        self.states.set(index, ParamStateSlot::Single(ParamState::Queue { queue: commands.queue }));
    }

    /// Persists a local-state parameter's value for the system's next
    /// invocation.
    pub fn store_local(&mut self, index: usize, local: Local)
        requires
            index < old(self).decls@.len(),
            old(self).decls@.len() == old(self).states@.len(),
            old(self).decls@[index as int] matches ParamDecl::Single(ParamKind::LocalState { .. }),
        ensures
            final(self).meta == old(self).meta,
            final(self).decls@ == old(self).decls@,
            final(self).states@.len() == old(self).states@.len(),
            final(self).states@[index as int] matches ParamStateSlot::Single(st) && st
                matches ParamState::LocalValue { value } && value == local.value,
            forall|j: int|
                0 <= j < old(self).states@.len() && j != index ==> final(self).states@[j] == old(self).states@[j],
    {
        self.states.set(
            index,
            ParamStateSlot::Single(ParamState::LocalValue { value: local.value }),
        );
    }
}

/// Write-back step for an exclusive handle: commits the handle's value and
/// ticks into its slot. With the build-time check in force this is the
/// only live access to the slot during the invocation, so the commit
/// cannot race another system.
pub fn commit_exclusive(world: &mut World, component_id: usize, value: u64, ticks: Ticks)
    requires
        old(world).inv(),
        component_id < old(world).n_resources(),
    ensures
        final(world).inv(),
        final(world).infos@ == old(world).infos@,
        final(world).removed@ == old(world).removed@,
        final(world).change_tick == old(world).change_tick,
        final(world).next_archetype_component_id == old(world).next_archetype_component_id,
        final(world).slots@ == old(world).slots@.update(
            component_id as int,
            Some(
                ResourceSlot {
                    value,
                    ticks: ComponentTicks { added: ticks.added, changed: ticks.changed },
                },
            ),
        ),
{
    world.slots.set(
        component_id,
        Some(
            ResourceSlot {
                value,
                ticks: ComponentTicks { added: ticks.added, changed: ticks.changed },
            },
        ),
    );
}


/// Effect of one deferred command on the slot table: writing stamps the
/// current change tick (a slot that held no value also gets a fresh
/// `added` tick); a command naming an unregistered slot does nothing.
pub open spec fn sp_apply_command(
    slots: Seq<Option<ResourceSlot>>,
    c: Command,
    tick: u32,
) -> Seq<Option<ResourceSlot>> {
    match c {
        Command::InsertResource { component_id, value } => {
            if component_id < slots.len() {
                slots.update(
                    component_id as int,
                    Some(
                        ResourceSlot {
                            value,
                            ticks: ComponentTicks {
                                added: match slots[component_id as int] {
                                    Some(s) => s.ticks.added,
                                    None => Tick { tick },
                                },
                                changed: Tick { tick },
                            },
                        },
                    ),
                )
            } else {
                slots
            }
        },
        Command::RemoveResource { component_id } => {
            if component_id < slots.len() {
                slots.update(component_id as int, None::<ResourceSlot>)
            } else {
                slots
            }
        },
    }
}

/// Effect of draining one queue, first command first.
pub open spec fn sp_apply_queue(
    slots: Seq<Option<ResourceSlot>>,
    q: Seq<Command>,
    tick: u32,
) -> Seq<Option<ResourceSlot>>
    decreases q.len(),
{
    if q.len() == 0 {
        slots
    } else {
        sp_apply_queue(sp_apply_command(slots, q[0], tick), q.drop_first(), tick)
    }
}

/// Effect of flushing one parameter's state: only command queues mutate
/// the store.
pub open spec fn sp_apply_state(
    slots: Seq<Option<ResourceSlot>>,
    s: ParamState,
    tick: u32,
) -> Seq<Option<ResourceSlot>> {
    match s {
        ParamState::Queue { queue } => sp_apply_queue(slots, queue@, tick),
        _ => slots,
    }
}

/// Effect of flushing a multiplexer's members in order.
pub open spec fn sp_apply_members(
    slots: Seq<Option<ResourceSlot>>,
    sts: Seq<ParamState>,
    tick: u32,
) -> Seq<Option<ResourceSlot>>
    decreases sts.len(),
{
    if sts.len() == 0 {
        slots
    } else {
        sp_apply_members(sp_apply_state(slots, sts[0], tick), sts.drop_first(), tick)
    }
}

/// Effect of flushing one declaration's state.
pub open spec fn sp_apply_slot(
    slots: Seq<Option<ResourceSlot>>,
    s: ParamStateSlot,
    tick: u32,
) -> Seq<Option<ResourceSlot>> {
    match s {
        ParamStateSlot::Single(st) => sp_apply_state(slots, st, tick),
        ParamStateSlot::Multiplexer(sts) => sp_apply_members(slots, sts@, tick),
    }
}

/// Effect of flushing a whole system's states in declaration order.
pub open spec fn sp_apply_states(
    slots: Seq<Option<ResourceSlot>>,
    states: Seq<ParamStateSlot>,
    tick: u32,
) -> Seq<Option<ResourceSlot>>
    decreases states.len(),
{
    if states.len() == 0 {
        slots
    } else {
        sp_apply_states(sp_apply_slot(slots, states[0], tick), states.drop_first(), tick)
    }
}

proof fn lemma_apply_queue_snoc(slots: Seq<Option<ResourceSlot>>, q: Seq<Command>, c: Command, tick: u32)
    ensures
        sp_apply_queue(slots, q.push(c), tick) == sp_apply_command(
            sp_apply_queue(slots, q, tick),
            c,
            tick,
        ),
    decreases q.len(),
{
    if q.len() == 0 {
        assert(q.push(c)[0] == c);
        assert(q.push(c).drop_first() =~= Seq::<Command>::empty());
        assert(sp_apply_queue(slots, q, tick) == slots);
        assert(sp_apply_queue(slots, q.push(c), tick) == sp_apply_queue(
            sp_apply_command(slots, c, tick),
            Seq::<Command>::empty(),
            tick,
        ));
        assert(sp_apply_queue(sp_apply_command(slots, c, tick), Seq::<Command>::empty(), tick)
            == sp_apply_command(slots, c, tick));
    } else {
        assert(q.push(c)[0] == q[0]);
        assert(q.push(c).drop_first() =~= q.drop_first().push(c));
        lemma_apply_queue_snoc(sp_apply_command(slots, q[0], tick), q.drop_first(), c, tick);
        assert(sp_apply_queue(slots, q.push(c), tick) == sp_apply_queue(
            sp_apply_command(slots, q[0], tick),
            q.drop_first().push(c),
            tick,
        ));
        assert(sp_apply_queue(slots, q, tick) == sp_apply_queue(
            sp_apply_command(slots, q[0], tick),
            q.drop_first(),
            tick,
        ));
    }
}

proof fn lemma_apply_members_snoc(
    slots: Seq<Option<ResourceSlot>>,
    sts: Seq<ParamState>,
    s: ParamState,
    tick: u32,
)
    ensures
        sp_apply_members(slots, sts.push(s), tick) == sp_apply_state(
            sp_apply_members(slots, sts, tick),
            s,
            tick,
        ),
    decreases sts.len(),
{
    if sts.len() == 0 {
        assert(sts.push(s)[0] == s);
        assert(sts.push(s).drop_first() =~= Seq::<ParamState>::empty());
        assert(sp_apply_members(slots, sts, tick) == slots);
        assert(sp_apply_members(slots, sts.push(s), tick) == sp_apply_members(
            sp_apply_state(slots, s, tick),
            Seq::<ParamState>::empty(),
            tick,
        ));
        assert(sp_apply_members(sp_apply_state(slots, s, tick), Seq::<ParamState>::empty(), tick)
            == sp_apply_state(slots, s, tick));
    } else {
        assert(sts.push(s)[0] == sts[0]);
        assert(sts.push(s).drop_first() =~= sts.drop_first().push(s));
        lemma_apply_members_snoc(sp_apply_state(slots, sts[0], tick), sts.drop_first(), s, tick);
        assert(sp_apply_members(slots, sts.push(s), tick) == sp_apply_members(
            sp_apply_state(slots, sts[0], tick),
            sts.drop_first().push(s),
            tick,
        ));
        assert(sp_apply_members(slots, sts, tick) == sp_apply_members(
            sp_apply_state(slots, sts[0], tick),
            sts.drop_first(),
            tick,
        ));
    }
}

proof fn lemma_apply_states_snoc(
    slots: Seq<Option<ResourceSlot>>,
    states: Seq<ParamStateSlot>,
    s: ParamStateSlot,
    tick: u32,
)
    ensures
        sp_apply_states(slots, states.push(s), tick) == sp_apply_slot(
            sp_apply_states(slots, states, tick),
            s,
            tick,
        ),
    decreases states.len(),
{
    if states.len() == 0 {
        assert(states.push(s)[0] == s);
        assert(states.push(s).drop_first() =~= Seq::<ParamStateSlot>::empty());
        assert(sp_apply_states(slots, states, tick) == slots);
        assert(sp_apply_states(slots, states.push(s), tick) == sp_apply_states(
            sp_apply_slot(slots, s, tick),
            Seq::<ParamStateSlot>::empty(),
            tick,
        ));
        assert(sp_apply_states(
            sp_apply_slot(slots, s, tick),
            Seq::<ParamStateSlot>::empty(),
            tick,
        ) == sp_apply_slot(slots, s, tick));
    } else {
        assert(states.push(s)[0] == states[0]);
        assert(states.push(s).drop_first() =~= states.drop_first().push(s));
        lemma_apply_states_snoc(
            sp_apply_slot(slots, states[0], tick),
            states.drop_first(),
            s,
            tick,
        );
        assert(sp_apply_states(slots, states.push(s), tick) == sp_apply_states(
            sp_apply_slot(slots, states[0], tick),
            states.drop_first().push(s),
            tick,
        ));
        assert(sp_apply_states(slots, states, tick) == sp_apply_states(
            sp_apply_slot(slots, states[0], tick),
            states.drop_first(),
            tick,
        ));
    }
}

/// A drained state keeps everything but its pending commands.
pub open spec fn sp_state_cleared(a: ParamState, b: ParamState) -> bool {
    match a {
        ParamState::Queue { .. } => (b matches ParamState::Queue { queue } && queue@.len() == 0),
        ParamState::QueryState { access } => (b matches ParamState::QueryState { access: a2 }
            && a2.access.reads@ == access.access.reads@ && a2.access.writes@
            == access.access.writes@ && a2.access.reads_all == access.access.reads_all
            && a2.access.writes_all == access.access.writes_all && a2.with_filters@
            == access.with_filters@ && a2.without_filters@ == access.without_filters@),
        _ => b == a,
    }
}

/// A drained declaration state keeps everything but pending commands.
pub open spec fn sp_slot_cleared(a: ParamStateSlot, b: ParamStateSlot) -> bool {
    match a {
        ParamStateSlot::Single(sa) => (b matches ParamStateSlot::Single(sb) && sp_state_cleared(
            sa,
            sb,
        )),
        ParamStateSlot::Multiplexer(sas) => (b matches ParamStateSlot::Multiplexer(sbs)
            && sbs@.len() == sas@.len() && (forall|m: int|
            0 <= m < sas@.len() ==> sp_state_cleared(sas@[m], #[trigger] sbs@[m]))),
    }
}

/// Drains one queue into the store, first command first.
#[verifier::loop_isolation(false)]
fn apply_queue(world: &mut World, queue: &Vec<Command>)
    requires
        old(world).inv(),
    ensures
        final(world).inv(),
        final(world).infos@ == old(world).infos@,
        final(world).removed@ == old(world).removed@,
        final(world).change_tick == old(world).change_tick,
        final(world).next_archetype_component_id == old(world).next_archetype_component_id,
        final(world).slots@ == sp_apply_queue(old(world).slots@, queue@, old(world).change_tick),
{
    let ghost base = *world;
    let mut t: usize = 0;
    while t < queue.len()
        invariant
            world.inv(),
            t <= queue@.len(),
            world.infos@ == base.infos@,
            world.removed@ == base.removed@,
            world.change_tick == base.change_tick,
            world.next_archetype_component_id == base.next_archetype_component_id,
            world.slots@ == sp_apply_queue(base.slots@, queue@.take(t as int), base.change_tick),
        decreases queue@.len() - t,
    {
        let ghost pre = world.slots@;
        match queue[t] {
            Command::InsertResource { component_id, value } => {
                if component_id < world.slots.len() {
                    world.insert_resource(component_id, value);
                }
            },
            Command::RemoveResource { component_id } => {
                if component_id < world.slots.len() {
                    let _ = world.remove_resource(component_id);
                }
            },
        }
        proof {
            assert(world.slots@ == sp_apply_command(pre, queue@[t as int], base.change_tick));
            lemma_apply_queue_snoc(
                base.slots@,
                queue@.take(t as int),
                queue@[t as int],
                base.change_tick,
            );
            assert(queue@.take(t + 1) =~= queue@.take(t as int).push(queue@[t as int]));
        }
        t += 1;
    }
    proof {
        assert(queue@.take(queue@.len() as int) == queue@);
    }
}

/// Flushes one parameter state and hands back its drained form.
fn apply_member(world: &mut World, st: &ParamState) -> (r: ParamState)
    requires
        old(world).inv(),
    ensures
        final(world).inv(),
        final(world).infos@ == old(world).infos@,
        final(world).removed@ == old(world).removed@,
        final(world).change_tick == old(world).change_tick,
        final(world).next_archetype_component_id == old(world).next_archetype_component_id,
        final(world).slots@ == sp_apply_state(old(world).slots@, *st, old(world).change_tick),
        sp_state_cleared(*st, r),
{
    match st {
        ParamState::Queue { queue } => {
            apply_queue(world, queue);
            ParamState::Queue { queue: Vec::new() }
        },
        ParamState::SlotId { component_id } => ParamState::SlotId { component_id: *component_id },
        ParamState::LocalValue { value } => ParamState::LocalValue { value: *value },
        ParamState::QueryState { access } => ParamState::QueryState { access: access.duplicate() },
        ParamState::NoState => ParamState::NoState,
    }
}

impl SystemState {
    /// The flush step: drains every parameter's deferred commands into the
    /// store, in declaration order, and clears the queues. Runs with
    /// exclusive access to the store, after all systems of the stage have
    /// fetched.
    #[verifier::loop_isolation(false)]
    pub fn apply_all(&mut self, world: &mut World)
        requires
            old(world).inv(),
        ensures
            final(world).inv(),
            final(world).infos@ == old(world).infos@,
            final(world).removed@ == old(world).removed@,
            final(world).change_tick == old(world).change_tick,
            final(world).next_archetype_component_id == old(world).next_archetype_component_id,
            final(world).slots@ == sp_apply_states(
                old(world).slots@,
                old(self).states@,
                old(world).change_tick,
            ),
            final(self).meta == old(self).meta,
            final(self).decls@ == old(self).decls@,
            final(self).states@.len() == old(self).states@.len(),
            forall|i: int|
                0 <= i < old(self).states@.len() ==> sp_slot_cleared(
                    old(self).states@[i],
                    #[trigger] final(self).states@[i],
                ),
    {
        let ghost w_base = *world;
        let ghost s_base = self.states@;
        let ghost meta_base = self.meta;
        let ghost decls_base = self.decls@;
        let mut i: usize = 0;
        while i < self.states.len()
            invariant
                world.inv(),
                i <= s_base.len(),
                self.states@.len() == s_base.len(),
                self.meta == meta_base,
                self.decls@ == decls_base,
                world.infos@ == w_base.infos@,
                world.removed@ == w_base.removed@,
                world.change_tick == w_base.change_tick,
                world.next_archetype_component_id == w_base.next_archetype_component_id,
                world.slots@ == sp_apply_states(
                    w_base.slots@,
                    s_base.take(i as int),
                    w_base.change_tick,
                ),
                forall|j: int|
                    0 <= j < i ==> sp_slot_cleared(s_base[j], #[trigger] self.states@[j]),
                forall|j: int| i <= j < s_base.len() ==> self.states@[j] == s_base[j],
            decreases s_base.len() - i,
        {
            let ghost pre_slots = world.slots@;
            let drained = match &self.states[i] {
                ParamStateSlot::Single(st) => {
                    let d = apply_member(world, st);
                    ParamStateSlot::Single(d)
                },
                ParamStateSlot::Multiplexer(sts) => {
                    let ghost mem_base = sts@;
                    let mut drained_members: Vec<ParamState> = Vec::new();
                    let mut m: usize = 0;
                    while m < sts.len()
                        invariant
                            world.inv(),
                            m <= mem_base.len(),
                            sts@ == mem_base,
                            world.infos@ == w_base.infos@,
                            world.removed@ == w_base.removed@,
                            world.change_tick == w_base.change_tick,
                            world.next_archetype_component_id
                                == w_base.next_archetype_component_id,
                            world.slots@ == sp_apply_members(
                                pre_slots,
                                mem_base.take(m as int),
                                w_base.change_tick,
                            ),
                            drained_members@.len() == m,
                            forall|k: int|
                                0 <= k < m ==> sp_state_cleared(
                                    mem_base[k],
                                    #[trigger] drained_members@[k],
                                ),
                        decreases mem_base.len() - m,
                    {
                        let d = apply_member(world, &sts[m]);
                        drained_members.push(d);
                        proof {
                            lemma_apply_members_snoc(
                                pre_slots,
                                mem_base.take(m as int),
                                mem_base[m as int],
                                w_base.change_tick,
                            );
                            assert(mem_base.take(m + 1) =~= mem_base.take(m as int).push(
                                mem_base[m as int],
                            ));
                        }
                        m += 1;
                    }
                    proof {
                        assert(mem_base.take(mem_base.len() as int) == mem_base);
                    }
                    ParamStateSlot::Multiplexer(drained_members)
                },
            };
            self.states.set(i, drained);
            proof {
                assert(world.slots@ == sp_apply_slot(pre_slots, s_base[i as int], w_base.change_tick));
                lemma_apply_states_snoc(
                    w_base.slots@,
                    s_base.take(i as int),
                    s_base[i as int],
                    w_base.change_tick,
                );
                assert(s_base.take(i + 1) =~= s_base.take(i as int).push(s_base[i as int]));
                assert(sp_slot_cleared(s_base[i as int], self.states@[i as int]));
            }
            i += 1;
        }
        proof {
            assert(s_base.take(s_base.len() as int) == s_base);
        }
    }
}


/// The storage-location identifiers a new data shape contributes to a
/// filtered footprint: column `c`'s location, for every column whose
/// logical component the footprint reads, considering only the first `n`
/// columns.
pub open spec fn sp_arch_reads_upto(access: FilteredAccess, arch: Archetype, y: usize, n: int) -> bool {
    exists|c: int|
        0 <= c < n && access.access.sp_has_read(#[trigger] arch.components@[c]) && y
            == arch.archetype_component_ids@[c]
}

/// As [`sp_arch_reads_upto`], for written columns.
pub open spec fn sp_arch_writes_upto(access: FilteredAccess, arch: Archetype, y: usize, n: int) -> bool {
    exists|c: int|
        0 <= c < n && access.access.sp_has_write(#[trigger] arch.components@[c]) && y
            == arch.archetype_component_ids@[c]
}

/// The read locations one parameter state claims on a new data shape:
/// only row-scanning parameters track shapes.
pub open spec fn sp_state_arch_reads(st: ParamState, arch: Archetype, y: usize) -> bool {
    st matches ParamState::QueryState { access } && sp_arch_reads_upto(
        access,
        arch,
        y,
        arch.components@.len() as int,
    )
}

/// As [`sp_state_arch_reads`], for written columns.
pub open spec fn sp_state_arch_writes(st: ParamState, arch: Archetype, y: usize) -> bool {
    st matches ParamState::QueryState { access } && sp_arch_writes_upto(
        access,
        arch,
        y,
        arch.components@.len() as int,
    )
}

/// The read locations one declaration's state claims on a new data shape.
pub open spec fn sp_slot_arch_reads(s: ParamStateSlot, arch: Archetype, y: usize) -> bool {
    match s {
        ParamStateSlot::Single(st) => sp_state_arch_reads(st, arch, y),
        ParamStateSlot::Multiplexer(sts) => exists|m: int|
            0 <= m < sts@.len() && sp_state_arch_reads(#[trigger] sts@[m], arch, y),
    }
}

/// As [`sp_slot_arch_reads`], for written columns.
pub open spec fn sp_slot_arch_writes(s: ParamStateSlot, arch: Archetype, y: usize) -> bool {
    match s {
        ParamStateSlot::Single(st) => sp_state_arch_writes(st, arch, y),
        ParamStateSlot::Multiplexer(sts) => exists|m: int|
            0 <= m < sts@.len() && sp_state_arch_writes(#[trigger] sts@[m], arch, y),
    }
}

/// The read locations a whole system's states claim on a new data shape.
pub open spec fn sp_system_arch_reads(states: Seq<ParamStateSlot>, arch: Archetype, y: usize) -> bool {
    exists|i: int| 0 <= i < states.len() && sp_slot_arch_reads(#[trigger] states[i], arch, y)
}

/// As [`sp_system_arch_reads`], for written columns.
pub open spec fn sp_system_arch_writes(states: Seq<ParamStateSlot>, arch: Archetype, y: usize) -> bool {
    exists|i: int| 0 <= i < states.len() && sp_slot_arch_writes(#[trigger] states[i], arch, y)
}

/// Extends the coarse footprint by the locations one row-scanning
/// parameter claims on a new data shape.
#[verifier::loop_isolation(false)]
fn extend_coarse_for_archetype(access: &FilteredAccess, archetype: &Archetype, coarse: &mut Access)
    requires
        archetype.inv(),
        old(coarse).inv(),
    ensures
        final(coarse).inv(),
        final(coarse).reads_all == old(coarse).reads_all,
        final(coarse).writes_all == old(coarse).writes_all,
        forall|y: usize|
            #![trigger final(coarse).reads@.contains(y)]
            #![trigger old(coarse).reads@.contains(y)]
            final(coarse).reads@.contains(y) <==> (old(coarse).reads@.contains(y)
                || sp_arch_reads_upto(*access, *archetype, y, archetype.components@.len() as int)),
        forall|y: usize|
            #![trigger final(coarse).writes@.contains(y)]
            #![trigger old(coarse).writes@.contains(y)]
            final(coarse).writes@.contains(y) <==> (old(coarse).writes@.contains(y)
                || sp_arch_writes_upto(*access, *archetype, y, archetype.components@.len() as int)),
        (forall|y: usize|
            sp_arch_reads_upto(*access, *archetype, y, archetype.components@.len() as int)
                ==> old(coarse).reads@.contains(y)) ==> final(coarse).reads@ == old(
            coarse,
        ).reads@,
        (forall|y: usize|
            sp_arch_writes_upto(*access, *archetype, y, archetype.components@.len() as int)
                ==> old(coarse).writes@.contains(y)) ==> final(coarse).writes@ == old(
            coarse,
        ).writes@,
{
    let ghost base = *coarse;
    let n = archetype.components.len();
    let mut c: usize = 0;
    while c < n
        invariant
            coarse.inv(),
            c <= n,
            n == archetype.components@.len(),
            coarse.reads_all == base.reads_all,
            coarse.writes_all == base.writes_all,
            forall|y: usize|
                #![trigger coarse.reads@.contains(y)]
                coarse.reads@.contains(y) <==> (base.reads@.contains(y) || sp_arch_reads_upto(
                    *access,
                    *archetype,
                    y,
                    c as int,
                )),
            forall|y: usize|
                #![trigger coarse.writes@.contains(y)]
                coarse.writes@.contains(y) <==> (base.writes@.contains(y) || sp_arch_writes_upto(
                    *access,
                    *archetype,
                    y,
                    c as int,
                )),
            ((forall|y: usize|
                sp_arch_reads_upto(*access, *archetype, y, c as int) ==> base.reads@.contains(y))
                ==> coarse.reads@ == base.reads@),
            ((forall|y: usize|
                sp_arch_writes_upto(*access, *archetype, y, c as int) ==> base.writes@.contains(
                    y,
                )) ==> coarse.writes@ == base.writes@),
        decreases n - c,
    {
        let ghost pre = *coarse;
        let comp = archetype.components[c];
        let loc = archetype.archetype_component_ids[c];
        let r = access.access.has_read(comp);
        let w = access.access.has_write(comp);
        if r {
            coarse.add_read(loc);
        }
        if w {
            coarse.add_write(loc);
        }
        proof {
            assert forall|y: usize|
                coarse.reads@.contains(y) <==> (base.reads@.contains(y) || sp_arch_reads_upto(
                    *access,
                    *archetype,
                    y,
                    c + 1,
                )) by {
                assert(pre.reads@.contains(y) <==> (base.reads@.contains(y)
                    || sp_arch_reads_upto(*access, *archetype, y, c as int)));
                if sp_arch_reads_upto(*access, *archetype, y, c + 1) && !sp_arch_reads_upto(
                    *access,
                    *archetype,
                    y,
                    c as int,
                ) {
                    let cc = choose|cc: int|
                        0 <= cc < c + 1 && access.access.sp_has_read(
                            #[trigger] archetype.components@[cc],
                        ) && y == archetype.archetype_component_ids@[cc];
                    assert(cc == c);
                    assert(r && y == loc);
                }
                if sp_arch_reads_upto(*access, *archetype, y, c as int) {
                    let cc = choose|cc: int|
                        0 <= cc < c && access.access.sp_has_read(
                            #[trigger] archetype.components@[cc],
                        ) && y == archetype.archetype_component_ids@[cc];
                    assert(sp_arch_reads_upto(*access, *archetype, y, c + 1));
                }
                if r && y == loc {
                    assert(access.access.sp_has_read(archetype.components@[c as int]));
                    assert(sp_arch_reads_upto(*access, *archetype, y, c + 1));
                }
            }
            assert forall|y: usize|
                coarse.writes@.contains(y) <==> (base.writes@.contains(y) || sp_arch_writes_upto(
                    *access,
                    *archetype,
                    y,
                    c + 1,
                )) by {
                assert(pre.writes@.contains(y) <==> (base.writes@.contains(y)
                    || sp_arch_writes_upto(*access, *archetype, y, c as int)));
                if sp_arch_writes_upto(*access, *archetype, y, c + 1) && !sp_arch_writes_upto(
                    *access,
                    *archetype,
                    y,
                    c as int,
                ) {
                    let cc = choose|cc: int|
                        0 <= cc < c + 1 && access.access.sp_has_write(
                            #[trigger] archetype.components@[cc],
                        ) && y == archetype.archetype_component_ids@[cc];
                    assert(cc == c);
                    assert(w && y == loc);
                }
                if sp_arch_writes_upto(*access, *archetype, y, c as int) {
                    let cc = choose|cc: int|
                        0 <= cc < c && access.access.sp_has_write(
                            #[trigger] archetype.components@[cc],
                        ) && y == archetype.archetype_component_ids@[cc];
                    assert(sp_arch_writes_upto(*access, *archetype, y, c + 1));
                }
                if w && y == loc {
                    assert(access.access.sp_has_write(archetype.components@[c as int]));
                    assert(sp_arch_writes_upto(*access, *archetype, y, c + 1));
                }
            }
            if forall|y: usize|
                sp_arch_reads_upto(*access, *archetype, y, c + 1) ==> base.reads@.contains(y) {
                if r {
                    assert(access.access.sp_has_read(archetype.components@[c as int]));
                    assert(sp_arch_reads_upto(*access, *archetype, loc, c + 1));
                    assert(base.reads@.contains(loc));
                    assert(pre.reads@.contains(loc));
                }
                assert(forall|y: usize|
                    sp_arch_reads_upto(*access, *archetype, y, c as int)
                        ==> base.reads@.contains(y));
                assert(pre.reads@ == base.reads@);
                assert(coarse.reads@ == base.reads@);
            }
            if forall|y: usize|
                sp_arch_writes_upto(*access, *archetype, y, c + 1) ==> base.writes@.contains(y) {
                if w {
                    assert(access.access.sp_has_write(archetype.components@[c as int]));
                    assert(sp_arch_writes_upto(*access, *archetype, loc, c + 1));
                    assert(base.writes@.contains(loc));
                    assert(pre.writes@.contains(loc));
                }
                assert(forall|y: usize|
                    sp_arch_writes_upto(*access, *archetype, y, c as int)
                        ==> base.writes@.contains(y));
                assert(pre.writes@ == base.writes@);
                assert(coarse.writes@ == base.writes@);
            }
        }
        c += 1;
    }
}


impl SystemState {
    /// Called when the store gains a new data shape: every row-scanning
    /// parameter folds the storage locations it touches on that shape into
    /// the system's coarse footprint, members of a multiplexer included.
    /// The coarse footprint is a true set, so a shape contributes each
    /// location at most once however often it is registered.
    #[verifier::loop_isolation(false)]
    pub fn new_archetype(&mut self, archetype: &Archetype)
        requires
            old(self).meta.inv(),
            archetype.inv(),
        ensures
            final(self).meta.inv(),
            final(self).decls@ == old(self).decls@,
            final(self).states@ == old(self).states@,
            final(self).meta.name@ == old(self).meta.name@,
            final(self).meta.component_access_set == old(self).meta.component_access_set,
            final(self).meta.last_change_tick == old(self).meta.last_change_tick,
            final(self).meta.is_send == old(self).meta.is_send,
            final(self).meta.archetype_component_access.reads_all == old(self).meta.archetype_component_access.reads_all,
            final(self).meta.archetype_component_access.writes_all == old(self).meta.archetype_component_access.writes_all,
            forall|y: usize|
                #![trigger final(self).meta.archetype_component_access.reads@.contains(y)]
                #![trigger old(self).meta.archetype_component_access.reads@.contains(y)]
                final(self).meta.archetype_component_access.reads@.contains(y) <==> (old(self).meta.archetype_component_access.reads@.contains(y) || sp_system_arch_reads(
                    old(self).states@,
                    *archetype,
                    y,
                )),
            forall|y: usize|
                #![trigger final(self).meta.archetype_component_access.writes@.contains(y)]
                #![trigger old(self).meta.archetype_component_access.writes@.contains(y)]
                final(self).meta.archetype_component_access.writes@.contains(y) <==> (old(self).meta.archetype_component_access.writes@.contains(y) || sp_system_arch_writes(
                    old(self).states@,
                    *archetype,
                    y,
                )),
            (forall|y: usize|
                sp_system_arch_reads(old(self).states@, *archetype, y) ==> old(self).meta.archetype_component_access.reads@.contains(y)) ==> final(self).meta.archetype_component_access.reads@ == old(self).meta.archetype_component_access.reads@,
            (forall|y: usize|
                sp_system_arch_writes(old(self).states@, *archetype, y) ==> old(self).meta.archetype_component_access.writes@.contains(y)) ==> final(self).meta.archetype_component_access.writes@ == old(self).meta.archetype_component_access.writes@,
    {
        let ghost base = self.meta.archetype_component_access;
        let ghost s_base = self.states@;
        let ghost meta_base = self.meta;
        let ghost decls_base = self.decls@;
        let mut i: usize = 0;
        while i < self.states.len()
            invariant
                self.meta.inv(),
                archetype.inv(),
                i <= s_base.len(),
                self.states@ == s_base,
                self.decls@ == decls_base,
                self.meta.name@ == meta_base.name@,
                self.meta.component_access_set == meta_base.component_access_set,
                self.meta.last_change_tick == meta_base.last_change_tick,
                self.meta.is_send == meta_base.is_send,
                self.meta.archetype_component_access.reads_all == base.reads_all,
                self.meta.archetype_component_access.writes_all == base.writes_all,
                forall|y: usize|
                    #![trigger self.meta.archetype_component_access.reads@.contains(y)]
                    self.meta.archetype_component_access.reads@.contains(y) <==> (
                    base.reads@.contains(y) || sp_system_arch_reads(
                        s_base.take(i as int),
                        *archetype,
                        y,
                    )),
                forall|y: usize|
                    #![trigger self.meta.archetype_component_access.writes@.contains(y)]
                    self.meta.archetype_component_access.writes@.contains(y) <==> (
                    base.writes@.contains(y) || sp_system_arch_writes(
                        s_base.take(i as int),
                        *archetype,
                        y,
                    )),
                ((forall|y: usize|
                    sp_system_arch_reads(s_base.take(i as int), *archetype, y)
                        ==> base.reads@.contains(y))
                    ==> self.meta.archetype_component_access.reads@ == base.reads@),
                ((forall|y: usize|
                    sp_system_arch_writes(s_base.take(i as int), *archetype, y)
                        ==> base.writes@.contains(y))
                    ==> self.meta.archetype_component_access.writes@ == base.writes@),
            decreases s_base.len() - i,
        {
            let ghost pre = self.meta.archetype_component_access;
            match &self.states[i] {
                ParamStateSlot::Single(st) => {
                    match st {
                        ParamState::QueryState { access } => {
                            extend_coarse_for_archetype(
                                access,
                                archetype,
                                &mut self.meta.archetype_component_access,
                            );
                            proof {
                                assert(forall|y: usize|
                                    self.meta.archetype_component_access.reads@.contains(y) <==> (
                                    pre.reads@.contains(y) || sp_slot_arch_reads(
                                        s_base[i as int],
                                        *archetype,
                                        y,
                                    )));
                                assert(forall|y: usize|
                                    self.meta.archetype_component_access.writes@.contains(y) <==> (
                                    pre.writes@.contains(y) || sp_slot_arch_writes(
                                        s_base[i as int],
                                        *archetype,
                                        y,
                                    )));
                            }
                        },
                        _ => {
                            proof {
                                assert(forall|y: usize| !sp_slot_arch_reads(
                                    s_base[i as int],
                                    *archetype,
                                    y,
                                ));
                                assert(forall|y: usize| !sp_slot_arch_writes(
                                    s_base[i as int],
                                    *archetype,
                                    y,
                                ));
                            }
                        },
                    }
                },
                ParamStateSlot::Multiplexer(sts) => {
                    let ghost mem = sts@;
                    let mut m: usize = 0;
                    while m < sts.len()
                        invariant
                            self.meta.inv(),
                            archetype.inv(),
                            m <= mem.len(),
                            sts@ == mem,
                            self.states@ == s_base,
                            self.decls@ == decls_base,
                            self.meta.name@ == meta_base.name@,
                            self.meta.component_access_set == meta_base.component_access_set,
                            self.meta.last_change_tick == meta_base.last_change_tick,
                            self.meta.is_send == meta_base.is_send,
                            self.meta.archetype_component_access.reads_all == base.reads_all,
                            self.meta.archetype_component_access.writes_all == base.writes_all,
                            forall|y: usize|
                                #![trigger self.meta.archetype_component_access.reads@.contains(y)]
                                self.meta.archetype_component_access.reads@.contains(y) <==> (
                                pre.reads@.contains(y) || (exists|k: int|
                                    0 <= k < m && sp_state_arch_reads(
                                        #[trigger] mem[k],
                                        *archetype,
                                        y,
                                    ))),
                            forall|y: usize|
                                #![trigger self.meta.archetype_component_access.writes@.contains(y)]
                                self.meta.archetype_component_access.writes@.contains(y) <==> (
                                pre.writes@.contains(y) || (exists|k: int|
                                    0 <= k < m && sp_state_arch_writes(
                                        #[trigger] mem[k],
                                        *archetype,
                                        y,
                                    ))),
                            ((forall|y: usize|
                                (exists|k: int|
                                    0 <= k < m && sp_state_arch_reads(
                                        #[trigger] mem[k],
                                        *archetype,
                                        y,
                                    )) ==> pre.reads@.contains(y))
                                ==> self.meta.archetype_component_access.reads@ == pre.reads@),
                            ((forall|y: usize|
                                (exists|k: int|
                                    0 <= k < m && sp_state_arch_writes(
                                        #[trigger] mem[k],
                                        *archetype,
                                        y,
                                    )) ==> pre.writes@.contains(y))
                                ==> self.meta.archetype_component_access.writes@ == pre.writes@),
                        decreases mem.len() - m,
                    {
                        let ghost mid = self.meta.archetype_component_access;
                        match &sts[m] {
                            ParamState::QueryState { access } => {
                                extend_coarse_for_archetype(
                                    access,
                                    archetype,
                                    &mut self.meta.archetype_component_access,
                                );
                            },
                            _ => {},
                        }
                        proof {
                            assert forall|y: usize|
                                self.meta.archetype_component_access.reads@.contains(y) <==> (
                                pre.reads@.contains(y) || (exists|k: int|
                                    0 <= k < m + 1 && sp_state_arch_reads(
                                        #[trigger] mem[k],
                                        *archetype,
                                        y,
                                    ))) by {
                                assert(mid.reads@.contains(y) <==> (pre.reads@.contains(y) || (
                                exists|k: int|
                                    0 <= k < m && sp_state_arch_reads(
                                        #[trigger] mem[k],
                                        *archetype,
                                        y,
                                    ))));
                                if exists|k: int|
                                    0 <= k < m + 1 && sp_state_arch_reads(
                                        #[trigger] mem[k],
                                        *archetype,
                                        y,
                                    ) {
                                    let k = choose|k: int|
                                        0 <= k < m + 1 && sp_state_arch_reads(
                                            #[trigger] mem[k],
                                            *archetype,
                                            y,
                                        );
                                }
                            }
                            assert forall|y: usize|
                                self.meta.archetype_component_access.writes@.contains(y) <==> (
                                pre.writes@.contains(y) || (exists|k: int|
                                    0 <= k < m + 1 && sp_state_arch_writes(
                                        #[trigger] mem[k],
                                        *archetype,
                                        y,
                                    ))) by {
                                assert(mid.writes@.contains(y) <==> (pre.writes@.contains(y) || (
                                exists|k: int|
                                    0 <= k < m && sp_state_arch_writes(
                                        #[trigger] mem[k],
                                        *archetype,
                                        y,
                                    ))));
                                if exists|k: int|
                                    0 <= k < m + 1 && sp_state_arch_writes(
                                        #[trigger] mem[k],
                                        *archetype,
                                        y,
                                    ) {
                                    let k = choose|k: int|
                                        0 <= k < m + 1 && sp_state_arch_writes(
                                            #[trigger] mem[k],
                                            *archetype,
                                            y,
                                        );
                                }
                            }
                            if forall|y: usize|
                                (exists|k: int|
                                    0 <= k < m + 1 && sp_state_arch_reads(
                                        #[trigger] mem[k],
                                        *archetype,
                                        y,
                                    )) ==> pre.reads@.contains(y) {
                                assert(forall|y: usize|
                                    (exists|k: int|
                                        0 <= k < m && sp_state_arch_reads(
                                            #[trigger] mem[k],
                                            *archetype,
                                            y,
                                        )) ==> pre.reads@.contains(y));
                                assert(mid.reads@ == pre.reads@);
                                assert forall|y: usize|
                                    sp_state_arch_reads(mem[m as int], *archetype, y) implies
                                    mid.reads@.contains(y) by {
                                    assert(exists|k: int|
                                        0 <= k < m + 1 && sp_state_arch_reads(
                                            #[trigger] mem[k],
                                            *archetype,
                                            y,
                                        ));
                                    assert(pre.reads@.contains(y));
                                }
                                match mem[m as int] {
                                    ParamState::QueryState { access } => {
                                        assert forall|y: usize|
                                            sp_arch_reads_upto(
                                                access,
                                                *archetype,
                                                y,
                                                archetype.components@.len() as int,
                                            ) implies mid.reads@.contains(y) by {
                                            assert(sp_state_arch_reads(
                                                mem[m as int],
                                                *archetype,
                                                y,
                                            ));
                                        }
                                    },
                                    _ => {},
                                }
                                assert(self.meta.archetype_component_access.reads@ == mid.reads@);
                            }
                            if forall|y: usize|
                                (exists|k: int|
                                    0 <= k < m + 1 && sp_state_arch_writes(
                                        #[trigger] mem[k],
                                        *archetype,
                                        y,
                                    )) ==> pre.writes@.contains(y) {
                                assert(forall|y: usize|
                                    (exists|k: int|
                                        0 <= k < m && sp_state_arch_writes(
                                            #[trigger] mem[k],
                                            *archetype,
                                            y,
                                        )) ==> pre.writes@.contains(y));
                                assert(mid.writes@ == pre.writes@);
                                assert forall|y: usize|
                                    sp_state_arch_writes(mem[m as int], *archetype, y) implies
                                    mid.writes@.contains(y) by {
                                    assert(exists|k: int|
                                        0 <= k < m + 1 && sp_state_arch_writes(
                                            #[trigger] mem[k],
                                            *archetype,
                                            y,
                                        ));
                                    assert(pre.writes@.contains(y));
                                }
                                match mem[m as int] {
                                    ParamState::QueryState { access } => {
                                        assert forall|y: usize|
                                            sp_arch_writes_upto(
                                                access,
                                                *archetype,
                                                y,
                                                archetype.components@.len() as int,
                                            ) implies mid.writes@.contains(y) by {
                                            assert(sp_state_arch_writes(
                                                mem[m as int],
                                                *archetype,
                                                y,
                                            ));
                                        }
                                    },
                                    _ => {},
                                }
                                assert(self.meta.archetype_component_access.writes@
                                    == mid.writes@);
                            }
                        }
                        m += 1;
                    }
                    proof {
                        assert forall|y: usize|
                            self.meta.archetype_component_access.reads@.contains(y) <==> (
                            pre.reads@.contains(y) || sp_slot_arch_reads(
                                s_base[i as int],
                                *archetype,
                                y,
                            )) by {}
                        assert forall|y: usize|
                            self.meta.archetype_component_access.writes@.contains(y) <==> (
                            pre.writes@.contains(y) || sp_slot_arch_writes(
                                s_base[i as int],
                                *archetype,
                                y,
                            )) by {}
                    }
                },
            }
            proof {
                assert forall|y: usize|
                    self.meta.archetype_component_access.reads@.contains(y) <==> (
                    base.reads@.contains(y) || sp_system_arch_reads(
                        s_base.take(i + 1),
                        *archetype,
                        y,
                    )) by {
                    assert(self.meta.archetype_component_access.reads@.contains(y) <==> (
                    pre.reads@.contains(y) || sp_slot_arch_reads(s_base[i as int], *archetype, y)));
                    assert(pre.reads@.contains(y) <==> (base.reads@.contains(y)
                        || sp_system_arch_reads(s_base.take(i as int), *archetype, y)));
                    if sp_system_arch_reads(s_base.take(i as int), *archetype, y) {
                        let k = choose|k: int|
                            0 <= k < i && sp_slot_arch_reads(
                                #[trigger] s_base.take(i as int)[k],
                                *archetype,
                                y,
                            );
                        assert(s_base.take(i + 1)[k] == s_base[k]);
                        assert(sp_system_arch_reads(s_base.take(i + 1), *archetype, y));
                    }
                    if sp_slot_arch_reads(s_base[i as int], *archetype, y) {
                        assert(s_base.take(i + 1)[i as int] == s_base[i as int]);
                        assert(sp_system_arch_reads(s_base.take(i + 1), *archetype, y));
                    }
                    if sp_system_arch_reads(s_base.take(i + 1), *archetype, y) {
                        let k = choose|k: int|
                            0 <= k < i + 1 && sp_slot_arch_reads(
                                #[trigger] s_base.take(i + 1)[k],
                                *archetype,
                                y,
                            );
                        if k < i {
                            assert(s_base.take(i as int)[k] == s_base[k]);
                            assert(sp_system_arch_reads(s_base.take(i as int), *archetype, y));
                        } else {
                            assert(sp_slot_arch_reads(s_base[i as int], *archetype, y));
                        }
                    }
                }
                assert forall|y: usize|
                    self.meta.archetype_component_access.writes@.contains(y) <==> (
                    base.writes@.contains(y) || sp_system_arch_writes(
                        s_base.take(i + 1),
                        *archetype,
                        y,
                    )) by {
                    assert(self.meta.archetype_component_access.writes@.contains(y) <==> (
                    pre.writes@.contains(y) || sp_slot_arch_writes(
                        s_base[i as int],
                        *archetype,
                        y,
                    )));
                    assert(pre.writes@.contains(y) <==> (base.writes@.contains(y)
                        || sp_system_arch_writes(s_base.take(i as int), *archetype, y)));
                    if sp_system_arch_writes(s_base.take(i as int), *archetype, y) {
                        let k = choose|k: int|
                            0 <= k < i && sp_slot_arch_writes(
                                #[trigger] s_base.take(i as int)[k],
                                *archetype,
                                y,
                            );
                        assert(s_base.take(i + 1)[k] == s_base[k]);
                        assert(sp_system_arch_writes(s_base.take(i + 1), *archetype, y));
                    }
                    if sp_slot_arch_writes(s_base[i as int], *archetype, y) {
                        assert(s_base.take(i + 1)[i as int] == s_base[i as int]);
                        assert(sp_system_arch_writes(s_base.take(i + 1), *archetype, y));
                    }
                    if sp_system_arch_writes(s_base.take(i + 1), *archetype, y) {
                        let k = choose|k: int|
                            0 <= k < i + 1 && sp_slot_arch_writes(
                                #[trigger] s_base.take(i + 1)[k],
                                *archetype,
                                y,
                            );
                        if k < i {
                            assert(s_base.take(i as int)[k] == s_base[k]);
                            assert(sp_system_arch_writes(s_base.take(i as int), *archetype, y));
                        } else {
                            assert(sp_slot_arch_writes(s_base[i as int], *archetype, y));
                        }
                    }
                }
                if forall|y: usize|
                    sp_system_arch_reads(s_base.take(i + 1), *archetype, y)
                        ==> base.reads@.contains(y) {
                    assert forall|y: usize|
                        sp_system_arch_reads(s_base.take(i as int), *archetype, y) implies
                        base.reads@.contains(y) by {
                        let k = choose|k: int|
                            0 <= k < i && sp_slot_arch_reads(
                                #[trigger] s_base.take(i as int)[k],
                                *archetype,
                                y,
                            );
                        assert(s_base.take(i + 1)[k] == s_base[k]);
                        assert(sp_system_arch_reads(s_base.take(i + 1), *archetype, y));
                    }
                    assert(pre.reads@ == base.reads@);
                    assert forall|y: usize|
                        sp_slot_arch_reads(s_base[i as int], *archetype, y) implies
                        pre.reads@.contains(y) by {
                        assert(s_base.take(i + 1)[i as int] == s_base[i as int]);
                        assert(sp_system_arch_reads(s_base.take(i + 1), *archetype, y));
                    }
                    assert(self.meta.archetype_component_access.reads@ == pre.reads@);
                }
                if forall|y: usize|
                    sp_system_arch_writes(s_base.take(i + 1), *archetype, y)
                        ==> base.writes@.contains(y) {
                    assert forall|y: usize|
                        sp_system_arch_writes(s_base.take(i as int), *archetype, y) implies
                        base.writes@.contains(y) by {
                        let k = choose|k: int|
                            0 <= k < i && sp_slot_arch_writes(
                                #[trigger] s_base.take(i as int)[k],
                                *archetype,
                                y,
                            );
                        assert(s_base.take(i + 1)[k] == s_base[k]);
                        assert(sp_system_arch_writes(s_base.take(i + 1), *archetype, y));
                    }
                    assert(pre.writes@ == base.writes@);
                    assert forall|y: usize|
                        sp_slot_arch_writes(s_base[i as int], *archetype, y) implies
                        pre.writes@.contains(y) by {
                        assert(s_base.take(i + 1)[i as int] == s_base[i as int]);
                        assert(sp_system_arch_writes(s_base.take(i + 1), *archetype, y));
                    }
                    assert(self.meta.archetype_component_access.writes@ == pre.writes@);
                }
            }
            i += 1;
        }
        proof {
            assert(s_base.take(s_base.len() as int) == s_base);
        }
    }
}

/// Registering the same data shape twice never duplicates footprint
/// entries: the first registration's footprint already holds everything
/// the shape contributes, so the second registration leaves the coarse
/// coordinate set exactly as it was.
pub proof fn lemma_new_archetype_idempotent(
    before: SystemMeta,
    once: SystemMeta,
    twice: SystemMeta,
    states: Seq<ParamStateSlot>,
    arch: Archetype,
)
    requires
        forall|y: usize|
            #![trigger once.archetype_component_access.reads@.contains(y)]
            #![trigger before.archetype_component_access.reads@.contains(y)]
            once.archetype_component_access.reads@.contains(y) <==> (
            before.archetype_component_access.reads@.contains(y) || sp_system_arch_reads(
                states,
                arch,
                y,
            )),
        forall|y: usize|
            #![trigger once.archetype_component_access.writes@.contains(y)]
            #![trigger before.archetype_component_access.writes@.contains(y)]
            once.archetype_component_access.writes@.contains(y) <==> (
            before.archetype_component_access.writes@.contains(y) || sp_system_arch_writes(
                states,
                arch,
                y,
            )),
        (forall|y: usize|
            sp_system_arch_reads(states, arch, y)
                ==> once.archetype_component_access.reads@.contains(y))
            ==> twice.archetype_component_access.reads@
            == once.archetype_component_access.reads@,
        (forall|y: usize|
            sp_system_arch_writes(states, arch, y)
                ==> once.archetype_component_access.writes@.contains(y))
            ==> twice.archetype_component_access.writes@
            == once.archetype_component_access.writes@,
    ensures
        twice.archetype_component_access.reads@ == once.archetype_component_access.reads@,
        twice.archetype_component_access.writes@ == once.archetype_component_access.writes@,
{
    assert(forall|y: usize|
        sp_system_arch_reads(states, arch, y)
            ==> once.archetype_component_access.reads@.contains(y));
    assert(forall|y: usize|
        sp_system_arch_writes(states, arch, y)
            ==> once.archetype_component_access.writes@.contains(y));
}

} // verus!
