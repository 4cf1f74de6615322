use ecs_params::access::{FilteredAccess, FilteredAccessSet};
use ecs_params::system_param::{assert_component_access_compatibility, build, ParamDecl, ParamKind};
use ecs_params::world::World;

fn read_of(tag: u64, name: &str) -> ParamDecl {
    ParamDecl::Single(ParamKind::ResourceRead {
        tag,
        name: String::from(name),
        optional: false,
        non_send: false,
    })
}

fn write_of(tag: u64, name: &str) -> ParamDecl {
    ParamDecl::Single(ParamKind::ResourceWrite {
        tag,
        name: String::from(name),
        optional: false,
        non_send: false,
    })
}

fn write_kind(tag: u64, name: &str) -> ParamKind {
    ParamKind::ResourceWrite {
        tag,
        name: String::from(name),
        optional: false,
        non_send: false,
    }
}

#[test]
fn two_writes_on_one_slot_fail_naming_the_type_twice() {
    let mut world = World::new();
    let decls = vec![write_of(1, "R"), write_of(1, "R")];
    let e = build(String::from("sys"), decls, &mut world).unwrap_err();
    assert_eq!(e.system_name, "sys");
    // the offending type is named both as the new parameter and as the
    // conflicting slot
    assert_eq!(e.param_name, "R");
    assert_eq!(e.conflicts, vec![String::from("R")]);
}

#[test]
fn read_then_write_on_one_slot_fails_naming_the_slot() {
    let mut world = World::new();
    let decls = vec![read_of(1, "R"), write_of(1, "R")];
    let e = build(String::from("sys"), decls, &mut world).unwrap_err();
    assert_eq!(e.conflicts, vec![String::from("R")]);
}

#[test]
fn write_then_read_on_one_slot_fails() {
    let mut world = World::new();
    let decls = vec![write_of(1, "R"), read_of(1, "R")];
    assert!(build(String::from("sys"), decls, &mut world).is_err());
}

#[test]
fn read_then_read_on_one_slot_succeeds() {
    let mut world = World::new();
    let decls = vec![read_of(1, "R"), read_of(1, "R")];
    assert!(build(String::from("sys"), decls, &mut world).is_ok());
}

#[test]
fn disjoint_slots_succeed_and_accumulate_the_union() {
    let mut world = World::new();
    let decls = vec![read_of(1, "A"), write_of(2, "B"), read_of(3, "C")];
    let st = build(String::from("sys"), decls, &mut world).unwrap();
    let combined = st.meta.component_access_set.combined_access();
    assert!(combined.has_read(0));
    assert!(!combined.has_write(0));
    assert!(combined.has_write(1));
    assert!(combined.has_read(2));
    assert!(!combined.has_write(2));
}

#[test]
fn multiplexer_tolerates_internal_conflicts() {
    let mut world = World::new();
    let decls = vec![ParamDecl::Multiplexer(vec![write_kind(1, "R"), write_kind(1, "R")])];
    assert!(build(String::from("sys"), decls, &mut world).is_ok());
}

#[test]
fn multiplexer_combined_footprint_still_conflicts_with_outside_reader() {
    // The multiplexer records its whole combined footprint, so a bare
    // reader of the same slot elsewhere in the system still clashes.
    let mut world = World::new();
    let decls = vec![
        ParamDecl::Multiplexer(vec![write_kind(1, "R"), write_kind(1, "R")]),
        read_of(1, "R"),
    ];
    assert!(build(String::from("sys"), decls, &mut world).is_err());

    let mut world2 = World::new();
    let decls2 = vec![
        read_of(1, "R"),
        ParamDecl::Multiplexer(vec![write_kind(1, "R"), write_kind(1, "R")]),
    ];
    assert!(build(String::from("sys"), decls2, &mut world2).is_err());
}

#[test]
fn non_shareable_parameter_pins_the_system() {
    let mut world = World::new();
    let decls = vec![ParamDecl::Single(ParamKind::ResourceRead {
        tag: 1,
        name: String::from("N"),
        optional: false,
        non_send: true,
    })];
    let st = build(String::from("sys"), decls, &mut world).unwrap();
    assert!(!st.meta.is_send());

    let mut world2 = World::new();
    let st2 = build(String::from("sys"), vec![read_of(1, "R")], &mut world2).unwrap();
    assert!(st2.meta.is_send());
}

#[test]
fn whole_world_read_conflicts_with_a_prior_write() {
    let mut world = World::new();
    let decls = vec![write_of(1, "R"), ParamDecl::Single(ParamKind::WholeWorld)];
    let e = build(String::from("sys"), decls, &mut world).unwrap_err();
    assert_eq!(e.param_name, "&World");

    let mut world2 = World::new();
    let decls2 = vec![read_of(1, "R"), ParamDecl::Single(ParamKind::WholeWorld)];
    assert!(build(String::from("sys"), decls2, &mut world2).is_ok());
}

#[test]
fn later_write_conflicts_with_whole_world_read() {
    let mut world = World::new();
    let decls = vec![ParamDecl::Single(ParamKind::WholeWorld), write_of(1, "R")];
    assert!(build(String::from("sys"), decls, &mut world).is_err());
}

#[test]
fn query_footprint_clashes_with_resource_parameter() {
    let mut world = World::new();
    // pre-register so the query's footprint can name the slot by id
    let id = world.initialize_resource(1, String::from("R"));
    let mut qa = FilteredAccess::new();
    qa.add_write(id);
    let decls = vec![
        read_of(1, "R"),
        ParamDecl::Single(ParamKind::QueryAccess { access: qa, name: String::from("Q") }),
    ];
    let e = build(String::from("sys"), decls, &mut world).unwrap_err();
    assert_eq!(e.param_name, "Q");
    assert_eq!(e.conflicts, vec![String::from("R")]);
}

#[test]
fn disjointly_filtered_queries_coexist() {
    let mut world = World::new();
    let id = world.initialize_resource(1, String::from("C"));
    let with7 = {
        let mut f = FilteredAccess::new();
        f.add_write(id);
        f.add_with(7);
        f
    };
    let without7 = {
        let mut f = FilteredAccess::new();
        f.add_write(id);
        f.add_without(7);
        f
    };
    let decls = vec![
        ParamDecl::Single(ParamKind::QueryAccess { access: with7, name: String::from("Q1") }),
        ParamDecl::Single(ParamKind::QueryAccess { access: without7, name: String::from("Q2") }),
    ];
    assert!(build(String::from("sys"), decls, &mut world).is_ok());
}

#[test]
fn registration_is_keyed_by_tag() {
    let mut world = World::new();
    let a = world.initialize_resource(10, String::from("A"));
    let b = world.initialize_resource(11, String::from("B"));
    let a2 = world.initialize_resource(10, String::from("ignored"));
    assert_eq!(a, a2);
    assert_ne!(a, b);
    assert_eq!(world.resource_name(a), "A");
    assert!(!world.is_non_send(a));
    let c = world.initialize_non_send_resource(12, String::from("C"));
    assert!(world.is_non_send(c));
}

#[test]
fn read_only_marker_follows_the_declared_kinds() {
    let reader = ParamDecl::Single(ParamKind::ResourceRead {
        tag: 1,
        name: String::from("R"),
        optional: false,
        non_send: false,
    });
    assert!(reader.is_read_only());
    let writer = ParamDecl::Single(ParamKind::ResourceWrite {
        tag: 1,
        name: String::from("R"),
        optional: false,
        non_send: false,
    });
    assert!(!writer.is_read_only());
    let mixed = ParamDecl::Multiplexer(vec![
        ParamKind::ResourceRead {
            tag: 1,
            name: String::from("R"),
            optional: false,
            non_send: false,
        },
        ParamKind::ResourceWrite {
            tag: 1,
            name: String::from("R"),
            optional: false,
            non_send: false,
        },
    ]);
    assert!(!mixed.is_read_only());
    let mut scan = FilteredAccess::new();
    scan.add_read(0);
    let read_query = ParamDecl::Single(ParamKind::QueryAccess {
        access: scan,
        name: String::from("Q"),
    });
    assert!(read_query.is_read_only());
    let mut mutating = FilteredAccess::new();
    mutating.add_write(0);
    let write_query = ParamDecl::Single(ParamKind::QueryAccess {
        access: mutating,
        name: String::from("Q"),
    });
    assert!(!write_query.is_read_only());
}

#[test]
fn conflict_checker_reports_every_clashing_slot() {
    let mut world = World::new();
    let a = world.initialize_resource(1, String::from("Alpha"));
    let b = world.initialize_resource(2, String::from("Beta"));
    let mut set = FilteredAccessSet::new();
    set.add_unfiltered_write(a);
    set.add_unfiltered_read(b);
    let mut current = FilteredAccess::new();
    current.add_read(a);
    current.add_write(b);
    let e = assert_component_access_compatibility(
        &String::from("sys"),
        &String::from("Q"),
        &String::from("F"),
        &set,
        &current,
        &world,
    )
    .unwrap_err();
    assert_eq!(e.system_name, "sys");
    assert_eq!(e.param_name, "Q");
    assert_eq!(e.filter_name, "F");
    let mut names = e.conflicts.clone();
    names.sort();
    assert_eq!(names, vec![String::from("Alpha"), String::from("Beta")]);

    let mut harmless = FilteredAccess::new();
    harmless.add_read(b);
    assert!(assert_component_access_compatibility(
        &String::from("sys"),
        &String::from("Q"),
        &String::from("F"),
        &set,
        &harmless,
        &world,
    )
    .is_ok());
}

#[test]
fn mixed_slot_level_system_accumulates_both_coordinate_systems() {
    let mut world = World::new();
    let decls = vec![
        ParamDecl::Single(ParamKind::CommandQueue),
        read_of(1, "A"),
        ParamDecl::Single(ParamKind::LocalState { initial: 0 }),
        ParamDecl::Multiplexer(vec![write_kind(2, "B"), write_kind(2, "B")]),
    ];
    let st = build(String::from("sys"), decls, &mut world).unwrap();
    // fine coordinates: read of A's slot, write of B's slot
    let combined = st.meta.component_access_set.combined_access();
    assert!(combined.has_read(0));
    assert!(!combined.has_write(0));
    assert!(combined.has_write(1));
    assert!(!combined.reads_all);
    // coarse coordinates, extended in lockstep
    let arch_a = world.get_resource_archetype_component_id(0);
    let arch_b = world.get_resource_archetype_component_id(1);
    assert!(st.meta.archetype_component_access.has_read(arch_a));
    assert!(!st.meta.archetype_component_access.has_write(arch_a));
    assert!(st.meta.archetype_component_access.has_write(arch_b));
    assert!(!st.meta.archetype_component_access.reads_all);
    assert!(!st.meta.archetype_component_access.writes_all);

    // the whole-store read sets the read-everything sentinel in both
    // coordinate systems
    let mut world2 = World::new();
    let decls2 = vec![read_of(1, "A"), ParamDecl::Single(ParamKind::WholeWorld)];
    let st2 = build(String::from("sys"), decls2, &mut world2).unwrap();
    assert!(st2.meta.component_access_set.combined_access().reads_all);
    assert!(st2.meta.archetype_component_access.reads_all);
}

#[test]
fn resource_registration_extends_both_coordinate_systems_once() {
    // a repeated read adds nothing new to either coordinate set
    let mut world = World::new();
    let decls = vec![read_of(1, "R"), read_of(1, "R")];
    let st = build(String::from("sys"), decls, &mut world).unwrap();
    assert_eq!(st.meta.component_access_set.combined_access().reads.len(), 1);
    assert_eq!(st.meta.archetype_component_access.reads.len(), 1);
}
