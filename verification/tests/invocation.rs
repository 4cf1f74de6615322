use ecs_params::access::FilteredAccess;
use ecs_params::handles::{NonSend, NonSendMut, Ticks};
use ecs_params::system_param::{
    build, commit_exclusive, ParamDecl, ParamKind, ParamValue,
};
use ecs_params::tick::Tick;
use ecs_params::world::{Archetype, World};

fn read_of(tag: u64, name: &str) -> ParamDecl {
    ParamDecl::Single(ParamKind::ResourceRead {
        tag,
        name: String::from(name),
        optional: false,
        non_send: false,
    })
}

fn optional_read_of(tag: u64, name: &str) -> ParamDecl {
    ParamDecl::Single(ParamKind::ResourceRead {
        tag,
        name: String::from(name),
        optional: true,
        non_send: false,
    })
}

#[test]
fn missing_resource_fails_unless_optional() {
    // the slot is registered by the build but never given a value
    let mut world = World::new();
    let st = build(String::from("needy"), vec![read_of(1, "R")], &mut world).unwrap();
    let e = st.fetch_all(&world, 0).unwrap_err();
    assert_eq!(e.system_name, "needy");
    assert_eq!(e.param_name, "R");

    let mut world2 = World::new();
    let st2 = build(String::from("easy"), vec![optional_read_of(1, "R")], &mut world2).unwrap();
    let vs = st2.fetch_all(&world2, 0).unwrap();
    assert!(matches!(vs[0], ParamValue::ResOptParam(None)));
}

#[test]
fn fetched_read_handle_carries_value_and_ticks() {
    let mut world = World::new();
    let st = build(String::from("sys"), vec![read_of(1, "R")], &mut world).unwrap();
    world.increment_change_tick(); // tick 1
    world.insert_resource(0, 42);
    world.increment_change_tick(); // tick 2
    let vs = st.fetch_all(&world, 2).unwrap();
    match &vs[0] {
        ParamValue::ResParam(r) => {
            assert_eq!(r.value, 42);
            // added at tick 1, system last ran at 0, now 2: fresh
            assert!(r.is_added());
            assert!(r.is_changed());
        },
        _ => panic!("expected a read handle"),
    }
}

#[test]
fn exclusive_handle_commits_back_through_the_store() {
    let mut world = World::new();
    let st = build(
        String::from("sys"),
        vec![ParamDecl::Single(ParamKind::ResourceWrite {
            tag: 1,
            name: String::from("R"),
            optional: false,
            non_send: false,
        })],
        &mut world,
    )
    .unwrap();
    world.insert_resource(0, 5);
    let vs = st.fetch_all(&world, 1).unwrap();
    match vs.into_iter().next().unwrap() {
        ParamValue::ResMutParam(mut m) => {
            assert_eq!(m.value, 5);
            m.set(6);
            commit_exclusive(&mut world, 0, m.value, m.ticks);
        },
        _ => panic!("expected an exclusive handle"),
    }
    let (v, _, changed) = world.get_resource_with_ticks(0).unwrap();
    assert_eq!(v, 6);
    assert_eq!(changed.tick, 1);
}

#[test]
fn command_queue_defers_mutations_until_the_flush() {
    let mut world = World::new();
    let id = world.initialize_resource(9, String::from("Counter"));
    let mut st = build(
        String::from("sys"),
        vec![ParamDecl::Single(ParamKind::CommandQueue)],
        &mut world,
    )
    .unwrap();
    let vs = st.fetch_all(&world, 0).unwrap();
    let mut commands = match vs.into_iter().next().unwrap() {
        ParamValue::CommandsParam(c) => c,
        _ => panic!("expected the command buffer"),
    };
    commands.insert_resource(id, 30);
    commands.remove_resource(id);
    commands.insert_resource(id, 31);
    st.store_commands(0, commands);
    // nothing applied yet
    assert!(world.get_resource_with_ticks(id).is_none());
    st.apply_all(&mut world);
    let (v, _, _) = world.get_resource_with_ticks(id).unwrap();
    assert_eq!(v, 31);
    // the queue was drained: a second flush changes nothing
    world.insert_resource(id, 99);
    st.apply_all(&mut world);
    let (v2, _, _) = world.get_resource_with_ticks(id).unwrap();
    assert_eq!(v2, 99);
}

#[test]
fn local_state_persists_across_invocations() {
    let mut world = World::new();
    let mut st = build(
        String::from("sys"),
        vec![ParamDecl::Single(ParamKind::LocalState { initial: 3 })],
        &mut world,
    )
    .unwrap();
    let vs = st.fetch_all(&world, 0).unwrap();
    let mut local = match vs.into_iter().next().unwrap() {
        ParamValue::LocalParam(l) => l,
        _ => panic!("expected local state"),
    };
    assert_eq!(local.get(), 3);
    local.set(44);
    st.store_local(0, local);
    let vs2 = st.fetch_all(&world, 1).unwrap();
    match &vs2[0] {
        ParamValue::LocalParam(l) => assert_eq!(l.get(), 44),
        _ => panic!("expected local state"),
    }
}

#[test]
fn removed_component_records_reach_the_parameter() {
    let mut world = World::new();
    let st = build(
        String::from("sys"),
        vec![ParamDecl::Single(ParamKind::RemovedRecord {
            tag: 2,
            name: String::from("Gone"),
        })],
        &mut world,
    )
    .unwrap();
    world.record_component_removed(0, 101);
    world.record_component_removed(0, 102);
    let vs = st.fetch_all(&world, 0).unwrap();
    match &vs[0] {
        ParamValue::RemovedParam(rc) => assert_eq!(rc.iter(), vec![101, 102]),
        _ => panic!("expected the removed-entity record"),
    }
}

#[test]
fn change_tick_and_name_parameters_report_the_window() {
    let mut world = World::new();
    let st = build(
        String::from("observer"),
        vec![
            ParamDecl::Single(ParamKind::ChangeTick),
            ParamDecl::Single(ParamKind::SystemNameParam),
        ],
        &mut world,
    )
    .unwrap();
    let vs = st.fetch_all(&world, 7).unwrap();
    match &vs[0] {
        ParamValue::ChangeTickParam(t) => {
            assert_eq!(t.change_tick(), 7);
            assert_eq!(t.last_change_tick(), 0);
        },
        _ => panic!("expected the change-tick parameter"),
    }
    match &vs[1] {
        ParamValue::NameParam(n) => assert_eq!(n.name(), "observer"),
        _ => panic!("expected the name parameter"),
    }
}

#[test]
fn multiplexer_members_come_one_at_a_time() {
    let mut world = World::new();
    let w = |name: &str| ParamKind::ResourceWrite {
        tag: 1,
        name: String::from(name),
        optional: false,
        non_send: false,
    };
    let st = build(
        String::from("sys"),
        vec![ParamDecl::Multiplexer(vec![w("R"), w("R")])],
        &mut world,
    )
    .unwrap();
    world.insert_resource(0, 11);
    let vs = st.fetch_all(&world, 1).unwrap();
    let mut set = match vs.into_iter().next().unwrap() {
        ParamValue::MultiplexerParam(ps) => ps,
        _ => panic!("expected the multiplexer"),
    };
    assert_eq!(set.n_members, 2);
    match st.param_set_get(&mut set, 0, &world) {
        Ok(ParamValue::ResMutParam(m)) => assert_eq!(m.value, 11),
        _ => panic!("expected an exclusive handle"),
    }
    match st.param_set_get(&mut set, 1, &world) {
        Ok(ParamValue::ResMutParam(m)) => assert_eq!(m.value, 11),
        _ => panic!("expected an exclusive handle"),
    }
}

#[test]
fn new_archetype_extends_the_coarse_set_once() {
    let mut world = World::new();
    let comp = world.initialize_resource(5, String::from("C"));
    let mut fa = FilteredAccess::new();
    fa.add_read(comp);
    let mut st = build(
        String::from("scanner"),
        vec![ParamDecl::Single(ParamKind::QueryAccess { access: fa, name: String::from("Q") })],
        &mut world,
    )
    .unwrap();
    assert_eq!(st.meta.archetype_component_access.reads.len(), 0);
    let arch = Archetype { components: vec![comp, 77], archetype_component_ids: vec![500, 501] };
    st.new_archetype(&arch);
    assert_eq!(st.meta.archetype_component_access.reads.len(), 1);
    assert!(st.meta.archetype_component_access.has_read(500));
    assert!(!st.meta.archetype_component_access.has_read(501));
    // registering the same shape again duplicates nothing
    st.new_archetype(&arch);
    assert_eq!(st.meta.archetype_component_access.reads.len(), 1);
}

#[test]
fn non_shareable_handles_observe_changes() {
    let mut world = World::new();
    let st = build(
        String::from("pinned"),
        vec![ParamDecl::Single(ParamKind::ResourceRead {
            tag: 3,
            name: String::from("Window"),
            optional: false,
            non_send: true,
        })],
        &mut world,
    )
    .unwrap();
    assert!(!st.meta.is_send());
    world.increment_change_tick(); // tick 1
    world.insert_resource(0, 8);
    let vs = st.fetch_all(&world, 2).unwrap();
    match &vs[0] {
        ParamValue::NonSendParam(h) => {
            assert_eq!(h.value, 8);
            assert!(h.is_added());
            assert!(h.is_changed());
        },
        _ => panic!("expected a non-shareable handle"),
    }
}

#[test]
fn optional_exclusive_handle_is_empty_when_missing() {
    let mut world = World::new();
    let st = build(
        String::from("sys"),
        vec![ParamDecl::Single(ParamKind::ResourceWrite {
            tag: 1,
            name: String::from("R"),
            optional: true,
            non_send: false,
        })],
        &mut world,
    )
    .unwrap();
    let vs = st.fetch_all(&world, 0).unwrap();
    assert!(matches!(vs[0], ParamValue::ResMutOptParam(None)));
}

#[test]
fn non_shareable_exclusive_downgrades_losslessly() {
    let m = NonSendMut {
        value: 13,
        ticks: Ticks {
            added: Tick::new(1),
            changed: Tick::new(2),
            last_change_tick: 0,
            change_tick: 5,
        },
    };
    let r = NonSend::from(m);
    assert_eq!(r.value, 13);
    assert_eq!(r.ticks.added, Tick::new(1));
    assert_eq!(r.ticks.changed, Tick::new(2));
    assert_eq!(r.last_change_tick, 0);
    assert_eq!(r.change_tick, 5);
}

#[test]
fn multiplexer_member_fails_at_access_when_slot_is_empty() {
    let mut world = World::new();
    let st = build(
        String::from("sys"),
        vec![ParamDecl::Multiplexer(vec![ParamKind::ResourceWrite {
            tag: 1,
            name: String::from("R"),
            optional: false,
            non_send: false,
        }])],
        &mut world,
    )
    .unwrap();
    // fetching the multiplexer itself succeeds; the member's slot is only
    // dereferenced when the member is asked for
    let vs = st.fetch_all(&world, 0).unwrap();
    let mut set = match vs.into_iter().next().unwrap() {
        ParamValue::MultiplexerParam(ps) => ps,
        _ => panic!("expected the multiplexer"),
    };
    let e = st.param_set_get(&mut set, 0, &world).unwrap_err();
    assert_eq!(e.system_name, "sys");
    assert_eq!(e.param_name, "R");
}
