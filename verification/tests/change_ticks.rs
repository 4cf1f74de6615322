use ecs_params::handles::{Res, ResMut, Ticks};
use ecs_params::tick::{ComponentTicks, Tick, MAX_CHANGE_AGE};

#[test]
fn tick_equal_to_last_run_is_not_detected() {
    // changed == last_change_tick: not news.
    let t = Tick::new(5);
    assert!(!t.is_older_than(5, 10));
}

#[test]
fn tick_one_past_last_run_is_detected() {
    // changed == last_change_tick + 1 with change_tick > last_change_tick.
    let t = Tick::new(6);
    assert!(t.is_older_than(5, 10));
}

#[test]
fn tick_detection_across_wraparound() {
    // The system last ran just before the counter wrapped; the slot was
    // written after the wrap. The clamped-distance comparison still sees
    // the write as fresh.
    let last = u32::MAX - 1;
    let change = 3u32; // counter wrapped: 5 ticks after `last`
    let written_after = Tick::new(1);
    assert!(written_after.is_older_than(last, change));
    let written_at_last = Tick::new(last);
    assert!(!written_at_last.is_older_than(last, change));
}

#[test]
fn tick_older_than_last_run_is_not_detected() {
    let t = Tick::new(2);
    assert!(!t.is_older_than(5, 10));
}

#[test]
fn tick_ancient_values_clamp_to_max_age() {
    // Both distances clamp to MAX_CHANGE_AGE: equal, so not detected.
    let t = Tick::new(0);
    let change = MAX_CHANGE_AGE.wrapping_add(10);
    assert!(!t.is_older_than(1, change));
}

#[test]
fn component_ticks_added_and_changed() {
    let ticks = ComponentTicks { added: Tick::new(1), changed: Tick::new(7) };
    // last ran at 5, now 10: added at 1 is old, changed at 7 is news.
    assert!(!ticks.is_added(5, 10));
    assert!(ticks.is_changed(5, 10));
}

#[test]
fn res_handle_change_observation() {
    let r = Res {
        value: 9,
        added: Tick::new(6),
        changed: Tick::new(8),
        last_change_tick: 5,
        change_tick: 10,
    };
    assert!(r.is_added());
    assert!(r.is_changed());
    assert_eq!(Res::clone(&r).value, 9);
    assert_eq!(r.into_inner(), 9);
}

#[test]
fn exclusive_to_read_handle_round_trip() {
    // Downgrading an exclusive handle preserves value, both slot ticks and
    // the observation window exactly.
    let m = ResMut {
        value: 77,
        ticks: Ticks {
            added: Tick::new(3),
            changed: Tick::new(4),
            last_change_tick: 2,
            change_tick: 9,
        },
    };
    let r = Res::from(m);
    assert_eq!(r.value, 77);
    assert_eq!(r.added, Tick::new(3));
    assert_eq!(r.changed, Tick::new(4));
    assert_eq!(r.last_change_tick, 2);
    assert_eq!(r.change_tick, 9);
}

#[test]
fn exclusive_write_stamps_changed_tick() {
    let mut m = ResMut {
        value: 1,
        ticks: Ticks {
            added: Tick::new(0),
            changed: Tick::new(0),
            last_change_tick: 4,
            change_tick: 9,
        },
    };
    m.set(2);
    assert_eq!(m.value, 2);
    assert_eq!(m.ticks.changed, Tick::new(9));
    assert!(m.is_changed());
}
