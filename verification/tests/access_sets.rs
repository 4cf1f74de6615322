use ecs_params::access::{Access, FilteredAccess, FilteredAccessSet};

#[test]
fn read_read_is_compatible_both_ways() {
    let mut a = Access::new();
    a.add_read(1);
    let mut b = Access::new();
    b.add_read(1);
    assert!(a.is_compatible(&b));
    assert!(b.is_compatible(&a));
}

#[test]
fn write_vs_read_conflicts_both_ways() {
    let mut a = Access::new();
    a.add_write(1);
    let mut b = Access::new();
    b.add_read(1);
    assert!(!a.is_compatible(&b));
    assert!(!b.is_compatible(&a));
}

#[test]
fn write_vs_write_conflicts_symmetrically() {
    let mut a = Access::new();
    a.add_write(4);
    let mut b = Access::new();
    b.add_write(4);
    assert_eq!(a.is_compatible(&b), b.is_compatible(&a));
    assert!(!a.is_compatible(&b));
}

#[test]
fn disjoint_slots_are_compatible() {
    let mut a = Access::new();
    a.add_write(1);
    a.add_read(2);
    let mut b = Access::new();
    b.add_write(3);
    b.add_read(4);
    assert!(a.is_compatible(&b));
    assert!(b.is_compatible(&a));
}

#[test]
fn get_conflicts_names_the_offending_slots() {
    let mut a = Access::new();
    a.add_write(1);
    a.add_read(2);
    let mut b = Access::new();
    b.add_read(1);
    b.add_write(2);
    let mut c = a.get_conflicts(&b);
    c.sort();
    assert_eq!(c, vec![1, 2]);
}

#[test]
fn read_all_conflicts_with_any_write() {
    let mut all = Access::new();
    all.read_all();
    let mut w = Access::new();
    w.add_write(9);
    assert!(!all.is_compatible(&w));
    assert!(!w.is_compatible(&all));
    let mut r = Access::new();
    r.add_read(9);
    assert!(all.is_compatible(&r));
}

#[test]
fn repeated_registration_adds_no_duplicate_entries() {
    // The footprint is a true set: repeating an extension leaves it as is.
    let mut a = Access::new();
    a.add_read(5);
    a.add_write(6);
    let mut delta = Access::new();
    delta.add_read(5);
    delta.add_write(6);
    a.extend(&delta);
    assert_eq!(a.reads.len(), 1);
    assert_eq!(a.writes.len(), 1);
    a.extend(&delta);
    assert_eq!(a.reads.len(), 1);
    assert_eq!(a.writes.len(), 1);
}

#[test]
fn filter_disjointness_rescues_conflicting_accesses() {
    // Both write slot 1, but one requires component 7 and the other
    // excludes it: no row satisfies both, so they are compatible.
    let mut a = FilteredAccess::new();
    a.add_write(1);
    a.add_with(7);
    let mut b = FilteredAccess::new();
    b.add_write(1);
    b.add_without(7);
    assert!(a.is_compatible(&b));
    assert!(b.is_compatible(&a));
    assert_eq!(a.get_conflicts(&b).len(), 0);

    let mut c = FilteredAccess::new();
    c.add_write(1);
    assert!(!a.is_compatible(&c));
    assert_eq!(a.get_conflicts(&c), vec![1]);
}

#[test]
fn filtered_set_accumulates_and_reports_conflicts() {
    let mut set = FilteredAccessSet::new();
    set.add_unfiltered_read(3);
    let mut current = FilteredAccess::new();
    current.add_write(3);
    assert_eq!(set.get_conflicts_single(&current), vec![3]);

    let mut harmless = FilteredAccess::new();
    harmless.add_read(3);
    assert_eq!(set.get_conflicts_single(&harmless).len(), 0);

    set.add_unfiltered_write(4);
    assert!(set.combined_access().has_write(4));
    assert!(set.combined_access().has_read(3));
    assert!(!set.combined_access().has_write(3));
}
