use std::time::Duration;

use marketplace_builder::rotating::RotatingData;
use marketplace_builder::rotating::RotatingSet;

#[test]
fn inserted_key_is_contained() {
    let mut set = RotatingSet::new(Duration::from_secs(60));
    assert!(!set.contains(&7u64));
    set.insert(7u64);
    assert!(set.contains(&7u64));
    assert!(!set.contains(&8u64));
}

#[test]
fn key_survives_two_rotations_and_goes_on_the_third() {
    let mut set = RotatingSet::new(Duration::from_secs(60));
    set.insert(1u64);
    set.force_rotate();
    assert!(set.contains(&1));
    set.force_rotate();
    assert!(set.contains(&1));
    set.force_rotate();
    assert!(!set.contains(&1));
}

#[test]
fn reinserted_key_starts_a_new_lifetime() {
    let mut set = RotatingSet::new(Duration::from_secs(60));
    set.insert(5u64);
    set.force_rotate();
    set.force_rotate();
    set.insert(5u64);
    set.force_rotate();
    set.force_rotate();
    assert!(set.contains(&5));
    set.force_rotate();
    assert!(!set.contains(&5));
}

#[test]
fn rotate_waits_for_the_period() {
    let mut set = RotatingSet::new(Duration::from_secs(3600));
    set.insert(2u64);
    assert!(!set.rotate());
    assert!(set.contains(&2));
    assert_eq!(set.period(), Duration::from_secs(3600));
}

#[test]
fn rotate_after_the_period_rotates() {
    let mut set = RotatingSet::new(Duration::from_nanos(1));
    set.insert(3u64);
    let start = std::time::Instant::now();
    while start.elapsed() < Duration::from_millis(2) {}
    assert!(set.rotate());
    assert!(set.contains(&3));
}

#[test]
fn rotate_when_follows_its_argument() {
    let mut set = RotatingSet::new(Duration::from_secs(1));
    set.insert(4u64);
    assert!(!set.rotate_when(false));
    assert!(set.rotate_when(true));
    assert!(set.rotate_when(true));
    assert!(set.contains(&4));
    assert!(set.rotate_when(true));
    assert!(!set.contains(&4));
}

#[test]
fn extend_inserts_every_item() {
    let mut set = RotatingSet::new(Duration::from_secs(1));
    set.extend(vec![10u64, 11, 12]);
    assert!(set.contains(&10) && set.contains(&11) && set.contains(&12));
    let copy = set.duplicate();
    assert!(copy.contains(&11));
}

#[test]
fn new_counter_is_zero() {
    let d: RotatingData<usize> = RotatingData::new();
    assert!(d.is_zero());
    let e: RotatingData<usize> = RotatingData::default();
    assert!(e.is_zero());
}

#[test]
fn counter_cycles_out_after_four_cycles() {
    let d0: RotatingData<usize> = RotatingData::with_initial_value(9);
    assert_eq!(d0.current, 9);
    assert!(!d0.is_zero());
    let d1 = d0.cycle_clone();
    assert_eq!((d1.current, d1.fresh, d1.stale, d1.expiring), (0, 9, 0, 0));
    let d2 = d1.cycle_clone();
    assert_eq!(d2.stale, 9);
    let d3 = d2.cycle_clone();
    assert_eq!(d3.expiring, 9);
    let d4 = d3.cycle_clone();
    assert!(d4.is_zero());
}

#[test]
fn force_rotate_at_records_the_reading() {
    let mut set = RotatingSet::new(Duration::from_secs(60));
    set.insert(1u64);
    let now = std::time::Instant::now() + Duration::from_secs(5);
    set.force_rotate_at(now);
    assert_eq!(*set.last_rotation(), now);
    assert!(set.contains(&1));
}
