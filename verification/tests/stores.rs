use lift_sim::human_store::{HowMany, HumanStore};
use lift_sim::lift_store::LiftHumanStore;
use lift_sim::transfer::transfer_at_floor;

#[test]
fn adding_within_capacity_never_drops_and_tracks_free_slots() {
    let mut store = LiftHumanStore::create();
    assert_eq!(store.free_capacity(), 6);
    store.add(vec![3, 1, 2, 1]);
    assert_eq!(store.free_capacity(), 2);
    // Slots are re-sorted by destination after the batch.
    let destinations: Vec<i32> =
        store.slots.iter().filter_map(|s| s.0.as_ref().map(|h| h.destination_floor)).collect();
    assert_eq!(destinations, vec![1, 1, 2, 3]);
}

#[test]
fn overflowing_adds_drop_the_surplus_without_panicking() {
    let mut store = LiftHumanStore::create();
    store.add(vec![1, 2, 3, 4, 5, 6, 7, 8]);
    assert_eq!(store.free_capacity(), 0);
    let destinations: Vec<i32> =
        store.slots.iter().filter_map(|s| s.0.as_ref().map(|h| h.destination_floor)).collect();
    assert_eq!(destinations, vec![1, 2, 3, 4, 5, 6]);
}

#[test]
fn take_for_floor_removes_exactly_the_matching_slots() {
    let mut store = LiftHumanStore::create();
    store.add(vec![4, 2, 4, 7]);
    let delivered = store.take_for_floor(4);
    assert_eq!(delivered.len(), 2);
    assert_eq!(store.free_capacity(), 4);
    let destinations: Vec<i32> =
        store.slots.iter().filter_map(|s| s.0.as_ref().map(|h| h.destination_floor)).collect();
    assert_eq!(destinations, vec![2, 7]);
    // Nothing matches a second time.
    assert_eq!(store.take_for_floor(4).len(), 0);
}

#[test]
fn add_single_reports_full_store() {
    let mut store = LiftHumanStore::create();
    for floor in 0..6 {
        assert!(store.add_single(floor, 10_000));
    }
    assert!(!store.add_single(9, 10_000));
    assert_eq!(store.free_capacity(), 0);
}

#[test]
fn patience_ticks_down_with_travel_time() {
    let mut store = LiftHumanStore::create();
    store.add(vec![5]);
    store.tick_patience(4_000);
    let delivered = store.take_for_floor(5);
    // Boarding grants 10 s of patience; 4 s of riding leaves 6 s.
    assert_eq!(delivered, vec![6_000]);
}

#[test]
fn waiting_humans_get_dense_indices_and_leave_newest_first() {
    let mut floor_store = HumanStore::new(3);
    assert!(floor_store.spawn_arrival(8));
    assert!(floor_store.spawn_arrival(5));
    assert!(floor_store.spawn_arrival(9));
    // Capacity gate: a fourth arrival is turned away.
    assert!(!floor_store.spawn_arrival(2));
    let indices: Vec<usize> = floor_store.humans.iter().map(|h| h.position_index.0).collect();
    assert_eq!(indices, vec![0, 1, 2]);

    // Removing two takes the two highest indices, highest first.
    let desires = floor_store.remove_humans(HowMany::N(2));
    assert_eq!(desires, vec![9, 5]);
    let indices: Vec<usize> = floor_store.humans.iter().map(|h| h.position_index.0).collect();
    assert_eq!(indices, vec![0]);

    // Asking for more than remain takes them all; so does All.
    let desires = floor_store.remove_humans(HowMany::N(5));
    assert_eq!(desires, vec![8]);
    assert_eq!(floor_store.remove_humans(HowMany::All), Vec::<i32>::new());
}

#[test]
fn transfer_delivers_then_boards_up_to_free_capacity() {
    let mut held = LiftHumanStore::create();
    held.add(vec![0, 3, 0, 5]);  // two passengers bound for floor 0
    let mut floor_store = HumanStore::new(8);
    for desire in [7, 8, 9, 10, 11, 12] {
        assert!(floor_store.spawn_arrival(desire));
    }

    let delivered = transfer_at_floor(&mut held, &mut floor_store, 0);
    assert_eq!(delivered.len(), 2);
    // After delivering two, four slots were free; four board, newest first.
    assert_eq!(held.free_capacity(), 0);
    let destinations: Vec<i32> =
        held.slots.iter().filter_map(|s| s.0.as_ref().map(|h| h.destination_floor)).collect();
    assert_eq!(destinations, vec![3, 5, 9, 10, 11, 12]);
    // The two oldest waiters stay on the floor.
    let left: Vec<i32> = floor_store.humans.iter().map(|h| h.floor_desire.floor_num).collect();
    assert_eq!(left, vec![7, 8]);
}
