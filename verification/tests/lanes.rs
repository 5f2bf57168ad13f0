use kurv::artifact::GRAIN_LAYERS;
use kurv::lanes::{GrainLanes, LaneState};

fn order_of(lanes: &GrainLanes) -> Vec<usize> {
    (0..lanes.active_count()).map(|k| lanes.active_layer(k)).collect()
}

#[test]
fn new_bank_has_every_layer_idle() {
    let lanes = GrainLanes::new();
    assert_eq!(lanes.active_count(), 0);
    for i in 0..GRAIN_LAYERS {
        assert_eq!(lanes.layer(i), LaneState { active: false, age: 0, length: 0 });
    }
}

#[test]
fn admission_fills_layers_in_index_order_then_refuses() {
    let mut lanes = GrainLanes::new();
    for i in 0..GRAIN_LAYERS {
        assert_eq!(lanes.admit_layer(10 + i as u32), Some(i));
    }
    assert_eq!(lanes.active_count(), GRAIN_LAYERS);
    assert_eq!(lanes.admit_layer(99), None);
    assert_eq!(order_of(&lanes), (0..GRAIN_LAYERS).collect::<Vec<_>>());
    assert_eq!(lanes.layer(3), LaneState { active: true, age: 0, length: 13 });
}

#[test]
fn expiry_swap_removes_from_render_order() {
    let mut lanes = GrainLanes::new();
    assert_eq!(lanes.admit_layer(1), Some(0));
    assert_eq!(lanes.admit_layer(5), Some(1));
    assert_eq!(lanes.admit_layer(5), Some(2));
    assert_eq!(lanes.admit_layer(1), Some(3));
    lanes.age_and_expire();
    // Layer 0 expires and the last entry (3) takes its place; 3 expires too
    // and is dropped, leaving [2, 1].
    assert_eq!(order_of(&lanes), vec![2, 1]);
    assert_eq!(lanes.layer(0), LaneState { active: false, age: 1, length: 1 });
    assert_eq!(lanes.layer(1), LaneState { active: true, age: 1, length: 5 });
    // The freed layers are reused first.
    assert_eq!(lanes.admit_layer(7), Some(0));
    assert_eq!(order_of(&lanes), vec![2, 1, 0]);
}

#[test]
fn aging_expires_exactly_at_length() {
    let mut lanes = GrainLanes::new();
    assert_eq!(lanes.admit_layer(3), Some(0));
    lanes.age_and_expire();
    lanes.age_and_expire();
    assert_eq!(lanes.layer(0), LaneState { active: true, age: 2, length: 3 });
    lanes.age_and_expire();
    assert_eq!(lanes.layer(0), LaneState { active: false, age: 3, length: 3 });
    assert_eq!(lanes.active_count(), 0);
    // An idle layer is not aged further.
    lanes.age_and_expire();
    assert_eq!(lanes.layer(0), LaneState { active: false, age: 3, length: 3 });
}

#[test]
fn restart_keeps_render_position() {
    let mut lanes = GrainLanes::new();
    assert_eq!(lanes.admit_layer(4), Some(0));
    assert_eq!(lanes.admit_layer(4), Some(1));
    lanes.age_and_expire();
    lanes.restart_layer(0, 9);
    assert_eq!(order_of(&lanes), vec![0, 1]);
    assert_eq!(lanes.layer(0), LaneState { active: true, age: 0, length: 9 });
    assert_eq!(lanes.layer(1), LaneState { active: true, age: 1, length: 4 });
}
