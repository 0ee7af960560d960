use gridworld_vi::grids::Grid2;
use gridworld_vi::grids::Grid3;
use gridworld_vi::rewards::build_reward_map;
use gridworld_vi::rewards::initialize_arrays;
use gridworld_vi::rewards::initialize_goal_values;
use gridworld_vi::rewards::set_boundaries;
use gridworld_vi::rewards::set_goal;
use gridworld_vi::rewards::set_obstacles;
use gridworld_vi::rewards::set_puddle;

const BASE: i64 = -1_000_000;
const NEAR: i64 = -5_000_000;
const FAR: i64 = -100_000_000;
const OBSTACLE: i64 = -20_000_000;
const PUDDLE: i64 = -10_000_000;
const UNKNOWN: i64 = -100_000_000;

#[test]
fn initialize_arrays_fills_base_and_unknown() {
    let (rewards, values) = initialize_arrays(12, 3);
    assert_eq!(rewards.get(0, 0), BASE);
    assert_eq!(rewards.get(11, 11), BASE);
    assert_eq!(rewards.get(5, 7), BASE);
    assert_eq!(values.get(0, 0, 0), UNKNOWN);
    assert_eq!(values.get(11, 11, 2), UNKNOWN);
}

#[test]
fn set_goal_pins_goal_cell() {
    let mut rewards = Grid2::filled(12, 12, BASE);
    set_goal(12, &mut rewards);
    assert_eq!(rewards.get(1, 1), 0);
    assert_eq!(rewards.get(1, 2), BASE);
    assert_eq!(rewards.get(0, 0), BASE);
}

#[test]
fn set_boundaries_asymmetric_edges() {
    let mut rewards = Grid2::filled(12, 12, BASE);
    set_boundaries(12, &mut rewards);
    // top and left edges: moderate penalty
    assert_eq!(rewards.get(0, 5), NEAR);
    assert_eq!(rewards.get(5, 0), NEAR);
    // bottom and right edges: severe penalty
    assert_eq!(rewards.get(11, 5), FAR);
    assert_eq!(rewards.get(5, 11), FAR);
    // corners: the moderate edge wins except where both edges are severe
    assert_eq!(rewards.get(0, 0), NEAR);
    assert_eq!(rewards.get(0, 11), NEAR);
    assert_eq!(rewards.get(11, 0), NEAR);
    assert_eq!(rewards.get(11, 11), FAR);
    // interior untouched
    assert_eq!(rewards.get(5, 5), BASE);
}

#[test]
fn set_obstacles_covers_quarter_to_half() {
    let mut rewards = Grid2::filled(12, 12, BASE);
    set_obstacles(12, &mut rewards);
    assert_eq!(rewards.get(3, 3), OBSTACLE);
    assert_eq!(rewards.get(5, 5), OBSTACLE);
    assert_eq!(rewards.get(2, 3), BASE);
    assert_eq!(rewards.get(6, 6), BASE);
}

#[test]
fn set_puddle_adjacent_to_obstacle() {
    let mut rewards = Grid2::filled(12, 12, BASE);
    set_puddle(12, &mut rewards);
    // obstacle ends at 6; puddle is [6, 7) squared for size 12
    assert_eq!(rewards.get(6, 6), PUDDLE);
    assert_eq!(rewards.get(5, 5), BASE);
    assert_eq!(rewards.get(7, 7), BASE);
    assert_eq!(rewards.get(6, 7), BASE);
}

#[test]
fn layered_map_resolves_precedence_size_100() {
    let rewards = build_reward_map(100);
    // goal overrides everything
    assert_eq!(rewards.get(89, 89), 0);
    // boundary
    assert_eq!(rewards.get(0, 50), NEAR);
    assert_eq!(rewards.get(50, 0), NEAR);
    assert_eq!(rewards.get(99, 50), FAR);
    assert_eq!(rewards.get(50, 99), FAR);
    assert_eq!(rewards.get(99, 99), FAR);
    assert_eq!(rewards.get(0, 0), NEAR);
    // obstacle [25, 50) squared
    assert_eq!(rewards.get(25, 25), OBSTACLE);
    assert_eq!(rewards.get(49, 49), OBSTACLE);
    assert_eq!(rewards.get(24, 24), BASE);
    // puddle [50, 62) squared
    assert_eq!(rewards.get(50, 50), PUDDLE);
    assert_eq!(rewards.get(61, 61), PUDDLE);
    assert_eq!(rewards.get(62, 62), BASE);
    // plain interior
    assert_eq!(rewards.get(10, 10), BASE);
}

#[test]
fn every_cell_holds_a_layered_constant() {
    let rewards = build_reward_map(12);
    for i in 0..12 {
        for j in 0..12 {
            let v = rewards.get(i, j);
            assert!(
                v == 0 || v == BASE || v == NEAR || v == FAR || v == OBSTACLE || v == PUDDLE,
                "cell ({i}, {j}) holds {v}"
            );
        }
    }
}

#[test]
fn goal_values_pinned_after_bulk_fill() {
    let mut values = Grid3::filled(12, 12, 4, UNKNOWN);
    initialize_goal_values(12, 4, &mut values);
    for t in 0..4 {
        assert_eq!(values.get(1, 1, t), 0);
    }
    assert_eq!(values.get(1, 2, 0), UNKNOWN);
    assert_eq!(values.get(0, 0, 3), UNKNOWN);
}
