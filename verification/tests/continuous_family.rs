use gridworld_vi::actions::generate_continuous_actions;
use gridworld_vi::actions::next_state_continuous;
use gridworld_vi::actions::rotate_displacement;
use gridworld_vi::actions::TrigTable;
use gridworld_vi::engine::precompute_action_table;
use gridworld_vi::engine::value_iteration_directional;
use gridworld_vi::engine::Config;
use gridworld_vi::engine::CostModel;
use gridworld_vi::engine::Outcome;
use gridworld_vi::engine::UpdateRule;
use gridworld_vi::grids::Grid2;
use gridworld_vi::grids::Grid3;
use gridworld_vi::rewards::initialize_goal_values;

const UNIT: i64 = 1_000_000;

fn right_angle_table() -> TrigTable {
    // headings 0, 90, 180, 270 degrees
    TrigTable {
        sin: vec![0, UNIT, 0, -UNIT],
        cos: vec![UNIT, 0, -UNIT, 0],
    }
}

#[test]
fn trig_table_well_formedness() {
    let table = right_angle_table();
    assert!(table.is_well_formed(4));
    assert!(!table.is_well_formed(3));
    let bad = TrigTable {
        sin: vec![0, 2 * UNIT, 0, 0],
        cos: vec![UNIT, 0, -UNIT, 0],
    };
    assert!(!bad.is_well_formed(4));
}

#[test]
fn rotation_at_cardinal_angles() {
    // heading 0: a forward displacement moves one column
    assert_eq!(rotate_displacement(UNIT, 0, 0, UNIT), (0, 1));
    // heading 90 degrees: the same displacement moves one row
    assert_eq!(rotate_displacement(UNIT, 0, UNIT, 0), (1, 0));
    // heading 180 degrees: it moves one column back
    assert_eq!(rotate_displacement(UNIT, 0, 0, -UNIT), (0, -1));
}

#[test]
fn rotation_rounds_to_nearest_cell() {
    // 45 degrees: sin = cos ~ 0.707107, each axis rounds to one cell
    assert_eq!(rotate_displacement(UNIT, 0, 707_107, 707_107), (1, 1));
    // a half-cell displacement at heading 0 rounds away from zero
    assert_eq!(rotate_displacement(500_000, 0, 0, UNIT), (0, 1));
    assert_eq!(rotate_displacement(-500_000, 0, 0, UNIT), (0, -1));
    // just under half a cell rounds to zero
    assert_eq!(rotate_displacement(499_999, 0, 0, UNIT), (0, 0));
}

#[test]
fn continuous_transition_rotates_by_current_heading() {
    let trig = right_angle_table();
    // facing heading 1 (90 degrees), forward means one row down
    assert_eq!(next_state_continuous(5, 5, 12, 4, 1, (UNIT, 0, 0), &trig), (6, 5, 1));
    // facing heading 0, forward means one column right
    assert_eq!(next_state_continuous(5, 5, 12, 4, 0, (UNIT, 0, 0), &trig), (5, 6, 0));
    // rotation wraps the heading and keeps the cell
    assert_eq!(next_state_continuous(5, 5, 12, 4, 3, (0, 0, 1), &trig), (5, 5, 0));
    // the grid clamps
    assert_eq!(next_state_continuous(11, 11, 12, 4, 1, (UNIT, 0, 0), &trig), (11, 11, 1));
}

#[test]
fn continuous_action_set_shape() {
    let trig = right_angle_table();
    let acts = generate_continuous_actions(4, &trig);
    assert_eq!(acts.len(), 11);
    // one direction per heading, read from the table
    assert_eq!(acts[0], (UNIT, 0, 0));
    assert_eq!(acts[1], (0, UNIT, 0));
    assert_eq!(acts[2], (-UNIT, 0, 0));
    assert_eq!(acts[3], (0, -UNIT, 0));
    // four fixed diagonals
    assert_eq!(acts[4], (UNIT, UNIT, 0));
    assert_eq!(acts[7], (-UNIT, -UNIT, 0));
    // rotations: an eighth turn of 4 headings rounds to one step
    assert_eq!(acts[8], (0, 0, 1));
    assert_eq!(acts[9], (0, 0, -1));
    assert_eq!(acts[10], (0, 0, 1));
}

#[test]
fn directional_run_converges_with_pinned_goal() {
    let cfg = Config {
        grid_size: 12,
        heading_count: 4,
        discount_factor: UNIT,
        convergence_threshold: 1_000,
        max_iterations: 200,
        update_rule: UpdateRule::ExactMaxBackup,
        cost_model: CostModel::RewardOnly,
        sample_count: 1,
        random_seed: 0,
    };
    let trig = right_angle_table();
    let local = generate_continuous_actions(4, &trig);
    let table = precompute_action_table(4, &local, &trig);
    let rewards = Grid2::filled(12, 12, -UNIT);
    let mut values = Grid3::filled(12, 12, 4, -100_000_000);
    initialize_goal_values(12, 4, &mut values);
    let res = value_iteration_directional(&cfg, &mut values, &rewards, &table);
    assert_eq!(res.outcome, Outcome::Converged);
    for t in 0..4 {
        assert_eq!(values.get(1, 1, t), 0);
    }
    // a diagonal neighbor reaches the goal in one move
    assert_eq!(values.get(2, 2, 0), -UNIT);
    for i in 0..12 {
        for j in 0..12 {
            for t in 0..4 {
                assert!(values.get(i, j, t) <= 0);
            }
        }
    }
}
