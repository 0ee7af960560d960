use gridworld_vi::actions::generate_actions;
use gridworld_vi::engine::calculate_value;
use gridworld_vi::engine::heading_slice;
use gridworld_vi::engine::solve;
use gridworld_vi::engine::value_iteration;
use gridworld_vi::engine::Config;
use gridworld_vi::engine::ConfigError;
use gridworld_vi::engine::CostModel;
use gridworld_vi::engine::Outcome;
use gridworld_vi::engine::UpdateRule;
use gridworld_vi::grids::Grid2;
use gridworld_vi::grids::Grid3;
use gridworld_vi::rewards::build_reward_map;
use gridworld_vi::rewards::initialize_goal_values;

const SCALE: i64 = 1_000_000;
const UNKNOWN: i64 = -100_000_000;

fn exact_config(size: usize, headings: usize) -> Config {
    Config {
        grid_size: size,
        heading_count: headings,
        discount_factor: SCALE,
        convergence_threshold: 1_000,
        max_iterations: 500,
        update_rule: UpdateRule::ExactMaxBackup,
        cost_model: CostModel::RewardMinusMoveCost,
        sample_count: 1,
        random_seed: 0,
    }
}

#[test]
fn validate_accepts_a_sound_config() {
    assert_eq!(exact_config(12, 1).validate(), Ok(()));
}

#[test]
fn validate_rejects_each_bad_field() {
    let base = exact_config(12, 1);
    let mut c = base;
    c.grid_size = 11;
    assert_eq!(c.validate(), Err(ConfigError::GridTooSmall));
    let mut c = base;
    c.grid_size = 100_000;
    assert_eq!(c.validate(), Err(ConfigError::GridTooLarge));
    let mut c = base;
    c.heading_count = 0;
    assert_eq!(c.validate(), Err(ConfigError::NoHeadings));
    let mut c = base;
    c.heading_count = 100_000;
    assert_eq!(c.validate(), Err(ConfigError::TooManyHeadings));
    let mut c = base;
    c.discount_factor = 0;
    assert_eq!(c.validate(), Err(ConfigError::DiscountOutOfRange));
    let mut c = base;
    c.discount_factor = SCALE + 1;
    assert_eq!(c.validate(), Err(ConfigError::DiscountOutOfRange));
    let mut c = base;
    c.convergence_threshold = 0;
    assert_eq!(c.validate(), Err(ConfigError::ThresholdNotPositive));
    let mut c = base;
    c.max_iterations = 0;
    assert_eq!(c.validate(), Err(ConfigError::NoIterations));
    let mut c = base;
    c.max_iterations = 40_000_000;
    assert_eq!(c.validate(), Err(ConfigError::TooManyIterations));
    let mut c = base;
    c.update_rule = UpdateRule::StochasticSampledBackup;
    c.sample_count = 0;
    assert_eq!(c.validate(), Err(ConfigError::NoSamples));
    let mut c = base;
    c.update_rule = UpdateRule::StochasticSampledBackup;
    c.sample_count = 2_000_000;
    assert_eq!(c.validate(), Err(ConfigError::TooManySamples));
}

#[test]
fn solve_rejects_invalid_config() {
    let mut c = exact_config(12, 1);
    c.grid_size = 4;
    assert!(matches!(solve(&c), Err(ConfigError::GridTooSmall)));
}

#[test]
fn calculate_value_exact_undiscounted() {
    let rewards = Grid2::filled(12, 12, -SCALE);
    let values = Grid3::filled(12, 12, 1, UNKNOWN);
    // straight move: reward -1 + old value -100 - cost 1
    let v = calculate_value(5, 5, 0, SCALE, 12, 1, (0, 1, 0), &values, &rewards);
    assert_eq!(v, -102_000_000);
    // diagonal move costs sqrt(2)
    let v = calculate_value(5, 5, 0, SCALE, 12, 1, (1, 1, 0), &values, &rewards);
    assert_eq!(v, -102_414_214);
}

#[test]
fn calculate_value_exact_discounted() {
    let rewards = Grid2::filled(12, 12, -SCALE);
    let values = Grid3::filled(12, 12, 1, UNKNOWN);
    // gamma one half: reward -1 + discounted value -50 - cost 1
    let v = calculate_value(5, 5, 0, 500_000, 12, 1, (0, 1, 0), &values, &rewards);
    assert_eq!(v, -52_000_000);
}

#[test]
fn uniform_grid_converges_to_king_move_distances() {
    // Uniform -1 reward, goal value pinned at (1, 1), no move cost: the
    // fixed point is minus the king-move distance to the goal.
    let mut cfg = exact_config(12, 1);
    cfg.cost_model = CostModel::RewardOnly;
    cfg.convergence_threshold = 1;
    let rewards = Grid2::filled(12, 12, -SCALE);
    let mut values = Grid3::filled(12, 12, 1, UNKNOWN);
    initialize_goal_values(12, 1, &mut values);
    let actions = generate_actions();
    let res = value_iteration(&cfg, &mut values, &rewards, &actions);
    assert_eq!(res.outcome, Outcome::Converged);
    // the goal's four neighbors sit one step of cost from the goal
    assert_eq!(values.get(0, 1, 0), -SCALE);
    assert_eq!(values.get(1, 0, 0), -SCALE);
    assert_eq!(values.get(1, 2, 0), -SCALE);
    assert_eq!(values.get(2, 1, 0), -SCALE);
    // the goal itself stays pinned
    assert_eq!(values.get(1, 1, 0), 0);
    // a diagonal neighbor is also one king move away
    assert_eq!(values.get(0, 0, 0), -SCALE);
    assert_eq!(values.get(2, 2, 0), -SCALE);
    // the far corner is ten king moves away
    assert_eq!(values.get(11, 11, 0), -10 * SCALE);
}

#[test]
fn goal_value_stays_zero_every_iteration() {
    let cfg = exact_config(12, 3);
    let rewards = build_reward_map(12);
    let mut values = Grid3::filled(12, 12, 3, UNKNOWN);
    initialize_goal_values(12, 3, &mut values);
    let actions = generate_actions();
    for t in 0..3 {
        assert_eq!(values.get(1, 1, t), 0);
    }
    let mut one_step = cfg;
    one_step.max_iterations = 1;
    one_step.convergence_threshold = 1;
    for _ in 0..10 {
        value_iteration(&one_step, &mut values, &rewards, &actions);
        for t in 0..3 {
            assert_eq!(values.get(1, 1, t), 0);
        }
    }
}

#[test]
fn per_sweep_delta_never_grows() {
    // With an undiscounted backup, non-positive rewards and an absorbing
    // goal, the per-sweep delta trend is non-increasing.
    let mut one_step = exact_config(12, 2);
    one_step.max_iterations = 1;
    one_step.convergence_threshold = 1;
    let rewards = build_reward_map(12);
    let mut values = Grid3::filled(12, 12, 2, UNKNOWN);
    initialize_goal_values(12, 2, &mut values);
    let actions = generate_actions();
    let mut last = i64::MAX;
    for _ in 0..25 {
        let res = value_iteration(&one_step, &mut values, &rewards, &actions);
        assert!(res.final_delta <= last, "delta grew: {} -> {}", last, res.final_delta);
        last = res.final_delta;
    }
}

#[test]
fn one_more_iteration_after_convergence_stays_within_threshold() {
    let mut cfg = exact_config(12, 1);
    cfg.convergence_threshold = 1_000;
    let rewards = build_reward_map(12);
    let mut values = Grid3::filled(12, 12, 1, UNKNOWN);
    initialize_goal_values(12, 1, &mut values);
    let actions = generate_actions();
    let res = value_iteration(&cfg, &mut values, &rewards, &actions);
    assert_eq!(res.outcome, Outcome::Converged);
    // snapshot, then run exactly one further sweep
    let mut before = Vec::new();
    for i in 0..12 {
        for j in 0..12 {
            before.push(values.get(i, j, 0));
        }
    }
    let mut one_more = cfg;
    one_more.max_iterations = 1;
    let res2 = value_iteration(&one_more, &mut values, &rewards, &actions);
    assert!(res2.final_delta < cfg.convergence_threshold);
    let mut idx = 0;
    for i in 0..12 {
        for j in 0..12 {
            let change = (values.get(i, j, 0) - before[idx]).abs();
            assert!(change < cfg.convergence_threshold);
            idx += 1;
        }
    }
}

#[test]
fn minimum_grid_solves_cleanly() {
    let cfg = exact_config(12, 2);
    let sol = solve(&cfg).unwrap();
    assert!(matches!(sol.result.outcome, Outcome::Converged | Outcome::MaxIterExceeded));
    assert!(sol.result.iterations >= 1 && sol.result.iterations <= cfg.max_iterations);
    for t in 0..2 {
        assert_eq!(sol.values.get(1, 1, t), 0);
    }
    for i in 0..12 {
        for j in 0..12 {
            for t in 0..2 {
                assert!(sol.values.get(i, j, t) <= 0);
            }
        }
    }
}

#[test]
fn solve_full_size_run_matches_pinned_goal() {
    let mut cfg = exact_config(20, 2);
    cfg.convergence_threshold = SCALE + 1;
    let sol = solve(&cfg).unwrap();
    for t in 0..2 {
        assert_eq!(sol.values.get(9, 9, t), 0);
    }
}

#[test]
fn heading_slice_extracts_one_heading() {
    let mut values = Grid3::filled(12, 12, 3, -7);
    values.set(4, 5, 1, -42);
    values.set(4, 5, 0, -13);
    let slice = heading_slice(&values, 12, 3, 1);
    assert_eq!(slice.get(4, 5), -42);
    assert_eq!(slice.get(0, 0), -7);
    let slice0 = heading_slice(&values, 12, 3, 0);
    assert_eq!(slice0.get(4, 5), -13);
}
