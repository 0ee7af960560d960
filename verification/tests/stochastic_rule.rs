use gridworld_vi::actions::generate_actions;
use gridworld_vi::engine::sampled_value;
use gridworld_vi::engine::solve;
use gridworld_vi::engine::Config;
use gridworld_vi::engine::CostModel;
use gridworld_vi::engine::Outcome;
use gridworld_vi::engine::UpdateRule;
use gridworld_vi::grids::Grid2;
use gridworld_vi::grids::Grid3;
use gridworld_vi::rng::SeededRng;

const SCALE: i64 = 1_000_000;
const UNKNOWN: i64 = -100_000_000;

fn stochastic_config(seed: u64) -> Config {
    Config {
        grid_size: 12,
        heading_count: 2,
        discount_factor: SCALE,
        convergence_threshold: 1_000,
        max_iterations: 40,
        update_rule: UpdateRule::StochasticSampledBackup,
        cost_model: CostModel::RewardMinusMoveCost,
        sample_count: 1,
        random_seed: seed,
    }
}

#[test]
fn seeded_generator_is_reproducible() {
    let mut a = SeededRng::new(42);
    let mut b = SeededRng::new(42);
    for _ in 0..100 {
        assert_eq!(a.next_u64(), b.next_u64());
    }
}

#[test]
fn bounded_draws_stay_below_bound() {
    let mut rng = SeededRng::new(7);
    for _ in 0..1000 {
        assert!(rng.next_below(10) < 10);
    }
}

#[test]
fn sampled_value_on_uniform_tables_is_exact() {
    // With a uniform reward and a uniform old table, every sampled backup
    // is the same, so the average is exact whatever the sample path.
    let rewards = Grid2::filled(12, 12, -SCALE);
    let values = Grid3::filled(12, 12, 1, UNKNOWN);
    let actions = generate_actions();
    let mut rng = SeededRng::new(123);
    let v = sampled_value(5, 5, 0, SCALE, 12, 1, 3, &actions, &values, &rewards, &mut rng);
    assert_eq!(v, -101_000_000);
}

#[test]
fn sampled_value_is_a_function_of_the_seed() {
    let rewards = Grid2::filled(12, 12, -SCALE);
    let mut values = Grid3::filled(12, 12, 1, UNKNOWN);
    // make backups differ per action so the sample path matters
    values.set(5, 6, 0, -1_000_000);
    values.set(6, 5, 0, -2_000_000);
    let actions = generate_actions();
    let mut rng_a = SeededRng::new(99);
    let mut rng_b = SeededRng::new(99);
    let va = sampled_value(5, 5, 0, SCALE, 12, 1, 4, &actions, &values, &rewards, &mut rng_a);
    let vb = sampled_value(5, 5, 0, SCALE, 12, 1, 4, &actions, &values, &rewards, &mut rng_b);
    assert_eq!(va, vb);
}

#[test]
fn stochastic_run_with_fixed_seed_is_deterministic() {
    let cfg = stochastic_config(2024);
    let first = solve(&cfg).unwrap();
    let second = solve(&cfg).unwrap();
    assert_eq!(first.result, second.result);
    for i in 0..12 {
        for j in 0..12 {
            for t in 0..2 {
                assert_eq!(first.values.get(i, j, t), second.values.get(i, j, t));
            }
        }
    }
}

#[test]
fn stochastic_run_pins_goal_and_stays_non_positive() {
    let cfg = stochastic_config(5);
    let sol = solve(&cfg).unwrap();
    assert!(matches!(sol.result.outcome, Outcome::Converged | Outcome::MaxIterExceeded));
    for t in 0..2 {
        assert_eq!(sol.values.get(1, 1, t), 0);
    }
    for i in 0..12 {
        for j in 0..12 {
            for t in 0..2 {
                assert!(sol.values.get(i, j, t) <= 0);
            }
        }
    }
}
