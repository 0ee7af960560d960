//! The value-iteration engine: configuration, the per-state Bellman backup,
//! the convergence loop, and the laws that hold of a sweep.
//!
//! The per-iteration sweep reads only the prior iteration's table (held in a
//! second buffer, swapped each round) and writes every state's new value; the
//! largest absolute change is compared against the convergence threshold
//! (an infinity norm), and the loop stops on convergence or at the iteration
//! cap, the latter being a reported outcome rather than an error.

use vstd::prelude::*;
use crate::grids::Grid2;
use crate::grids::Grid3;
use crate::grids::grid2_at;
use crate::grids::grid2_dim;
use crate::grids::grid3_at;
use crate::grids::grid3_dim;
use crate::rewards::SCALE;
use crate::rewards::REWARD_BOUNDARY_FAR;
use crate::rewards::VALUE_UNKNOWN;
use crate::rewards::GOAL_OFFSET;
use crate::rewards::MIN_GRID_SIZE;
use crate::rewards::is_goal;
use crate::actions::action_bounded;
use crate::actions::next_state_spec;
use crate::actions::next_state;

verus! {

/// Cost of an axis-aligned move or a pure rotation, one whole unit.
pub const COST_STRAIGHT: i64 = 1_000_000;

/// Cost of a diagonal move: the square root of two, in millionths, rounded
/// to the nearest.
pub const COST_DIAGONAL: i64 = 1_414_214;

/// A bound on how far any state's value can fall in one sweep: the worst
/// reward plus the worst move cost, rounded up to a whole number of units.
pub const VALUE_DROP: i64 = 102_000_000;

/// A floor no table value ever crosses: the lowest accepted starting value
/// minus the largest possible drop accumulated over the iteration cap,
/// with slack.
pub const VALUE_FLOOR: i64 = -3_200_000_000_000_000;

/// The lowest starting value the iteration loops accept, so that a table
/// produced by one run can seed another.
pub const VALUE_START_FLOOR: i64 = -1_000_000_000_000;

/// Largest grid size the fixed-point arithmetic is provisioned for.
pub const MAX_GRID_SIZE: usize = 65_536;

/// Largest heading count the fixed-point arithmetic is provisioned for.
pub const MAX_HEADING_COUNT: usize = 65_536;

/// Largest iteration cap for which every value provably stays above
/// [`VALUE_FLOOR`].
pub const MAX_ITERATIONS: usize = 30_000_000;

/// Largest sample count of the stochastic update rule.
pub const MAX_SAMPLE_COUNT: usize = 1_000_000;

/// How a state's new value is computed from the old table.
#[derive(Clone, Copy, PartialEq, Eq, Structural, Debug)]
pub enum UpdateRule {
    /// The exact Bellman optimality backup: the maximum over all actions.
    ExactMaxBackup,
    /// A Monte-Carlo approximation: the average over a fixed number of
    /// actions sampled uniformly at random. This evaluates a random policy
    /// rather than maximizing, and does not in general share the exact
    /// rule's fixed point; it is an intentional exploratory variant.
    StochasticSampledBackup,
}

/// Whether the backup subtracts a per-move cost.
#[derive(Clone, Copy, PartialEq, Eq, Structural, Debug)]
pub enum CostModel {
    /// Subtract one unit per move, √2 units for diagonal moves.
    RewardMinusMoveCost,
    /// Use the reward alone. With this choice the convergence threshold is
    /// compared against pure value changes; the two conventions found in
    /// practice (a tiny threshold versus one offset near a whole unit)
    /// are both expressible through `convergence_threshold`.
    RewardOnly,
}

/// How the loop ended: both outcomes are valid results, the second a
/// quality signal that the table is a best effort.
#[derive(Clone, Copy, PartialEq, Eq, Structural, Debug)]
pub enum Outcome {
    Converged,
    MaxIterExceeded,
}

/// What a finished run reports besides the table itself.
#[derive(Clone, Copy, PartialEq, Eq, Structural, Debug)]
pub struct RunResult {
    /// How the loop ended.
    pub outcome: Outcome,
    /// How many sweeps ran.
    pub iterations: usize,
    /// The largest absolute value change of the last sweep.
    pub final_delta: i64,
}

/// The engine's configuration. All fixed-point fields count millionths.
#[derive(Clone, Copy, Debug)]
pub struct Config {
    /// Rows and columns of the square grid; at least [`MIN_GRID_SIZE`].
    pub grid_size: usize,
    /// Number of discretized headings; at least one.
    pub heading_count: usize,
    /// Discount factor γ in millionths; [`SCALE`] means undiscounted.
    pub discount_factor: i64,
    /// Positive convergence threshold in millionths, compared against the
    /// largest absolute per-state change of a sweep.
    pub convergence_threshold: i64,
    /// Positive cap on the number of sweeps.
    pub max_iterations: usize,
    /// Exact maximum backup, or the sampled approximation.
    pub update_rule: UpdateRule,
    /// Whether backups subtract the per-move cost.
    pub cost_model: CostModel,
    /// Samples per state for the stochastic rule; positive there, ignored
    /// by the exact rule.
    pub sample_count: usize,
    /// Seed of the stochastic rule's random source; ignored by the exact
    /// rule.
    pub random_seed: u64,
}

/// Why a configuration was rejected.
#[derive(Clone, Copy, PartialEq, Eq, Structural, Debug)]
pub enum ConfigError {
    GridTooSmall,
    GridTooLarge,
    NoHeadings,
    TooManyHeadings,
    DiscountOutOfRange,
    ThresholdNotPositive,
    NoIterations,
    TooManyIterations,
    NoSamples,
    TooManySamples,
}

impl Config {
    /// Whether the backup subtracts the per-move cost.
    pub open spec fn subtracts_cost(self) -> bool {
        self.cost_model is RewardMinusMoveCost
    }

    /// A configuration the engine accepts: the documented lower bounds of
    /// the inputs, and upper caps forced by the 64-bit fixed-point range.
    pub open spec fn valid(self) -> bool {
        &&& MIN_GRID_SIZE <= self.grid_size <= MAX_GRID_SIZE
        &&& 1 <= self.heading_count <= MAX_HEADING_COUNT
        &&& 0 < self.discount_factor <= SCALE
        &&& 0 < self.convergence_threshold
        &&& 1 <= self.max_iterations <= MAX_ITERATIONS
        &&& (self.update_rule is StochasticSampledBackup ==> 1 <= self.sample_count
            <= MAX_SAMPLE_COUNT)
    }

    /// Check a configuration, failing fast with the first violated rule,
    /// field by field in declaration order.
    pub fn validate(&self) -> (r: Result<(), ConfigError>)
        ensures
            r is Ok <==> self.valid(),
            !self.valid() ==> r == Result::<(), ConfigError>::Err(config_error_spec(*self)),
    {
        if self.grid_size < MIN_GRID_SIZE {
            Err(ConfigError::GridTooSmall)
        } else if self.grid_size > MAX_GRID_SIZE {
            Err(ConfigError::GridTooLarge)
        } else if self.heading_count == 0 {
            Err(ConfigError::NoHeadings)
        } else if self.heading_count > MAX_HEADING_COUNT {
            Err(ConfigError::TooManyHeadings)
        } else if self.discount_factor <= 0 || self.discount_factor > SCALE {
            Err(ConfigError::DiscountOutOfRange)
        } else if self.convergence_threshold <= 0 {
            Err(ConfigError::ThresholdNotPositive)
        } else if self.max_iterations == 0 {
            Err(ConfigError::NoIterations)
        } else if self.max_iterations > MAX_ITERATIONS {
            Err(ConfigError::TooManyIterations)
        } else if matches!(self.update_rule, UpdateRule::StochasticSampledBackup)
            && self.sample_count == 0 {
            Err(ConfigError::NoSamples)
        } else if matches!(self.update_rule, UpdateRule::StochasticSampledBackup)
            && self.sample_count > MAX_SAMPLE_COUNT {
            Err(ConfigError::TooManySamples)
        } else {
            Ok(())
        }
    }
}

/// The first rule a rejected configuration violates, in the order
/// `validate` checks them.
pub open spec fn config_error_spec(cfg: Config) -> ConfigError {
    if cfg.grid_size < MIN_GRID_SIZE {
        ConfigError::GridTooSmall
    } else if cfg.grid_size > MAX_GRID_SIZE {
        ConfigError::GridTooLarge
    } else if cfg.heading_count == 0 {
        ConfigError::NoHeadings
    } else if cfg.heading_count > MAX_HEADING_COUNT {
        ConfigError::TooManyHeadings
    } else if !(0 < cfg.discount_factor <= SCALE) {
        ConfigError::DiscountOutOfRange
    } else if cfg.convergence_threshold <= 0 {
        ConfigError::ThresholdNotPositive
    } else if cfg.max_iterations == 0 {
        ConfigError::NoIterations
    } else if cfg.max_iterations > MAX_ITERATIONS {
        ConfigError::TooManyIterations
    } else if cfg.update_rule is StochasticSampledBackup && cfg.sample_count == 0 {
        ConfigError::NoSamples
    } else {
        ConfigError::TooManySamples
    }
}

/// The larger of two integers.
pub open spec fn spec_max(a: int, b: int) -> int {
    if a >= b {
        a
    } else {
        b
    }
}

/// Whether `s` lies inside the state space.
pub open spec fn state_in_bounds(size: int, theta_size: int, s: (int, int, int)) -> bool {
    &&& 0 <= s.0 < size
    &&& 0 <= s.1 < size
    &&& 0 <= s.2 < theta_size
}

/// Whether a reward map assigns every cell a non-positive reward no worse
/// than the severe boundary penalty.
pub open spec fn rewards_ok(size: int, rew: Map<(int, int), i64>) -> bool {
    forall|i: int, j: int|
        0 <= i < size && 0 <= j < size ==> REWARD_BOUNDARY_FAR <= #[trigger] rew[(i, j)] <= 0
}

/// Whether an action list is usable: non-empty, every action's deltas
/// bounded.
pub open spec fn actions_ok(acts: Seq<(isize, isize, isize)>, theta_size: int) -> bool {
    &&& acts.len() >= 1
    &&& forall|k: int|
        0 <= k < acts.len() ==> action_bounded(#[trigger] acts[k], theta_size)
}

/// Whether every in-bounds state's value lies in `[lo, hi]`.
pub open spec fn vals_in(
    size: int,
    theta_size: int,
    vals: Map<(int, int, int), i64>,
    lo: int,
    hi: int,
) -> bool {
    forall|s: (int, int, int)|
        state_in_bounds(size, theta_size, s) ==> lo <= #[trigger] vals[s] <= hi
}

/// The discounted worth of a non-positive value `v`: `γ·v` rounded toward
/// zero, `γ` in millionths.
pub open spec fn discounted(gamma: int, v: int) -> int {
    -((gamma * (-v)) / (SCALE as int))
}

/// The cost of a move: diagonal displacements cost √2, everything else one
/// unit.
pub open spec fn move_cost(a: (isize, isize, isize)) -> int {
    if a.0 != 0 && a.1 != 0 {
        COST_DIAGONAL as int
    } else {
        COST_STRAIGHT as int
    }
}

/// The one-step backup of action `a` at state `s`: the reward of the state
/// the action leads to, plus the discounted old value there, minus the move
/// cost when the cost model subtracts it.
pub open spec fn backup_spec(
    size: int,
    theta_size: int,
    gamma: int,
    subtract_cost: bool,
    rew: Map<(int, int), i64>,
    vals: Map<(int, int, int), i64>,
    s: (int, int, int),
    a: (isize, isize, isize),
) -> int {
    let n = next_state_spec(s.0, s.1, s.2, a.0 as int, a.1 as int, a.2 as int, size, theta_size);
    rew[(n.0, n.1)] + discounted(gamma, vals[n] as int) - (if subtract_cost {
        move_cost(a)
    } else {
        0
    })
}

/// The best backup among the first `k` actions of the list.
pub open spec fn best_prefix_spec(
    size: int,
    theta_size: int,
    gamma: int,
    subtract_cost: bool,
    rew: Map<(int, int), i64>,
    vals: Map<(int, int, int), i64>,
    s: (int, int, int),
    acts: Seq<(isize, isize, isize)>,
    k: int,
) -> int
    decreases k,
{
    if k <= 1 {
        backup_spec(size, theta_size, gamma, subtract_cost, rew, vals, s, acts[0])
    } else {
        spec_max(
            best_prefix_spec(size, theta_size, gamma, subtract_cost, rew, vals, s, acts, k - 1),
            backup_spec(size, theta_size, gamma, subtract_cost, rew, vals, s, acts[k - 1]),
        )
    }
}

/// A state's value after one sweep: goal states keep their pinned value,
/// every other state takes the best backup over the whole action list.
pub open spec fn updated_spec(
    size: int,
    theta_size: int,
    gamma: int,
    subtract_cost: bool,
    rew: Map<(int, int), i64>,
    acts: Seq<(isize, isize, isize)>,
    vals: Map<(int, int, int), i64>,
    s: (int, int, int),
) -> int {
    if is_goal(size, s.0, s.1) {
        vals[s] as int
    } else {
        best_prefix_spec(
            size,
            theta_size,
            gamma,
            subtract_cost,
            rew,
            vals,
            s,
            acts,
            acts.len() as int,
        )
    }
}

/// The whole table after one synchronous sweep over the old table.
pub open spec fn sweep_spec(
    size: int,
    theta_size: int,
    gamma: int,
    subtract_cost: bool,
    rew: Map<(int, int), i64>,
    acts: Seq<(isize, isize, isize)>,
    vals: Map<(int, int, int), i64>,
) -> Map<(int, int, int), i64> {
    Map::new(
        |s: (int, int, int)| state_in_bounds(size, theta_size, s),
        |s: (int, int, int)|
            updated_spec(size, theta_size, gamma, subtract_cost, rew, acts, vals, s) as i64,
    )
}

/// The table after `n` sweeps from `vals`.
pub open spec fn iterate_spec(
    size: int,
    theta_size: int,
    gamma: int,
    subtract_cost: bool,
    rew: Map<(int, int), i64>,
    acts: Seq<(isize, isize, isize)>,
    vals: Map<(int, int, int), i64>,
    n: nat,
) -> Map<(int, int, int), i64>
    decreases n,
{
    if n == 0 {
        vals
    } else {
        sweep_spec(
            size,
            theta_size,
            gamma,
            subtract_cost,
            rew,
            acts,
            iterate_spec(
                size,
                theta_size,
                gamma,
                subtract_cost,
                rew,
                acts,
                vals,
                (n - 1) as nat,
            ),
        )
    }
}

/// Whether every in-bounds state changed by strictly less than `eps`
/// between two tables: the infinity-norm convergence test.
pub open spec fn delta_below(
    size: int,
    theta_size: int,
    v1: Map<(int, int, int), i64>,
    v2: Map<(int, int, int), i64>,
    eps: int,
) -> bool {
    forall|s: (int, int, int)|
        state_in_bounds(size, theta_size, s) ==> -eps < #[trigger] v2[s] - v1[s] < eps
}

/// Compute `γ·v` for a non-positive fixed-point value, rounding toward
/// zero, without leaving 64-bit range.
fn discount(gamma: i64, v: i64) -> (r: i64)
    requires
        0 < gamma <= SCALE,
        VALUE_FLOOR <= v <= 0,
    ensures
        r == discounted(gamma as int, v as int),
        v <= r <= 0,
{
    let neg: i64 = -v;
    proof {
        assert(gamma * neg <= 1_000_000 * 3_200_000_000_000_000) by (nonlinear_arith)
            requires
                0 < gamma <= 1_000_000,
                0 <= neg <= 3_200_000_000_000_000,
        ;
    }
    let prod: u128 = (gamma as u128) * (neg as u128);
    let q: u128 = prod / (SCALE as u128);
    proof {
        assert(gamma * neg <= SCALE * neg) by (nonlinear_arith)
            requires
                0 < gamma <= SCALE,
                0 <= neg,
        ;
        vstd::arithmetic::div_mod::lemma_div_is_ordered(
            gamma as int * neg as int,
            SCALE as int * neg as int,
            SCALE as int,
        );
        vstd::arithmetic::div_mod::lemma_div_multiples_vanish(neg as int, SCALE as int);
        assert(q <= neg);
    }
    let r: i64 = -(q as i64);
    r
}

/// Range of a single backup: with old values in `[lo, 0]` it stays within
/// `[lo - VALUE_DROP, 0]`.
proof fn lemma_backup_range(
    size: int,
    theta_size: int,
    gamma: int,
    subtract_cost: bool,
    rew: Map<(int, int), i64>,
    vals: Map<(int, int, int), i64>,
    s: (int, int, int),
    a: (isize, isize, isize),
    lo: int,
)
    requires
        1 <= size,
        1 <= theta_size,
        0 < gamma <= SCALE,
        rewards_ok(size, rew),
        lo <= 0,
        vals_in(size, theta_size, vals, lo, 0),
        state_in_bounds(size, theta_size, s),
    ensures
        lo - VALUE_DROP <= backup_spec(size, theta_size, gamma, subtract_cost, rew, vals, s, a)
            <= 0,
{
    let n = next_state_spec(s.0, s.1, s.2, a.0 as int, a.1 as int, a.2 as int, size, theta_size);
    assert(state_in_bounds(size, theta_size, n));
    let v = vals[n] as int;
    lemma_discounted_range(gamma, v, lo);
}

/// The discounted value of `v` in `[lo, 0]` stays in `[lo, 0]`.
proof fn lemma_discounted_range(gamma: int, v: int, lo: int)
    requires
        0 < gamma <= SCALE,
        lo <= v <= 0,
    ensures
        lo <= v <= discounted(gamma, v) <= 0,
{
    let neg = -v;
    assert(gamma * neg <= SCALE * neg) by (nonlinear_arith)
        requires
            0 < gamma <= SCALE,
            0 <= neg,
    ;
    assert(0 <= gamma * neg) by (nonlinear_arith)
        requires
            0 < gamma,
            0 <= neg,
    ;
    vstd::arithmetic::div_mod::lemma_div_is_ordered(0, gamma * neg, SCALE as int);
    vstd::arithmetic::div_mod::lemma_div_is_ordered(gamma * neg, SCALE * neg, SCALE as int);
    vstd::arithmetic::div_mod::lemma_div_multiples_vanish(neg, SCALE as int);
}

/// One action's backup, computed in fixed point.
///
/// This is the deterministic variant's inner step: look up where the action
/// leads, and combine reward, discounted old value and move cost.
pub fn calculate_value(
    i: usize,
    j: usize,
    theta: usize,
    gamma: i64,
    size: usize,
    theta_size: usize,
    action: (isize, isize, isize),
    old_values: &Grid3,
    rewards: &Grid2,
) -> (v: i64)
    requires
        1 <= size <= MAX_GRID_SIZE,
        1 <= theta_size <= MAX_HEADING_COUNT,
        i < size,
        j < size,
        theta < theta_size,
        0 < gamma <= SCALE,
        action_bounded(action, theta_size as int),
        grid2_dim(*rewards) == (size as int, size as int),
        grid3_dim(*old_values) == (size as int, size as int, theta_size as int),
        rewards_ok(size as int, grid2_at(*rewards)),
        vals_in(size as int, theta_size as int, grid3_at(*old_values), VALUE_FLOOR as int, 0),
    ensures
        v == backup_spec(
            size as int,
            theta_size as int,
            gamma as int,
            true,
            grid2_at(*rewards),
            grid3_at(*old_values),
            (i as int, j as int, theta as int),
            action,
        ),
{
    action_value(i, j, theta, gamma, size, theta_size, true, action, old_values, rewards)
}

/// The backup of one action at one state; `subtract_cost` selects the cost
/// model.
fn action_value(
    i: usize,
    j: usize,
    theta: usize,
    gamma: i64,
    size: usize,
    theta_size: usize,
    subtract_cost: bool,
    action: (isize, isize, isize),
    old_values: &Grid3,
    rewards: &Grid2,
) -> (v: i64)
    requires
        1 <= size <= MAX_GRID_SIZE,
        1 <= theta_size <= MAX_HEADING_COUNT,
        i < size,
        j < size,
        theta < theta_size,
        0 < gamma <= SCALE,
        action_bounded(action, theta_size as int),
        grid2_dim(*rewards) == (size as int, size as int),
        grid3_dim(*old_values) == (size as int, size as int, theta_size as int),
        rewards_ok(size as int, grid2_at(*rewards)),
        vals_in(size as int, theta_size as int, grid3_at(*old_values), VALUE_FLOOR as int, 0),
    ensures
        v == backup_spec(
            size as int,
            theta_size as int,
            gamma as int,
            subtract_cost,
            grid2_at(*rewards),
            grid3_at(*old_values),
            (i as int, j as int, theta as int),
            action,
        ),
{
    let (ni, nj, ntheta) = next_state(i, j, size, theta_size, theta, action);
    let reward = rewards.get(ni, nj);
    let old_val = old_values.get(ni, nj, ntheta);
    let disc = discount(gamma, old_val);
    let cost: i64 = if subtract_cost {
        if action.0 != 0 && action.1 != 0 {
            COST_DIAGONAL
        } else {
            COST_STRAIGHT
        }
    } else {
        0
    };
    reward + disc - cost
}

/// Range of the best backup over the first `k` actions.
proof fn lemma_best_prefix_range(
    size: int,
    theta_size: int,
    gamma: int,
    subtract_cost: bool,
    rew: Map<(int, int), i64>,
    vals: Map<(int, int, int), i64>,
    s: (int, int, int),
    acts: Seq<(isize, isize, isize)>,
    k: int,
    lo: int,
)
    requires
        1 <= size,
        1 <= theta_size,
        0 < gamma <= SCALE,
        rewards_ok(size, rew),
        lo <= 0,
        vals_in(size, theta_size, vals, lo, 0),
        state_in_bounds(size, theta_size, s),
        1 <= k <= acts.len(),
    ensures
        lo - VALUE_DROP <= best_prefix_spec(
            size,
            theta_size,
            gamma,
            subtract_cost,
            rew,
            vals,
            s,
            acts,
            k,
        ) <= 0,
    decreases k,
{
    if k <= 1 {
        lemma_backup_range(size, theta_size, gamma, subtract_cost, rew, vals, s, acts[0], lo);
    } else {
        lemma_best_prefix_range(
            size,
            theta_size,
            gamma,
            subtract_cost,
            rew,
            vals,
            s,
            acts,
            k - 1,
            lo,
        );
        lemma_backup_range(size, theta_size, gamma, subtract_cost, rew, vals, s, acts[k - 1], lo);
    }
}

/// Range of a state's value after one sweep.
proof fn lemma_updated_range(
    size: int,
    theta_size: int,
    gamma: int,
    subtract_cost: bool,
    rew: Map<(int, int), i64>,
    acts: Seq<(isize, isize, isize)>,
    vals: Map<(int, int, int), i64>,
    s: (int, int, int),
    lo: int,
)
    requires
        1 <= size,
        1 <= theta_size,
        0 < gamma <= SCALE,
        rewards_ok(size, rew),
        acts.len() >= 1,
        lo <= 0,
        vals_in(size, theta_size, vals, lo, 0),
        state_in_bounds(size, theta_size, s),
    ensures
        lo - VALUE_DROP <= updated_spec(
            size,
            theta_size,
            gamma,
            subtract_cost,
            rew,
            acts,
            vals,
            s,
        ) <= 0,
{
    if !is_goal(size, s.0, s.1) {
        lemma_best_prefix_range(
            size,
            theta_size,
            gamma,
            subtract_cost,
            rew,
            vals,
            s,
            acts,
            acts.len() as int,
            lo,
        );
    }
}

/// The backup reads the old table only inside the state space, so two
/// tables that agree there back up identically.
proof fn lemma_best_prefix_congruence(
    size: int,
    theta_size: int,
    gamma: int,
    subtract_cost: bool,
    rew1: Map<(int, int), i64>,
    rew2: Map<(int, int), i64>,
    v1: Map<(int, int, int), i64>,
    v2: Map<(int, int, int), i64>,
    s: (int, int, int),
    acts: Seq<(isize, isize, isize)>,
    k: int,
)
    requires
        1 <= size,
        1 <= theta_size,
        forall|i: int, j: int|
            0 <= i < size && 0 <= j < size ==> #[trigger] rew1[(i, j)] == rew2[(i, j)],
        forall|x: (int, int, int)|
            state_in_bounds(size, theta_size, x) ==> #[trigger] v1[x] == v2[x],
        state_in_bounds(size, theta_size, s),
        1 <= k <= acts.len(),
    ensures
        best_prefix_spec(size, theta_size, gamma, subtract_cost, rew1, v1, s, acts, k)
            == best_prefix_spec(size, theta_size, gamma, subtract_cost, rew2, v2, s, acts, k),
    decreases k,
{
    if k > 1 {
        lemma_best_prefix_congruence(
            size,
            theta_size,
            gamma,
            subtract_cost,
            rew1,
            rew2,
            v1,
            v2,
            s,
            acts,
            k - 1,
        );
    }
}

/// Two tables that agree inside the state space sweep to the same values.
proof fn lemma_updated_congruence(
    size: int,
    theta_size: int,
    gamma: int,
    subtract_cost: bool,
    rew1: Map<(int, int), i64>,
    rew2: Map<(int, int), i64>,
    acts: Seq<(isize, isize, isize)>,
    v1: Map<(int, int, int), i64>,
    v2: Map<(int, int, int), i64>,
    s: (int, int, int),
)
    requires
        1 <= size,
        1 <= theta_size,
        acts.len() >= 1,
        forall|i: int, j: int|
            0 <= i < size && 0 <= j < size ==> #[trigger] rew1[(i, j)] == rew2[(i, j)],
        forall|x: (int, int, int)|
            state_in_bounds(size, theta_size, x) ==> #[trigger] v1[x] == v2[x],
        state_in_bounds(size, theta_size, s),
    ensures
        updated_spec(size, theta_size, gamma, subtract_cost, rew1, acts, v1, s) == updated_spec(
            size,
            theta_size,
            gamma,
            subtract_cost,
            rew2,
            acts,
            v2,
            s,
        ),
{
    if !is_goal(size, s.0, s.1) {
        lemma_best_prefix_congruence(
            size,
            theta_size,
            gamma,
            subtract_cost,
            rew1,
            rew2,
            v1,
            v2,
            s,
            acts,
            acts.len() as int,
        );
    }
}

/// Discounting a non-positive value never widens a gap: if two values are
/// within `d` of each other, so are their discounted worths, despite the
/// fixed-point rounding.
proof fn lemma_discounted_nonexpansive(gamma: int, a: int, b: int, d: int)
    requires
        0 < gamma <= SCALE,
        a <= 0,
        b <= 0,
        0 <= d,
        -d <= a - b <= d,
    ensures
        -d <= discounted(gamma, a) - discounted(gamma, b) <= d,
{
    let x = -a;
    let y = -b;
    assert(gamma * y <= gamma * x + SCALE * d && gamma * x <= gamma * y + SCALE * d)
        by (nonlinear_arith)
        requires
            0 < gamma <= SCALE,
            0 <= d,
            y <= x + d,
            x <= y + d,
    ;
    vstd::arithmetic::div_mod::lemma_div_is_ordered(
        gamma * y,
        gamma * x + SCALE * d,
        SCALE as int,
    );
    vstd::arithmetic::div_mod::lemma_hoist_over_denominator(gamma * x, d, SCALE as nat);
    vstd::arithmetic::div_mod::lemma_div_is_ordered(
        gamma * x,
        gamma * y + SCALE * d,
        SCALE as int,
    );
    vstd::arithmetic::div_mod::lemma_hoist_over_denominator(gamma * y, d, SCALE as nat);
}

/// A single action's backup is nonexpansive in the old table.
proof fn lemma_backup_nonexpansive(
    size: int,
    theta_size: int,
    gamma: int,
    subtract_cost: bool,
    rew: Map<(int, int), i64>,
    v1: Map<(int, int, int), i64>,
    v2: Map<(int, int, int), i64>,
    s: (int, int, int),
    a: (isize, isize, isize),
    d: int,
)
    requires
        1 <= size,
        1 <= theta_size,
        0 < gamma <= SCALE,
        0 <= d,
        forall|x: (int, int, int)|
            state_in_bounds(size, theta_size, x) ==> #[trigger] v1[x] <= 0 && v2[x] <= 0,
        forall|x: (int, int, int)|
            state_in_bounds(size, theta_size, x) ==> -d <= #[trigger] v1[x] - v2[x] <= d,
        state_in_bounds(size, theta_size, s),
    ensures
        -d <= backup_spec(size, theta_size, gamma, subtract_cost, rew, v1, s, a) - backup_spec(
            size,
            theta_size,
            gamma,
            subtract_cost,
            rew,
            v2,
            s,
            a,
        ) <= d,
{
    let n = next_state_spec(s.0, s.1, s.2, a.0 as int, a.1 as int, a.2 as int, size, theta_size);
    assert(state_in_bounds(size, theta_size, n));
    lemma_discounted_nonexpansive(gamma, v1[n] as int, v2[n] as int, d);
}

/// The best backup over a prefix of the action list is nonexpansive: the
/// maximum of values that pairwise stay within `d` stays within `d`.
proof fn lemma_best_prefix_nonexpansive(
    size: int,
    theta_size: int,
    gamma: int,
    subtract_cost: bool,
    rew: Map<(int, int), i64>,
    v1: Map<(int, int, int), i64>,
    v2: Map<(int, int, int), i64>,
    s: (int, int, int),
    acts: Seq<(isize, isize, isize)>,
    k: int,
    d: int,
)
    requires
        1 <= size,
        1 <= theta_size,
        0 < gamma <= SCALE,
        0 <= d,
        forall|x: (int, int, int)|
            state_in_bounds(size, theta_size, x) ==> #[trigger] v1[x] <= 0 && v2[x] <= 0,
        forall|x: (int, int, int)|
            state_in_bounds(size, theta_size, x) ==> -d <= #[trigger] v1[x] - v2[x] <= d,
        state_in_bounds(size, theta_size, s),
        1 <= k <= acts.len(),
    ensures
        -d <= best_prefix_spec(size, theta_size, gamma, subtract_cost, rew, v1, s, acts, k)
            - best_prefix_spec(size, theta_size, gamma, subtract_cost, rew, v2, s, acts, k) <= d,
    decreases k,
{
    if k <= 1 {
        lemma_backup_nonexpansive(
            size,
            theta_size,
            gamma,
            subtract_cost,
            rew,
            v1,
            v2,
            s,
            acts[0],
            d,
        );
    } else {
        lemma_best_prefix_nonexpansive(
            size,
            theta_size,
            gamma,
            subtract_cost,
            rew,
            v1,
            v2,
            s,
            acts,
            k - 1,
            d,
        );
        lemma_backup_nonexpansive(
            size,
            theta_size,
            gamma,
            subtract_cost,
            rew,
            v1,
            v2,
            s,
            acts[k - 1],
            d,
        );
    }
}

/// A full Bellman sweep is nonexpansive in the infinity norm: two old
/// tables whose values pairwise differ by at most `d` sweep to new values
/// that pairwise differ by at most `d`. This is why the per-sweep delta can
/// never grow from one iteration to the next.
pub proof fn lemma_sweep_nonexpansive(
    size: int,
    theta_size: int,
    gamma: int,
    subtract_cost: bool,
    rew: Map<(int, int), i64>,
    acts: Seq<(isize, isize, isize)>,
    v1: Map<(int, int, int), i64>,
    v2: Map<(int, int, int), i64>,
    d: int,
)
    requires
        1 <= size,
        1 <= theta_size,
        0 < gamma <= SCALE,
        acts.len() >= 1,
        0 <= d,
        forall|x: (int, int, int)|
            state_in_bounds(size, theta_size, x) ==> #[trigger] v1[x] <= 0 && v2[x] <= 0,
        forall|x: (int, int, int)|
            state_in_bounds(size, theta_size, x) ==> -d <= #[trigger] v1[x] - v2[x] <= d,
    ensures
        forall|s: (int, int, int)|
            state_in_bounds(size, theta_size, s) ==> -d <= #[trigger] updated_spec(
                size,
                theta_size,
                gamma,
                subtract_cost,
                rew,
                acts,
                v1,
                s,
            ) - updated_spec(size, theta_size, gamma, subtract_cost, rew, acts, v2, s) <= d,
{
    assert forall|s: (int, int, int)| state_in_bounds(size, theta_size, s) implies -d
        <= #[trigger] updated_spec(size, theta_size, gamma, subtract_cost, rew, acts, v1, s)
        - updated_spec(size, theta_size, gamma, subtract_cost, rew, acts, v2, s) <= d by {
        if !is_goal(size, s.0, s.1) {
            lemma_best_prefix_nonexpansive(
                size,
                theta_size,
                gamma,
                subtract_cost,
                rew,
                v1,
                v2,
                s,
                acts,
                acts.len() as int,
                d,
            );
        }
    }
}

/// Idempotence at convergence: if `cur` is the sweep of `prev` and that
/// sweep changed no value by `eps` or more, then one further sweep changes
/// no value of `cur` by `eps` or more either — running an extra iteration
/// after convergence stays within the convergence threshold.
pub proof fn lemma_converged_sweep_stable(
    size: int,
    theta_size: int,
    gamma: int,
    subtract_cost: bool,
    rew: Map<(int, int), i64>,
    acts: Seq<(isize, isize, isize)>,
    prev: Map<(int, int, int), i64>,
    cur: Map<(int, int, int), i64>,
    eps: int,
)
    requires
        1 <= size,
        1 <= theta_size,
        0 < gamma <= SCALE,
        acts.len() >= 1,
        rewards_ok(size, rew),
        0 < eps,
        vals_in(size, theta_size, prev, VALUE_FLOOR as int, 0),
        forall|s: (int, int, int)|
            state_in_bounds(size, theta_size, s) ==> #[trigger] cur[s] == updated_spec(
                size,
                theta_size,
                gamma,
                subtract_cost,
                rew,
                acts,
                prev,
                s,
            ),
        delta_below(size, theta_size, prev, cur, eps),
    ensures
        delta_below(
            size,
            theta_size,
            cur,
            sweep_spec(size, theta_size, gamma, subtract_cost, rew, acts, cur),
            eps,
        ),
{
    let nxt = sweep_spec(size, theta_size, gamma, subtract_cost, rew, acts, cur);
    assert forall|x: (int, int, int)|
        state_in_bounds(size, theta_size, x) implies VALUE_FLOOR - VALUE_DROP <= #[trigger] cur[x]
        <= 0 by {
        lemma_updated_range(
            size,
            theta_size,
            gamma,
            subtract_cost,
            rew,
            acts,
            prev,
            x,
            VALUE_FLOOR as int,
        );
    }
    lemma_sweep_nonexpansive(
        size,
        theta_size,
        gamma,
        subtract_cost,
        rew,
        acts,
        cur,
        prev,
        eps - 1,
    );
    assert forall|s: (int, int, int)| state_in_bounds(size, theta_size, s) implies -eps
        < #[trigger] nxt[s] - cur[s] < eps by {
        lemma_updated_range(
            size,
            theta_size,
            gamma,
            subtract_cost,
            rew,
            acts,
            cur,
            s,
            VALUE_FLOOR - VALUE_DROP,
        );
        assert(-(eps - 1) <= updated_spec(
            size,
            theta_size,
            gamma,
            subtract_cost,
            rew,
            acts,
            cur,
            s,
        ) - updated_spec(size, theta_size, gamma, subtract_cost, rew, acts, prev, s) <= eps - 1);
    }
}

/// Whether state `s` comes before the frontier `(i, j, t)` in the sweep's
/// row-major order.
spec fn lex_before(s: (int, int, int), i: int, j: int, t: int) -> bool {
    s.0 < i || (s.0 == i && s.1 < j) || (s.0 == i && s.1 == j && s.2 < t)
}

/// One full synchronous sweep: read `old_vals`, write every state's new
/// value into `new_vals`, and return the largest absolute change.
#[verifier::loop_isolation(false)]
fn sweep_once(
    size: usize,
    theta_size: usize,
    gamma: i64,
    subtract_cost: bool,
    actions: &Vec<(isize, isize, isize)>,
    rewards: &Grid2,
    old_vals: &Grid3,
    new_vals: &mut Grid3,
    lo: Ghost<int>,
) -> (delta: i64)
    requires
        MIN_GRID_SIZE <= size <= MAX_GRID_SIZE,
        1 <= theta_size <= MAX_HEADING_COUNT,
        0 < gamma <= SCALE,
        actions_ok(actions@, theta_size as int),
        grid2_dim(*rewards) == (size as int, size as int),
        grid3_dim(*old_vals) == (size as int, size as int, theta_size as int),
        grid3_dim(*old(new_vals)) == (size as int, size as int, theta_size as int),
        rewards_ok(size as int, grid2_at(*rewards)),
        VALUE_FLOOR + VALUE_DROP <= lo@ <= 0,
        vals_in(size as int, theta_size as int, grid3_at(*old_vals), lo@, 0),
    ensures
        grid3_dim(*final(new_vals)) == (size as int, size as int, theta_size as int),
        forall|s: (int, int, int)|
            state_in_bounds(size as int, theta_size as int, s) ==> #[trigger] grid3_at(
                *final(new_vals),
            )[s] == updated_spec(
                size as int,
                theta_size as int,
                gamma as int,
                subtract_cost,
                grid2_at(*rewards),
                actions@,
                grid3_at(*old_vals),
                s,
            ),
        vals_in(size as int, theta_size as int, grid3_at(*final(new_vals)), lo@ - VALUE_DROP, 0),
        0 <= delta,
        forall|s: (int, int, int)|
            state_in_bounds(size as int, theta_size as int, s) ==> -delta <= #[trigger] grid3_at(
                *final(new_vals),
            )[s] - grid3_at(*old_vals)[s] <= delta,
        delta == 0 || exists|s: (int, int, int)|
            state_in_bounds(size as int, theta_size as int, s) && (#[trigger] grid3_at(
                *final(new_vals),
            )[s] - grid3_at(*old_vals)[s] == delta || grid3_at(*old_vals)[s] - grid3_at(
                *final(new_vals),
            )[s] == delta),
{
    let ghost vold = grid3_at(*old_vals);
    let ghost rew = grid2_at(*rewards);
    let goal: usize = size - GOAL_OFFSET;
    let mut delta: i64 = 0;
    let mut i: usize = 0;
    while i < size
        invariant
            i <= size,
            0 <= delta,
            grid3_dim(*new_vals) == (size as int, size as int, theta_size as int),
            forall|s: (int, int, int)|
                state_in_bounds(size as int, theta_size as int, s) && lex_before(
                    s,
                    i as int,
                    0,
                    0,
                ) ==> #[trigger] grid3_at(*new_vals)[s] == updated_spec(
                    size as int,
                    theta_size as int,
                    gamma as int,
                    subtract_cost,
                    rew,
                    actions@,
                    vold,
                    s,
                ),
            forall|s: (int, int, int)|
                state_in_bounds(size as int, theta_size as int, s) && lex_before(
                    s,
                    i as int,
                    0,
                    0,
                ) ==> -delta <= #[trigger] grid3_at(*new_vals)[s] - vold[s] <= delta,
            delta == 0 || exists|s: (int, int, int)|
                state_in_bounds(size as int, theta_size as int, s) && lex_before(
                    s,
                    i as int,
                    0,
                    0,
                ) && (#[trigger] grid3_at(*new_vals)[s] - vold[s] == delta || vold[s] - grid3_at(
                    *new_vals,
                )[s] == delta),
        decreases size - i,
    {
        let mut j: usize = 0;
        while j < size
            invariant
                i < size,
                j <= size,
                0 <= delta,
                grid3_dim(*new_vals) == (size as int, size as int, theta_size as int),
                forall|s: (int, int, int)|
                    state_in_bounds(size as int, theta_size as int, s) && lex_before(
                        s,
                        i as int,
                        j as int,
                        0,
                    ) ==> #[trigger] grid3_at(*new_vals)[s] == updated_spec(
                        size as int,
                        theta_size as int,
                        gamma as int,
                        subtract_cost,
                        rew,
                        actions@,
                        vold,
                        s,
                    ),
                forall|s: (int, int, int)|
                    state_in_bounds(size as int, theta_size as int, s) && lex_before(
                        s,
                        i as int,
                        j as int,
                        0,
                    ) ==> -delta <= #[trigger] grid3_at(*new_vals)[s] - vold[s] <= delta,
                delta == 0 || exists|s: (int, int, int)|
                    state_in_bounds(size as int, theta_size as int, s) && lex_before(
                        s,
                        i as int,
                        j as int,
                        0,
                    ) && (#[trigger] grid3_at(*new_vals)[s] - vold[s] == delta || vold[s]
                        - grid3_at(*new_vals)[s] == delta),
            decreases size - j,
        {
            let mut t: usize = 0;
            while t < theta_size
                invariant
                    i < size,
                    j < size,
                    t <= theta_size,
                    0 <= delta,
                    grid3_dim(*new_vals) == (size as int, size as int, theta_size as int),
                    forall|s: (int, int, int)|
                        state_in_bounds(size as int, theta_size as int, s) && lex_before(
                            s,
                            i as int,
                            j as int,
                            t as int,
                        ) ==> #[trigger] grid3_at(*new_vals)[s] == updated_spec(
                            size as int,
                            theta_size as int,
                            gamma as int,
                            subtract_cost,
                            rew,
                            actions@,
                            vold,
                            s,
                        ),
                    forall|s: (int, int, int)|
                        state_in_bounds(size as int, theta_size as int, s) && lex_before(
                            s,
                            i as int,
                            j as int,
                            t as int,
                        ) ==> -delta <= #[trigger] grid3_at(*new_vals)[s] - vold[s] <= delta,
                    delta == 0 || exists|s: (int, int, int)|
                        state_in_bounds(size as int, theta_size as int, s) && lex_before(
                            s,
                            i as int,
                            j as int,
                            t as int,
                        ) && (#[trigger] grid3_at(*new_vals)[s] - vold[s] == delta || vold[s]
                            - grid3_at(*new_vals)[s] == delta),
                decreases theta_size - t,
            {
                let new_value: i64 = if i == goal && j == goal {
                    old_vals.get(i, j, t)
                } else {
                    let mut best: i64 = action_value(
                        i,
                        j,
                        t,
                        gamma,
                        size,
                        theta_size,
                        subtract_cost,
                        actions[0],
                        old_vals,
                        rewards,
                    );
                    let mut k: usize = 1;
                    while k < actions.len()
                        invariant
                            i < size,
                            j < size,
                            t < theta_size,
                            1 <= k <= actions@.len(),
                            best == best_prefix_spec(
                                size as int,
                                theta_size as int,
                                gamma as int,
                                subtract_cost,
                                rew,
                                vold,
                                (i as int, j as int, t as int),
                                actions@,
                                k as int,
                            ),
                        decreases actions@.len() - k,
                    {
                        let av = action_value(
                            i,
                            j,
                            t,
                            gamma,
                            size,
                            theta_size,
                            subtract_cost,
                            actions[k],
                            old_vals,
                            rewards,
                        );
                        if av > best {
                            best = av;
                        }
                        k = k + 1;
                    }
                    best
                };
                proof {
                    lemma_updated_range(
                        size as int,
                        theta_size as int,
                        gamma as int,
                        subtract_cost,
                        rew,
                        actions@,
                        vold,
                        (i as int, j as int, t as int),
                        lo@,
                    );
                }
                let old_value = old_vals.get(i, j, t);
                let ghost map0 = grid3_at(*new_vals);
                let ghost delta0 = delta;
                new_vals.set(i, j, t, new_value);
                let diff: i64 = if new_value >= old_value {
                    new_value - old_value
                } else {
                    old_value - new_value
                };
                if diff > delta {
                    delta = diff;
                }
                proof {
                    let cur = (i as int, j as int, t as int);
                    assert(grid3_at(*new_vals)[cur] == new_value);
                    if delta != delta0 {
                        assert(state_in_bounds(size as int, theta_size as int, cur) && lex_before(
                            cur,
                            i as int,
                            j as int,
                            t as int + 1,
                        ) && (grid3_at(*new_vals)[cur] - vold[cur] == delta || vold[cur]
                            - grid3_at(*new_vals)[cur] == delta));
                    } else if delta != 0 {
                        let w = choose|s: (int, int, int)|
                            state_in_bounds(size as int, theta_size as int, s) && lex_before(
                                s,
                                i as int,
                                j as int,
                                t as int,
                            ) && (#[trigger] map0[s] - vold[s] == delta || vold[s] - map0[s]
                                == delta);
                        assert(w != cur);
                        assert(grid3_at(*new_vals)[w] == map0[w]);
                        assert(state_in_bounds(size as int, theta_size as int, w) && lex_before(
                            w,
                            i as int,
                            j as int,
                            t as int + 1,
                        ) && (grid3_at(*new_vals)[w] - vold[w] == delta || vold[w] - grid3_at(
                            *new_vals,
                        )[w] == delta));
                    }
                }
                t = t + 1;
            }
            j = j + 1;
        }
        i = i + 1;
    }
    proof {
        assert forall|s: (int, int, int)|
            state_in_bounds(size as int, theta_size as int, s) implies lo@ - VALUE_DROP
            <= #[trigger] grid3_at(*new_vals)[s] <= 0 by {
            lemma_updated_range(
                size as int,
                theta_size as int,
                gamma as int,
                subtract_cost,
                rew,
                actions@,
                vold,
                s,
                lo@,
            );
        }
    }
    delta
}

/// The table the configured exact rule produces after `n` sweeps from
/// `vals`, over the given reward map and action list.
pub open spec fn cfg_iterate(
    cfg: Config,
    rew: Map<(int, int), i64>,
    acts: Seq<(isize, isize, isize)>,
    vals: Map<(int, int, int), i64>,
    n: nat,
) -> Map<(int, int, int), i64> {
    iterate_spec(
        cfg.grid_size as int,
        cfg.heading_count as int,
        cfg.discount_factor as int,
        cfg.subtracts_cost(),
        rew,
        acts,
        vals,
        n,
    )
}

/// The goal cell's value is pinned: however many sweeps run, every heading
/// slice of the goal cell keeps the value it started with.
pub proof fn lemma_iterate_goal_pinned(
    size: int,
    theta_size: int,
    gamma: int,
    subtract_cost: bool,
    rew: Map<(int, int), i64>,
    acts: Seq<(isize, isize, isize)>,
    vals: Map<(int, int, int), i64>,
    t: int,
    n: nat,
)
    requires
        MIN_GRID_SIZE <= size,
        1 <= theta_size,
        acts.len() >= 1,
        0 <= t < theta_size,
    ensures
        iterate_spec(size, theta_size, gamma, subtract_cost, rew, acts, vals, n)[(
            size - GOAL_OFFSET,
            size - GOAL_OFFSET,
            t,
        )] == vals[(size - GOAL_OFFSET, size - GOAL_OFFSET, t)],
    decreases n,
{
    if n > 0 {
        lemma_iterate_goal_pinned(
            size,
            theta_size,
            gamma,
            subtract_cost,
            rew,
            acts,
            vals,
            t,
            (n - 1) as nat,
        );
        let g = size - GOAL_OFFSET;
        assert(state_in_bounds(size, theta_size, (g, g, t)));
        assert(is_goal(size, g, g));
    }
}

/// Run the exact value-iteration loop to convergence or the iteration cap.
///
/// Each sweep reads only the previous table (two buffers alternate) and
/// the largest absolute change of a sweep is its delta; the loop stops as
/// soon as a sweep's delta falls below the configured threshold, else after
/// `max_iterations` sweeps with the `MaxIterExceeded` outcome — a quality
/// signal, not an error: the table is still the exact result of the sweeps
/// run.
#[verifier::loop_isolation(false)]
pub fn value_iteration(
    cfg: &Config,
    values: &mut Grid3,
    rewards: &Grid2,
    actions: &Vec<(isize, isize, isize)>,
) -> (r: RunResult)
    requires
        cfg.valid(),
        cfg.update_rule is ExactMaxBackup,
        grid2_dim(*rewards) == (cfg.grid_size as int, cfg.grid_size as int),
        grid3_dim(*old(values)) == (
            cfg.grid_size as int,
            cfg.grid_size as int,
            cfg.heading_count as int,
        ),
        rewards_ok(cfg.grid_size as int, grid2_at(*rewards)),
        vals_in(
            cfg.grid_size as int,
            cfg.heading_count as int,
            grid3_at(*old(values)),
            VALUE_START_FLOOR as int,
            0,
        ),
        actions_ok(actions@, cfg.heading_count as int),
    ensures
        grid3_dim(*final(values)) == (
            cfg.grid_size as int,
            cfg.grid_size as int,
            cfg.heading_count as int,
        ),
        1 <= r.iterations <= cfg.max_iterations,
        forall|s: (int, int, int)|
            state_in_bounds(cfg.grid_size as int, cfg.heading_count as int, s)
                ==> #[trigger] grid3_at(*final(values))[s] == cfg_iterate(
                *cfg,
                grid2_at(*rewards),
                actions@,
                grid3_at(*old(values)),
                r.iterations as nat,
            )[s],
        forall|t: int|
            0 <= t < cfg.heading_count ==> #[trigger] grid3_at(*final(values))[(
                cfg.grid_size - GOAL_OFFSET,
                cfg.grid_size - GOAL_OFFSET,
                t,
            )] == grid3_at(*old(values))[(
                cfg.grid_size - GOAL_OFFSET,
                cfg.grid_size - GOAL_OFFSET,
                t,
            )],
        vals_in(
            cfg.grid_size as int,
            cfg.heading_count as int,
            grid3_at(*final(values)),
            VALUE_FLOOR as int,
            0,
        ),
        0 <= r.final_delta,
        forall|s: (int, int, int)|
            state_in_bounds(cfg.grid_size as int, cfg.heading_count as int, s)
                ==> -r.final_delta <= #[trigger] cfg_iterate(
                *cfg,
                grid2_at(*rewards),
                actions@,
                grid3_at(*old(values)),
                r.iterations as nat,
            )[s] - cfg_iterate(
                *cfg,
                grid2_at(*rewards),
                actions@,
                grid3_at(*old(values)),
                (r.iterations - 1) as nat,
            )[s] <= r.final_delta,
        r.outcome is Converged <==> r.final_delta < cfg.convergence_threshold,
        r.outcome is Converged ==> delta_below(
            cfg.grid_size as int,
            cfg.heading_count as int,
            cfg_iterate(
                *cfg,
                grid2_at(*rewards),
                actions@,
                grid3_at(*old(values)),
                (r.iterations - 1) as nat,
            ),
            cfg_iterate(
                *cfg,
                grid2_at(*rewards),
                actions@,
                grid3_at(*old(values)),
                r.iterations as nat,
            ),
            cfg.convergence_threshold as int,
        ),
        forall|n: int|
            1 <= n < r.iterations ==> !delta_below(
                cfg.grid_size as int,
                cfg.heading_count as int,
                cfg_iterate(
                    *cfg,
                    grid2_at(*rewards),
                    actions@,
                    grid3_at(*old(values)),
                    (n - 1) as nat,
                ),
                #[trigger] cfg_iterate(
                    *cfg,
                    grid2_at(*rewards),
                    actions@,
                    grid3_at(*old(values)),
                    n as nat,
                ),
                cfg.convergence_threshold as int,
            ),
        r.outcome is MaxIterExceeded ==> r.iterations == cfg.max_iterations && !delta_below(
            cfg.grid_size as int,
            cfg.heading_count as int,
            cfg_iterate(
                *cfg,
                grid2_at(*rewards),
                actions@,
                grid3_at(*old(values)),
                (r.iterations - 1) as nat,
            ),
            cfg_iterate(
                *cfg,
                grid2_at(*rewards),
                actions@,
                grid3_at(*old(values)),
                r.iterations as nat,
            ),
            cfg.convergence_threshold as int,
        ),
{
    let size = cfg.grid_size;
    let theta_size = cfg.heading_count;
    let subtract: bool = matches!(cfg.cost_model, CostModel::RewardMinusMoveCost);
    let ghost v0 = grid3_at(*values);
    let ghost rew = grid2_at(*rewards);
    let ghost acts = actions@;
    let mut scratch = Grid3::filled(size, size, theta_size, 0);
    let mut iter: usize = 0;
    let mut delta: i64 = 0;
    let mut converged: bool = false;
    while !converged && iter < cfg.max_iterations
        invariant
            subtract == cfg.subtracts_cost(),
            iter <= cfg.max_iterations,
            converged ==> 1 <= iter,
            grid3_dim(*values) == (size as int, size as int, theta_size as int),
            grid3_dim(scratch) == (size as int, size as int, theta_size as int),
            forall|s: (int, int, int)|
                state_in_bounds(size as int, theta_size as int, s) ==> #[trigger] grid3_at(
                    *values,
                )[s] == cfg_iterate(*cfg, rew, acts, v0, iter as nat)[s],
            vals_in(
                size as int,
                theta_size as int,
                grid3_at(*values),
                VALUE_START_FLOOR - iter * VALUE_DROP,
                0,
            ),
            0 <= delta,
            iter >= 1 ==> forall|s: (int, int, int)|
                state_in_bounds(size as int, theta_size as int, s) ==> -delta
                    <= #[trigger] cfg_iterate(*cfg, rew, acts, v0, iter as nat)[s] - cfg_iterate(
                    *cfg,
                    rew,
                    acts,
                    v0,
                    (iter - 1) as nat,
                )[s] <= delta,
            iter >= 1 ==> (delta == 0 || exists|s: (int, int, int)|
                state_in_bounds(size as int, theta_size as int, s) && (#[trigger] cfg_iterate(
                    *cfg,
                    rew,
                    acts,
                    v0,
                    iter as nat,
                )[s] - cfg_iterate(*cfg, rew, acts, v0, (iter - 1) as nat)[s] == delta
                    || cfg_iterate(*cfg, rew, acts, v0, (iter - 1) as nat)[s] - cfg_iterate(
                    *cfg,
                    rew,
                    acts,
                    v0,
                    iter as nat,
                )[s] == delta)),
            converged <==> (1 <= iter && delta < cfg.convergence_threshold),
            forall|n: int|
                1 <= n <= iter && !(converged && n == iter) ==> !delta_below(
                    size as int,
                    theta_size as int,
                    cfg_iterate(*cfg, rew, acts, v0, (n - 1) as nat),
                    #[trigger] cfg_iterate(*cfg, rew, acts, v0, n as nat),
                    cfg.convergence_threshold as int,
                ),
        decreases cfg.max_iterations - iter,
    {
        let ghost vprev = grid3_at(*values);
        let ghost lo: int = VALUE_START_FLOOR - iter * VALUE_DROP;
        proof {
            assert(iter * VALUE_DROP <= 30_000_000 * 102_000_000) by (nonlinear_arith)
                requires
                    0 <= iter <= 30_000_000,
            ;
            assert(0 <= iter * VALUE_DROP) by (nonlinear_arith)
                requires
                    0 <= iter,
            ;
        }
        let d = sweep_once(
            size,
            theta_size,
            cfg.discount_factor,
            subtract,
            actions,
            rewards,
            values,
            &mut scratch,
            Ghost(lo),
        );
        proof {
            let prev_it = cfg_iterate(*cfg, rew, acts, v0, iter as nat);
            let next_it = cfg_iterate(*cfg, rew, acts, v0, (iter + 1) as nat);
            assert forall|s: (int, int, int)|
                state_in_bounds(size as int, theta_size as int, s) implies #[trigger] grid3_at(
                scratch,
            )[s] == next_it[s] by {
                lemma_updated_congruence(
                    size as int,
                    theta_size as int,
                    cfg.discount_factor as int,
                    subtract,
                    rew,
                    rew,
                    acts,
                    vprev,
                    prev_it,
                    s,
                );
            }
            assert((iter + 1) * VALUE_DROP == iter * VALUE_DROP + VALUE_DROP) by (nonlinear_arith);
        }
        core::mem::swap(values, &mut scratch);
        iter = iter + 1;
        delta = d;
        converged = d < cfg.convergence_threshold;
        proof {
            let prev_it = cfg_iterate(*cfg, rew, acts, v0, (iter - 1) as nat);
            let next_it = cfg_iterate(*cfg, rew, acts, v0, iter as nat);
            assert forall|s: (int, int, int)|
                state_in_bounds(size as int, theta_size as int, s) implies -delta
                <= #[trigger] next_it[s] - prev_it[s] <= delta by {
                assert(grid3_at(*values)[s] == next_it[s]);
                assert(vprev[s] == prev_it[s]);
                assert(-delta <= grid3_at(*values)[s] - vprev[s] <= delta);
            }
            if delta != 0 {
                let w = choose|s: (int, int, int)|
                    state_in_bounds(size as int, theta_size as int, s) && (#[trigger] grid3_at(
                        *values,
                    )[s] - vprev[s] == delta || vprev[s] - grid3_at(*values)[s] == delta);
                assert(state_in_bounds(size as int, theta_size as int, w) && (next_it[w]
                    - prev_it[w] == delta || prev_it[w] - next_it[w] == delta));
            }
            if !converged {
                assert(delta >= cfg.convergence_threshold);
                let w = choose|s: (int, int, int)|
                    state_in_bounds(size as int, theta_size as int, s) && (#[trigger] next_it[s]
                        - prev_it[s] == delta || prev_it[s] - next_it[s] == delta);
                assert(!delta_below(
                    size as int,
                    theta_size as int,
                    prev_it,
                    next_it,
                    cfg.convergence_threshold as int,
                ));
            }
        }
    }
    let outcome = if converged {
        Outcome::Converged
    } else {
        Outcome::MaxIterExceeded
    };
    proof {
        if !converged {
            assert(iter == cfg.max_iterations);
            assert(delta >= cfg.convergence_threshold);
        }
        assert forall|t: int|
            0 <= t < cfg.heading_count implies #[trigger] grid3_at(*values)[(
            cfg.grid_size - GOAL_OFFSET,
            cfg.grid_size - GOAL_OFFSET,
            t,
        )] == v0[(cfg.grid_size - GOAL_OFFSET, cfg.grid_size - GOAL_OFFSET, t)] by {
            lemma_iterate_goal_pinned(
                size as int,
                theta_size as int,
                cfg.discount_factor as int,
                subtract,
                rew,
                acts,
                v0,
                t,
                iter as nat,
            );
            assert(state_in_bounds(
                size as int,
                theta_size as int,
                (size - GOAL_OFFSET as int, size - GOAL_OFFSET as int, t),
            ));
        }
        assert(iter * VALUE_DROP <= 30_000_000 * 102_000_000) by (nonlinear_arith)
            requires
                0 <= iter <= 30_000_000,
        ;
    }
    RunResult { outcome, iterations: iter, final_delta: delta }
}


/// Two runs over pointwise-equal reward maps and starting tables produce
/// pointwise-equal tables after any number of sweeps.
proof fn lemma_iterate_congruence(
    size: int,
    theta_size: int,
    gamma: int,
    subtract_cost: bool,
    rew1: Map<(int, int), i64>,
    rew2: Map<(int, int), i64>,
    acts: Seq<(isize, isize, isize)>,
    v1: Map<(int, int, int), i64>,
    v2: Map<(int, int, int), i64>,
    n: nat,
)
    requires
        1 <= size,
        1 <= theta_size,
        acts.len() >= 1,
        forall|i: int, j: int|
            0 <= i < size && 0 <= j < size ==> #[trigger] rew1[(i, j)] == rew2[(i, j)],
        forall|x: (int, int, int)|
            state_in_bounds(size, theta_size, x) ==> #[trigger] v1[x] == v2[x],
    ensures
        forall|s: (int, int, int)|
            state_in_bounds(size, theta_size, s) ==> #[trigger] iterate_spec(
                size,
                theta_size,
                gamma,
                subtract_cost,
                rew1,
                acts,
                v1,
                n,
            )[s] == iterate_spec(size, theta_size, gamma, subtract_cost, rew2, acts, v2, n)[s],
    decreases n,
{
    if n > 0 {
        lemma_iterate_congruence(
            size,
            theta_size,
            gamma,
            subtract_cost,
            rew1,
            rew2,
            acts,
            v1,
            v2,
            (n - 1) as nat,
        );
        let p1 = iterate_spec(
            size,
            theta_size,
            gamma,
            subtract_cost,
            rew1,
            acts,
            v1,
            (n - 1) as nat,
        );
        let p2 = iterate_spec(
            size,
            theta_size,
            gamma,
            subtract_cost,
            rew2,
            acts,
            v2,
            (n - 1) as nat,
        );
        assert forall|s: (int, int, int)|
            state_in_bounds(size, theta_size, s) implies #[trigger] iterate_spec(
            size,
            theta_size,
            gamma,
            subtract_cost,
            rew1,
            acts,
            v1,
            n,
        )[s] == iterate_spec(size, theta_size, gamma, subtract_cost, rew2, acts, v2, n)[s] by {
            lemma_updated_congruence(
                size,
                theta_size,
                gamma,
                subtract_cost,
                rew1,
                rew2,
                acts,
                p1,
                p2,
                s,
            );
        }
    }
}

/// Extract one heading's slice of a value table, the rendering adapter's
/// input.
pub fn heading_slice(values: &Grid3, size: usize, theta_size: usize, heading: usize) -> (g: Grid2)
    requires
        grid3_dim(*values) == (size as int, size as int, theta_size as int),
        heading < theta_size,
    ensures
        grid2_dim(g) == (size as int, size as int),
        forall|i: int, j: int|
            0 <= i < size && 0 <= j < size ==> #[trigger] grid2_at(g)[(i, j)] == grid3_at(
                *values,
            )[(i, j, heading as int)],
{
    let mut g = Grid2::filled(size, size, 0);
    let mut i: usize = 0;
    while i < size
        invariant
            i <= size,
            heading < theta_size,
            grid2_dim(g) == (size as int, size as int),
            grid3_dim(*values) == (size as int, size as int, theta_size as int),
            forall|a: int, b: int|
                0 <= a < size && 0 <= b < size && a < i ==> #[trigger] grid2_at(g)[(a, b)]
                    == grid3_at(*values)[(a, b, heading as int)],
        decreases size - i,
    {
        let mut j: usize = 0;
        while j < size
            invariant
                i < size,
                j <= size,
                heading < theta_size,
                grid2_dim(g) == (size as int, size as int),
                grid3_dim(*values) == (size as int, size as int, theta_size as int),
                forall|a: int, b: int|
                    0 <= a < size && 0 <= b < size && (a < i || (a == i && b < j))
                        ==> #[trigger] grid2_at(g)[(a, b)] == grid3_at(*values)[(
                        a,
                        b,
                        heading as int,
                    )],
            decreases size - j,
        {
            let v = values.get(i, j, heading);
            g.set(i, j, v);
            j = j + 1;
        }
        i = i + 1;
    }
    g
}

/// What the solver hands back: the final value table and the run report.
pub struct Solution {
    /// The final value table.
    pub values: Grid3,
    /// How the loop ended, how many sweeps ran, and the last delta.
    pub result: RunResult,
}

/// Build the reward landscape and the initial value table for a validated
/// configuration, run the configured update rule to convergence or the
/// iteration cap, and hand back the table with the run report.
///
/// An invalid configuration fails fast, before any allocation, with the
/// first violated rule. Under the exact rule the final table is pinned
/// exactly: it equals the configured number of Bellman sweeps applied to
/// the initial table over the built reward map. Under the sampled rule the
/// table depends on the seeded sample path; what is pinned is its shape,
/// the goal pinning, the value range, and the outcome accounting.
pub fn solve(cfg: &Config) -> (r: Result<Solution, ConfigError>)
    ensures
        r is Ok <==> cfg.valid(),
        !cfg.valid() ==> r == Result::<Solution, ConfigError>::Err(config_error_spec(*cfg)),
        cfg.valid() ==> (r matches Ok(sol) && {
            &&& grid3_dim(sol.values) == (
                cfg.grid_size as int,
                cfg.grid_size as int,
                cfg.heading_count as int,
            )
            &&& 1 <= sol.result.iterations <= cfg.max_iterations
            &&& forall|t: int|
                0 <= t < cfg.heading_count ==> #[trigger] grid3_at(sol.values)[(
                    cfg.grid_size - GOAL_OFFSET,
                    cfg.grid_size - GOAL_OFFSET,
                    t,
                )] == 0
            &&& vals_in(
                cfg.grid_size as int,
                cfg.heading_count as int,
                grid3_at(sol.values),
                VALUE_FLOOR as int,
                0,
            )
            &&& 0 <= sol.result.final_delta
            &&& (sol.result.outcome is Converged <==> sol.result.final_delta
                < cfg.convergence_threshold)
            &&& (sol.result.outcome is MaxIterExceeded ==> sol.result.iterations
                == cfg.max_iterations)
            &&& (cfg.update_rule is ExactMaxBackup ==> forall|s: (int, int, int)|
                state_in_bounds(cfg.grid_size as int, cfg.heading_count as int, s)
                    ==> #[trigger] grid3_at(sol.values)[s] == cfg_iterate(
                    *cfg,
                    crate::rewards::reward_map_spec(cfg.grid_size as int),
                    crate::actions::discrete_actions(),
                    crate::rewards::initial_values_spec(
                        cfg.grid_size as int,
                        cfg.heading_count as int,
                    ),
                    sol.result.iterations as nat,
                )[s])
        }),
{
    match cfg.validate() {
        Err(e) => Err(e),
        Ok(()) => {
            let size = cfg.grid_size;
            let theta_size = cfg.heading_count;
            let rewards = build_reward_map_checked(size);
            let mut values = Grid3::filled(size, size, theta_size, VALUE_UNKNOWN);
            crate::rewards::initialize_goal_values(size, theta_size, &mut values);
            let ghost v_init = grid3_at(values);
            let result = match cfg.update_rule {
                UpdateRule::ExactMaxBackup => {
                    let actions = crate::actions::generate_actions();
                    proof {
                        crate::actions::lemma_discrete_actions_bounded(theta_size as int);
                    }
                    let res = value_iteration(cfg, &mut values, &rewards, &actions);
                    proof {
                        lemma_iterate_congruence(
                            size as int,
                            theta_size as int,
                            cfg.discount_factor as int,
                            cfg.subtracts_cost(),
                            grid2_at(rewards),
                            crate::rewards::reward_map_spec(size as int),
                            actions@,
                            v_init,
                            crate::rewards::initial_values_spec(size as int, theta_size as int),
                            res.iterations as nat,
                        );
                    }
                    res
                },
                UpdateRule::StochasticSampledBackup => {
                    let actions = crate::actions::generate_actions();
                    proof {
                        crate::actions::lemma_discrete_actions_bounded(theta_size as int);
                    }
                    value_iteration_stochastic(cfg, &mut values, &rewards, &actions)
                },
            };
            Ok(Solution { values, result })
        },
    }
}

/// Build the reward map and carry along that every cell is in the range
/// the engine requires.
fn build_reward_map_checked(size: usize) -> (rewards: Grid2)
    requires
        MIN_GRID_SIZE <= size,
    ensures
        grid2_dim(rewards) == (size as int, size as int),
        forall|i: int, j: int|
            0 <= i < size && 0 <= j < size ==> #[trigger] grid2_at(rewards)[(i, j)]
                == crate::rewards::reward_spec(size as int, i, j),
        rewards_ok(size as int, grid2_at(rewards)),
{
    let rewards = crate::rewards::build_reward_map(size);
    proof {
        assert forall|i: int, j: int|
            0 <= i < size && 0 <= j < size implies REWARD_BOUNDARY_FAR <= #[trigger] grid2_at(
            rewards,
        )[(i, j)] <= 0 by {
            crate::rewards::lemma_reward_layering(size as int, i, j);
        }
    }
    rewards
}


/// The sum of `k` sampled one-step backups at state `s`, threading the
/// generator: each sample advances the generator once and picks the action
/// indexed by the new state modulo the list length. Sampled backups never
/// subtract a move cost.
pub open spec fn sampled_sum_spec(
    size: int,
    theta_size: int,
    gamma: int,
    rew: Map<(int, int), i64>,
    vals: Map<(int, int, int), i64>,
    s: (int, int, int),
    acts: Seq<(isize, isize, isize)>,
    rng: u64,
    k: nat,
) -> (int, u64)
    decreases k,
{
    if k == 0 {
        (0, rng)
    } else {
        let prev = sampled_sum_spec(size, theta_size, gamma, rew, vals, s, acts, rng, (k - 1) as nat);
        let drawn = crate::rng::lcg_next_spec(prev.1);
        let idx = (drawn as int) % (acts.len() as int);
        (prev.0 + backup_spec(size, theta_size, gamma, false, rew, vals, s, acts[idx]), drawn)
    }
}

/// The sampled (Monte-Carlo) value of a state: the average of `n` sampled
/// backups, rounded toward zero.
pub open spec fn sampled_value_spec(
    size: int,
    theta_size: int,
    gamma: int,
    rew: Map<(int, int), i64>,
    vals: Map<(int, int, int), i64>,
    s: (int, int, int),
    acts: Seq<(isize, isize, isize)>,
    rng: u64,
    n: nat,
) -> int {
    -((-(sampled_sum_spec(size, theta_size, gamma, rew, vals, s, acts, rng, n).0)) / (n as int))
}

/// Range of a sampled sum: `k` backups, each within `[lo - VALUE_DROP, 0]`.
proof fn lemma_sampled_sum_range(
    size: int,
    theta_size: int,
    gamma: int,
    rew: Map<(int, int), i64>,
    vals: Map<(int, int, int), i64>,
    s: (int, int, int),
    acts: Seq<(isize, isize, isize)>,
    rng: u64,
    k: nat,
    lo: int,
)
    requires
        1 <= size,
        1 <= theta_size,
        0 < gamma <= SCALE,
        rewards_ok(size, rew),
        acts.len() >= 1,
        lo <= 0,
        vals_in(size, theta_size, vals, lo, 0),
        state_in_bounds(size, theta_size, s),
    ensures
        k * (lo - VALUE_DROP) <= sampled_sum_spec(
            size,
            theta_size,
            gamma,
            rew,
            vals,
            s,
            acts,
            rng,
            k,
        ).0 <= 0,
    decreases k,
{
    if k > 0 {
        lemma_sampled_sum_range(size, theta_size, gamma, rew, vals, s, acts, rng, (k - 1) as nat, lo);
        let prev = sampled_sum_spec(size, theta_size, gamma, rew, vals, s, acts, rng, (k - 1) as nat);
        let drawn = crate::rng::lcg_next_spec(prev.1);
        let idx = (drawn as int) % (acts.len() as int);
        lemma_backup_range(size, theta_size, gamma, false, rew, vals, s, acts[idx], lo);
        assert(k * (lo - VALUE_DROP) == (k - 1) * (lo - VALUE_DROP) + (lo - VALUE_DROP))
            by (nonlinear_arith);
    }
}

/// Range of a sampled value: the average of backups within
/// `[lo - VALUE_DROP, 0]` stays within `[lo - VALUE_DROP, 0]`.
proof fn lemma_sampled_value_range(
    size: int,
    theta_size: int,
    gamma: int,
    rew: Map<(int, int), i64>,
    vals: Map<(int, int, int), i64>,
    s: (int, int, int),
    acts: Seq<(isize, isize, isize)>,
    rng: u64,
    n: nat,
    lo: int,
)
    requires
        1 <= size,
        1 <= theta_size,
        0 < gamma <= SCALE,
        rewards_ok(size, rew),
        acts.len() >= 1,
        lo <= 0,
        vals_in(size, theta_size, vals, lo, 0),
        state_in_bounds(size, theta_size, s),
        1 <= n,
    ensures
        lo - VALUE_DROP <= sampled_value_spec(
            size,
            theta_size,
            gamma,
            rew,
            vals,
            s,
            acts,
            rng,
            n,
        ) <= 0,
{
    lemma_sampled_sum_range(size, theta_size, gamma, rew, vals, s, acts, rng, n, lo);
    let sum = sampled_sum_spec(size, theta_size, gamma, rew, vals, s, acts, rng, n).0;
    assert(n * (lo - VALUE_DROP) <= sum <= 0);
    assert(-sum <= n * (VALUE_DROP - lo)) by (nonlinear_arith)
        requires
            n * (lo - VALUE_DROP) <= sum,
    ;
    vstd::arithmetic::div_mod::lemma_div_is_ordered(0, -sum, n as int);
    vstd::arithmetic::div_mod::lemma_div_is_ordered(-sum, n * (VALUE_DROP - lo), n as int);
    assert((n * (VALUE_DROP - lo)) / (n as int) == VALUE_DROP - lo) by {
        vstd::arithmetic::div_mod::lemma_div_multiples_vanish(VALUE_DROP - lo, n as int);
    }
}

/// Position of `s` in the sweep's row-major state order.
pub open spec fn lex_rank(size: int, theta_size: int, s: (int, int, int)) -> int {
    (s.0 * size + s.1) * theta_size + s.2
}

/// How many goal states come strictly before `s` in that order.
pub open spec fn goal_slices_before(size: int, theta_size: int, s: (int, int, int)) -> int {
    let g = size - GOAL_OFFSET;
    if s.0 > g || (s.0 == g && s.1 > g) {
        theta_size
    } else if s.0 == g && s.1 == g {
        s.2
    } else {
        0
    }
}

/// How many non-goal states come strictly before `s`: exactly the states
/// whose update has drawn samples when the sweep reaches `s`.
pub open spec fn nongoal_before(size: int, theta_size: int, s: (int, int, int)) -> int {
    lex_rank(size, theta_size, s) - goal_slices_before(size, theta_size, s)
}

/// The generator state a stochastic sweep that started at `rng0` holds
/// when it reaches `s`: one step per sample, `samples` per earlier
/// non-goal state.
#[verifier::opaque]
pub open spec fn rng_at_state(
    size: int,
    theta_size: int,
    samples: nat,
    rng0: u64,
    s: (int, int, int),
) -> u64 {
    crate::rng::lcg_iter_spec(rng0, (samples * nongoal_before(size, theta_size, s)) as nat)
}

/// A state's value after one stochastic sweep that began with generator
/// state `rng0`: goal states keep their value, every other state the
/// average of its sampled backups, drawn at its position in the sweep.
#[verifier::opaque]
pub open spec fn stoch_updated_spec(
    size: int,
    theta_size: int,
    gamma: int,
    samples: nat,
    rew: Map<(int, int), i64>,
    acts: Seq<(isize, isize, isize)>,
    vals: Map<(int, int, int), i64>,
    rng0: u64,
    s: (int, int, int),
) -> int {
    if is_goal(size, s.0, s.1) {
        vals[s] as int
    } else {
        sampled_value_spec(
            size,
            theta_size,
            gamma,
            rew,
            vals,
            s,
            acts,
            rng_at_state(size, theta_size, samples, rng0, s),
            samples,
        )
    }
}

/// The whole table after one stochastic sweep.
pub open spec fn stoch_sweep_spec(
    size: int,
    theta_size: int,
    gamma: int,
    samples: nat,
    rew: Map<(int, int), i64>,
    acts: Seq<(isize, isize, isize)>,
    vals: Map<(int, int, int), i64>,
    rng0: u64,
) -> Map<(int, int, int), i64> {
    Map::new(
        |s: (int, int, int)| state_in_bounds(size, theta_size, s),
        |s: (int, int, int)|
            stoch_updated_spec(size, theta_size, gamma, samples, rew, acts, vals, rng0, s) as i64,
    )
}

/// The generator state after one full stochastic sweep: `samples` draws
/// for each of the grid's non-goal states.
pub open spec fn rng_after_sweep(size: int, theta_size: int, samples: nat, rng0: u64) -> u64 {
    crate::rng::lcg_iter_spec(rng0, (samples * ((size * size - 1) * theta_size)) as nat)
}

/// Table and generator after `m` stochastic sweeps from `vals` and `rng0`.
pub open spec fn stoch_iterate_spec(
    size: int,
    theta_size: int,
    gamma: int,
    samples: nat,
    rew: Map<(int, int), i64>,
    acts: Seq<(isize, isize, isize)>,
    vals: Map<(int, int, int), i64>,
    rng0: u64,
    m: nat,
) -> (Map<(int, int, int), i64>, u64)
    decreases m,
{
    if m == 0 {
        (vals, rng0)
    } else {
        let prev = stoch_iterate_spec(
            size,
            theta_size,
            gamma,
            samples,
            rew,
            acts,
            vals,
            rng0,
            (m - 1) as nat,
        );
        (
            stoch_sweep_spec(size, theta_size, gamma, samples, rew, acts, prev.0, prev.1),
            rng_after_sweep(size, theta_size, samples, prev.1),
        )
    }
}

/// The stochastic run the configuration describes, after `m` sweeps.
pub open spec fn stoch_cfg_iterate(
    cfg: Config,
    rew: Map<(int, int), i64>,
    acts: Seq<(isize, isize, isize)>,
    vals: Map<(int, int, int), i64>,
    m: nat,
) -> (Map<(int, int, int), i64>, u64) {
    stoch_iterate_spec(
        cfg.grid_size as int,
        cfg.heading_count as int,
        cfg.discount_factor as int,
        cfg.sample_count as nat,
        rew,
        acts,
        vals,
        cfg.random_seed,
        m,
    )
}

/// The generator component of a sampled sum is exactly `k` steps on.
proof fn lemma_sampled_sum_rng(
    size: int,
    theta_size: int,
    gamma: int,
    rew: Map<(int, int), i64>,
    vals: Map<(int, int, int), i64>,
    s: (int, int, int),
    acts: Seq<(isize, isize, isize)>,
    rng: u64,
    k: nat,
)
    ensures
        sampled_sum_spec(size, theta_size, gamma, rew, vals, s, acts, rng, k).1
            == crate::rng::lcg_iter_spec(rng, k),
    decreases k,
{
    if k > 0 {
        lemma_sampled_sum_rng(size, theta_size, gamma, rew, vals, s, acts, rng, (k - 1) as nat);
    }
}

/// Sampled sums read the reward map and the old table only inside the
/// state space, so tables that agree there sample identically.
proof fn lemma_sampled_sum_congruence(
    size: int,
    theta_size: int,
    gamma: int,
    rew1: Map<(int, int), i64>,
    rew2: Map<(int, int), i64>,
    v1: Map<(int, int, int), i64>,
    v2: Map<(int, int, int), i64>,
    s: (int, int, int),
    acts: Seq<(isize, isize, isize)>,
    rng: u64,
    k: nat,
)
    requires
        1 <= size,
        1 <= theta_size,
        acts.len() >= 1,
        forall|i: int, j: int|
            0 <= i < size && 0 <= j < size ==> #[trigger] rew1[(i, j)] == rew2[(i, j)],
        forall|x: (int, int, int)|
            state_in_bounds(size, theta_size, x) ==> #[trigger] v1[x] == v2[x],
        state_in_bounds(size, theta_size, s),
    ensures
        sampled_sum_spec(size, theta_size, gamma, rew1, v1, s, acts, rng, k)
            == sampled_sum_spec(size, theta_size, gamma, rew2, v2, s, acts, rng, k),
    decreases k,
{
    if k > 0 {
        lemma_sampled_sum_congruence(
            size,
            theta_size,
            gamma,
            rew1,
            rew2,
            v1,
            v2,
            s,
            acts,
            rng,
            (k - 1) as nat,
        );
        let prev = sampled_sum_spec(size, theta_size, gamma, rew1, v1, s, acts, rng, (k - 1) as nat);
        let drawn = crate::rng::lcg_next_spec(prev.1);
        let idx = (drawn as int) % (acts.len() as int);
        let a = acts[idx];
        let n = next_state_spec(s.0, s.1, s.2, a.0 as int, a.1 as int, a.2 as int, size, theta_size);
        assert(state_in_bounds(size, theta_size, n));
    }
}

/// Two stochastic sweeps over pointwise-equal tables, from the same
/// generator state, produce pointwise-equal tables.
proof fn lemma_stoch_updated_congruence(
    size: int,
    theta_size: int,
    gamma: int,
    samples: nat,
    rew: Map<(int, int), i64>,
    acts: Seq<(isize, isize, isize)>,
    v1: Map<(int, int, int), i64>,
    v2: Map<(int, int, int), i64>,
    rng0: u64,
    s: (int, int, int),
)
    requires
        1 <= size,
        1 <= theta_size,
        acts.len() >= 1,
        forall|x: (int, int, int)|
            state_in_bounds(size, theta_size, x) ==> #[trigger] v1[x] == v2[x],
        state_in_bounds(size, theta_size, s),
    ensures
        stoch_updated_spec(size, theta_size, gamma, samples, rew, acts, v1, rng0, s)
            == stoch_updated_spec(size, theta_size, gamma, samples, rew, acts, v2, rng0, s),
{
    reveal(stoch_updated_spec);
    if !is_goal(size, s.0, s.1) {
        lemma_sampled_sum_congruence(
            size,
            theta_size,
            gamma,
            rew,
            rew,
            v1,
            v2,
            s,
            acts,
            rng_at_state(size, theta_size, samples, rng0, s),
            samples,
        );
    }
}

/// The average of a fixed number of uniformly sampled one-step backups at
/// one state, advancing the generator once per sample. This is the
/// stochastic rule's inner step; it approximates a random policy's
/// evaluation backup, not the optimality backup.
pub fn sampled_value(
    i: usize,
    j: usize,
    theta: usize,
    gamma: i64,
    size: usize,
    theta_size: usize,
    sample_count: usize,
    actions: &Vec<(isize, isize, isize)>,
    old_values: &Grid3,
    rewards: &Grid2,
    rng: &mut crate::rng::SeededRng,
) -> (v: i64)
    requires
        MIN_GRID_SIZE <= size <= MAX_GRID_SIZE,
        1 <= theta_size <= MAX_HEADING_COUNT,
        i < size,
        j < size,
        theta < theta_size,
        0 < gamma <= SCALE,
        1 <= sample_count <= MAX_SAMPLE_COUNT,
        actions_ok(actions@, theta_size as int),
        grid2_dim(*rewards) == (size as int, size as int),
        grid3_dim(*old_values) == (size as int, size as int, theta_size as int),
        rewards_ok(size as int, grid2_at(*rewards)),
        vals_in(size as int, theta_size as int, grid3_at(*old_values), VALUE_FLOOR as int, 0),
    ensures
        v == sampled_value_spec(
            size as int,
            theta_size as int,
            gamma as int,
            grid2_at(*rewards),
            grid3_at(*old_values),
            (i as int, j as int, theta as int),
            actions@,
            old(rng).state,
            sample_count as nat,
        ),
        final (rng).state == sampled_sum_spec(
            size as int,
            theta_size as int,
            gamma as int,
            grid2_at(*rewards),
            grid3_at(*old_values),
            (i as int, j as int, theta as int),
            actions@,
            old(rng).state,
            sample_count as nat,
        ).1,
{
    let ghost rew = grid2_at(*rewards);
    let ghost vold = grid3_at(*old_values);
    let ghost s = (i as int, j as int, theta as int);
    let ghost rng0 = old(rng).state;
    let mut acc: u128 = 0;
    let mut k: usize = 0;
    while k < sample_count
        invariant
            MIN_GRID_SIZE <= size <= MAX_GRID_SIZE,
            1 <= theta_size <= MAX_HEADING_COUNT,
            i < size,
            j < size,
            theta < theta_size,
            0 < gamma <= SCALE,
            1 <= sample_count <= MAX_SAMPLE_COUNT,
            actions_ok(actions@, theta_size as int),
            grid2_dim(*rewards) == (size as int, size as int),
            grid3_dim(*old_values) == (size as int, size as int, theta_size as int),
            rewards_ok(size as int, grid2_at(*rewards)),
            vals_in(size as int, theta_size as int, grid3_at(*old_values), VALUE_FLOOR as int, 0),
            rew == grid2_at(*rewards),
            vold == grid3_at(*old_values),
            s == (i as int, j as int, theta as int),
            k <= sample_count,
            acc == -(sampled_sum_spec(
                size as int,
                theta_size as int,
                gamma as int,
                rew,
                vold,
                s,
                actions@,
                rng0,
                k as nat,
            ).0),
            rng.state == sampled_sum_spec(
                size as int,
                theta_size as int,
                gamma as int,
                rew,
                vold,
                s,
                actions@,
                rng0,
                k as nat,
            ).1,
            acc <= k * (3_300_000_000_000_000u128 as int),
        decreases sample_count - k,
    {
        let idx = rng.next_below(actions.len());
        let b = action_value(
            i,
            j,
            theta,
            gamma,
            size,
            theta_size,
            false,
            actions[idx],
            old_values,
            rewards,
        );
        proof {
            lemma_backup_range(
                size as int,
                theta_size as int,
                gamma as int,
                false,
                rew,
                vold,
                s,
                actions@[idx as int],
                VALUE_FLOOR as int,
            );
            assert((k + 1) * (3_300_000_000_000_000u128 as int) == k * (
            3_300_000_000_000_000u128 as int) + 3_300_000_000_000_000) by (nonlinear_arith);
            assert(k * (3_300_000_000_000_000u128 as int) <= 1_000_000 * 3_300_000_000_000_000)
                by (nonlinear_arith)
                requires
                    0 <= k <= 1_000_000,
            ;
        }
        acc = acc + ((-b) as u128);
        k = k + 1;
    }
    proof {
        lemma_sampled_sum_range(
            size as int,
            theta_size as int,
            gamma as int,
            rew,
            vold,
            s,
            actions@,
            rng0,
            sample_count as nat,
            VALUE_FLOOR as int,
        );
        assert(sample_count * (VALUE_FLOOR - VALUE_DROP) >= 1_000_000 * (VALUE_FLOOR - VALUE_DROP))
            by (nonlinear_arith)
            requires
                1 <= sample_count <= 1_000_000,
                VALUE_FLOOR - VALUE_DROP < 0,
        ;
        vstd::arithmetic::div_mod::lemma_div_is_ordered(
            acc as int,
            sample_count as int * (VALUE_DROP - VALUE_FLOOR),
            sample_count as int,
        );
        assert(acc as int <= sample_count as int * (VALUE_DROP - VALUE_FLOOR))
            by (nonlinear_arith)
            requires
                acc == -(sampled_sum_spec(
                    size as int,
                    theta_size as int,
                    gamma as int,
                    rew,
                    vold,
                    s,
                    actions@,
                    rng0,
                    sample_count as nat,
                ).0),
                sampled_sum_spec(
                    size as int,
                    theta_size as int,
                    gamma as int,
                    rew,
                    vold,
                    s,
                    actions@,
                    rng0,
                    sample_count as nat,
                ).0 >= sample_count as int * (VALUE_FLOOR as int - VALUE_DROP),
        ;
        vstd::arithmetic::div_mod::lemma_div_multiples_vanish(
            VALUE_DROP - VALUE_FLOOR,
            sample_count as int,
        );
    }
    let avg: u128 = acc / (sample_count as u128);
    -(avg as i64)
}

/// At the first state of a sweep no samples have been drawn yet.
proof fn lemma_rng_at_start(size: int, theta_size: int, samples: nat, rng0: u64)
    requires
        MIN_GRID_SIZE <= size,
        1 <= theta_size,
    ensures
        rng_at_state(size, theta_size, samples, rng0, (0int, 0int, 0int)) == rng0,
{
    reveal(rng_at_state);
    let z = (0int, 0int, 0int);
    assert((z.0 * size + z.1) * theta_size + z.2 == 0) by (nonlinear_arith)
        requires
            z.0 == 0 && z.1 == 0 && z.2 == 0,
    ;
    assert(nongoal_before(size, theta_size, z) == 0);
    assert(crate::rng::lcg_iter_spec(rng0, 0) == rng0);
}

/// Past the last state of a sweep, every non-goal state has drawn its
/// samples: the generator stands where `rng_after_sweep` says.
proof fn lemma_rng_at_end(size: int, theta_size: int, samples: nat, rng0: u64)
    requires
        MIN_GRID_SIZE <= size,
        1 <= theta_size,
    ensures
        rng_at_state(size, theta_size, samples, rng0, (size, 0int, 0int)) == rng_after_sweep(
            size,
            theta_size,
            samples,
            rng0,
        ),
{
    reveal(rng_at_state);
    let end = (size, 0int, 0int);
    assert(lex_rank(size, theta_size, end) == (size * size + 0) * theta_size);
    assert((size * size + 0) * theta_size == size * size * theta_size && (size * size - 1)
        * theta_size == size * size * theta_size - theta_size) by (nonlinear_arith);
    assert(goal_slices_before(size, theta_size, end) == theta_size);
    assert(nongoal_before(size, theta_size, end) == (size * size - 1) * theta_size);
}

/// Range of a whole stochastic sweep: with old values in `[lo, 0]`, every
/// new value lies in `[lo - VALUE_DROP, 0]`.
proof fn lemma_stoch_sweep_range(
    size: int,
    theta_size: int,
    gamma: int,
    samples: nat,
    rew: Map<(int, int), i64>,
    acts: Seq<(isize, isize, isize)>,
    vals: Map<(int, int, int), i64>,
    rng0: u64,
    newmap: Map<(int, int, int), i64>,
    lo: int,
)
    requires
        MIN_GRID_SIZE <= size,
        1 <= theta_size,
        0 < gamma <= SCALE,
        rewards_ok(size, rew),
        acts.len() >= 1,
        1 <= samples,
        lo <= 0,
        vals_in(size, theta_size, vals, lo, 0),
        forall|s: (int, int, int)|
            state_in_bounds(size, theta_size, s) ==> #[trigger] newmap[s] == stoch_updated_spec(
                size,
                theta_size,
                gamma,
                samples,
                rew,
                acts,
                vals,
                rng0,
                s,
            ),
    ensures
        vals_in(size, theta_size, newmap, lo - VALUE_DROP, 0),
{
    assert forall|s: (int, int, int)|
        state_in_bounds(size, theta_size, s) implies lo - VALUE_DROP <= #[trigger] newmap[s]
        <= 0 by {
        reveal(stoch_updated_spec);
        if !is_goal(size, s.0, s.1) {
            lemma_sampled_value_range(
                size,
                theta_size,
                gamma,
                rew,
                vals,
                s,
                acts,
                rng_at_state(size, theta_size, samples, rng0, s),
                samples,
                lo,
            );
        }
    }
}

/// The sweep's bookkeeping up to a frontier `(fi, fj, ft)` in row-major
/// order: every earlier state already holds its sampled value, and
/// `delta` is the largest absolute change so far, witnessed unless zero.
spec fn stoch_frontier_ok(
    size: int,
    theta_size: int,
    gamma: int,
    samples: nat,
    rew: Map<(int, int), i64>,
    acts: Seq<(isize, isize, isize)>,
    vold: Map<(int, int, int), i64>,
    rng0: u64,
    newmap: Map<(int, int, int), i64>,
    delta: int,
    fi: int,
    fj: int,
    ft: int,
) -> bool {
    &&& forall|s: (int, int, int)|
        state_in_bounds(size, theta_size, s) && lex_before(s, fi, fj, ft)
            ==> #[trigger] newmap[s] == stoch_updated_spec(
            size,
            theta_size,
            gamma,
            samples,
            rew,
            acts,
            vold,
            rng0,
            s,
        )
    &&& forall|s: (int, int, int)|
        state_in_bounds(size, theta_size, s) && lex_before(s, fi, fj, ft) ==> -delta
            <= #[trigger] newmap[s] - vold[s] <= delta
    &&& (delta == 0 || exists|s: (int, int, int)|
        state_in_bounds(size, theta_size, s) && lex_before(s, fi, fj, ft) && (#[trigger] newmap[s]
            - vold[s] == delta || vold[s] - newmap[s] == delta))
}

/// What one non-goal state's sampled update means for the sweep: the
/// drawn average is that state's new value, and the generator moves to
/// where the next state expects it.
#[verifier::rlimit(100)]
proof fn lemma_stoch_cell_step(
    size: int,
    theta_size: int,
    gamma: int,
    samples: nat,
    rew: Map<(int, int), i64>,
    acts: Seq<(isize, isize, isize)>,
    vold: Map<(int, int, int), i64>,
    rng0: u64,
    s: (int, int, int),
    rng_in: u64,
    rng_out: u64,
    v: int,
    lo: int,
)
    requires
        MIN_GRID_SIZE <= size,
        1 <= theta_size,
        0 < gamma <= SCALE,
        rewards_ok(size, rew),
        acts.len() >= 1,
        1 <= samples,
        lo <= 0,
        vals_in(size, theta_size, vold, lo, 0),
        state_in_bounds(size, theta_size, s),
        !is_goal(size, s.0, s.1),
        rng_in == rng_at_state(size, theta_size, samples, rng0, s),
        v == sampled_value_spec(size, theta_size, gamma, rew, vold, s, acts, rng_in, samples),
        rng_out == sampled_sum_spec(
            size,
            theta_size,
            gamma,
            rew,
            vold,
            s,
            acts,
            rng_in,
            samples,
        ).1,
    ensures
        v == stoch_updated_spec(size, theta_size, gamma, samples, rew, acts, vold, rng0, s),
        rng_out == rng_at_state(size, theta_size, samples, rng0, (s.0, s.1, s.2 + 1)),
        lo - VALUE_DROP <= v <= 0,
{
    reveal(stoch_updated_spec);
    lemma_sampled_value_range(size, theta_size, gamma, rew, vold, s, acts, rng_in, samples, lo);
    lemma_sampled_sum_rng(size, theta_size, gamma, rew, vold, s, acts, rng_in, samples);
    lemma_rng_advance(size, theta_size, samples, rng0, s);
}

/// One more non-goal state's draws move the generator `samples` steps.
proof fn lemma_rng_advance(
    size: int,
    theta_size: int,
    samples: nat,
    rng0: u64,
    s: (int, int, int),
)
    requires
        MIN_GRID_SIZE <= size,
        1 <= theta_size,
        state_in_bounds(size, theta_size, s),
        !is_goal(size, s.0, s.1),
    ensures
        rng_at_state(size, theta_size, samples, rng0, (s.0, s.1, s.2 + 1))
            == crate::rng::lcg_iter_spec(
            rng_at_state(size, theta_size, samples, rng0, s),
            samples,
        ),
{
    reveal(rng_at_state);
    let count = nongoal_before(size, theta_size, s);
    assert(goal_slices_before(size, theta_size, (s.0, s.1, s.2 + 1)) == goal_slices_before(
        size,
        theta_size,
        s,
    ));
    assert(nongoal_before(size, theta_size, (s.0, s.1, s.2 + 1)) == count + 1);
    lemma_nongoal_count_bounds(size, theta_size, s);
    crate::rng::lemma_lcg_iter_add(rng0, (samples * count) as nat, samples);
    assert(samples * (count + 1) == samples * count + samples) by (nonlinear_arith);
    assert(0 <= samples * count) by (nonlinear_arith)
        requires
            0 <= samples,
            0 <= count,
    ;
}

/// Within the grid, at least as many states as goal slices precede `s`.
proof fn lemma_nongoal_count_bounds(size: int, theta_size: int, s: (int, int, int))
    requires
        MIN_GRID_SIZE <= size,
        1 <= theta_size,
        state_in_bounds(size, theta_size, s),
    ensures
        0 <= nongoal_before(size, theta_size, s),
{
    let g = size - GOAL_OFFSET;
    assert(0 <= s.0 * size + s.1) by (nonlinear_arith)
        requires
            0 <= s.0,
            0 <= s.1,
            1 <= size,
    ;
    if s.0 > g || (s.0 == g && s.1 > g) {
        assert(g * size + g + 1 <= s.0 * size + s.1) by (nonlinear_arith)
            requires
                1 <= size,
                0 <= g < size,
                0 <= s.1 < size,
                0 <= s.0,
                s.0 > g || (s.0 == g && s.1 > g),
        ;
        assert((g * size + g + 1) * theta_size <= (s.0 * size + s.1) * theta_size)
            by (nonlinear_arith)
            requires
                1 <= theta_size,
                0 <= g,
                g * size + g + 1 <= s.0 * size + s.1,
        ;
        assert(theta_size <= (g * size + g + 1) * theta_size) by (nonlinear_arith)
            requires
                1 <= theta_size,
                0 <= g,
                0 <= size,
        ;
    } else if s.0 == g && s.1 == g {
        assert(0 <= (s.0 * size + s.1) * theta_size) by (nonlinear_arith)
            requires
                0 <= s.0 * size + s.1,
                1 <= theta_size,
        ;
    } else {
        assert(0 <= (s.0 * size + s.1) * theta_size) by (nonlinear_arith)
            requires
                0 <= s.0 * size + s.1,
                1 <= theta_size,
        ;
    }
}

/// At the goal cell the sweep copies the old value and draws nothing.
proof fn lemma_stoch_cell_goal(
    size: int,
    theta_size: int,
    gamma: int,
    samples: nat,
    rew: Map<(int, int), i64>,
    acts: Seq<(isize, isize, isize)>,
    vold: Map<(int, int, int), i64>,
    rng0: u64,
    s: (int, int, int),
)
    requires
        MIN_GRID_SIZE <= size,
        1 <= theta_size,
        state_in_bounds(size, theta_size, s),
        is_goal(size, s.0, s.1),
    ensures
        stoch_updated_spec(size, theta_size, gamma, samples, rew, acts, vold, rng0, s) == vold[s],
        rng_at_state(size, theta_size, samples, rng0, (s.0, s.1, s.2 + 1)) == rng_at_state(
            size,
            theta_size,
            samples,
            rng0,
            s,
        ),
{
    reveal(rng_at_state);
    reveal(stoch_updated_spec);
    assert(nongoal_before(size, theta_size, (s.0, s.1, s.2 + 1)) == nongoal_before(
        size,
        theta_size,
        s,
    ));
}

/// Crossing to the next column of the sweep consumes no draws.
proof fn lemma_rng_next_column(size: int, theta_size: int, samples: nat, rng0: u64, i: int, j: int)
    requires
        MIN_GRID_SIZE <= size,
        1 <= theta_size,
    ensures
        rng_at_state(size, theta_size, samples, rng0, (i, j, theta_size)) == rng_at_state(
            size,
            theta_size,
            samples,
            rng0,
            (i, j + 1, 0),
        ),
{
    reveal(rng_at_state);
    let a = (i, j, theta_size);
    let b = (i, j + 1, 0int);
    let x = i * size + j;
    assert((x + 1) * theta_size == x * theta_size + theta_size) by (nonlinear_arith);
    assert(lex_rank(size, theta_size, a) == x * theta_size + theta_size);
    assert(lex_rank(size, theta_size, b) == (x + 1) * theta_size);
    assert(goal_slices_before(size, theta_size, a) == goal_slices_before(size, theta_size, b));
}

/// Crossing to the next row of the sweep consumes no draws.
proof fn lemma_rng_next_row(size: int, theta_size: int, samples: nat, rng0: u64, i: int)
    requires
        MIN_GRID_SIZE <= size,
        1 <= theta_size,
    ensures
        rng_at_state(size, theta_size, samples, rng0, (i, size, 0)) == rng_at_state(
            size,
            theta_size,
            samples,
            rng0,
            (i + 1, 0, 0),
        ),
{
    reveal(rng_at_state);
    let a = (i, size, 0int);
    let b = (i + 1, 0int, 0int);
    assert((i * size + size) * theta_size == ((i + 1) * size) * theta_size) by (nonlinear_arith);
    assert(lex_rank(size, theta_size, a) == (i * size + size) * theta_size);
    assert(lex_rank(size, theta_size, b) == ((i + 1) * size) * theta_size);
    assert(goal_slices_before(size, theta_size, a) == goal_slices_before(size, theta_size, b));
}

/// Update every heading of one cell `(i, j)` of the stochastic sweep.
#[verifier::loop_isolation(false)]
#[verifier::rlimit(100)]
fn stoch_sweep_cell(
    size: usize,
    theta_size: usize,
    gamma: i64,
    sample_count: usize,
    actions: &Vec<(isize, isize, isize)>,
    rewards: &Grid2,
    old_vals: &Grid3,
    new_vals: &mut Grid3,
    rng: &mut crate::rng::SeededRng,
    delta: i64,
    i: usize,
    j: usize,
    lo: Ghost<int>,
    rng0: Ghost<u64>,
) -> (d: i64)
    requires
        MIN_GRID_SIZE <= size <= MAX_GRID_SIZE,
        1 <= theta_size <= MAX_HEADING_COUNT,
        0 < gamma <= SCALE,
        1 <= sample_count <= MAX_SAMPLE_COUNT,
        actions_ok(actions@, theta_size as int),
        grid2_dim(*rewards) == (size as int, size as int),
        grid3_dim(*old_vals) == (size as int, size as int, theta_size as int),
        grid3_dim(*old(new_vals)) == (size as int, size as int, theta_size as int),
        rewards_ok(size as int, grid2_at(*rewards)),
        VALUE_FLOOR + VALUE_DROP <= lo@ <= 0,
        vals_in(size as int, theta_size as int, grid3_at(*old_vals), lo@, 0),
        i < size,
        j < size,
        0 <= delta,
        old(rng).state == rng_at_state(
            size as int,
            theta_size as int,
            sample_count as nat,
            rng0@,
            (i as int, j as int, 0),
        ),
        stoch_frontier_ok(
            size as int,
            theta_size as int,
            gamma as int,
            sample_count as nat,
            grid2_at(*rewards),
            actions@,
            grid3_at(*old_vals),
            rng0@,
            grid3_at(*old(new_vals)),
            delta as int,
            i as int,
            j as int,
            0,
        ),
    ensures
        grid3_dim(*final(new_vals)) == (size as int, size as int, theta_size as int),
        final (rng).state == rng_at_state(
            size as int,
            theta_size as int,
            sample_count as nat,
            rng0@,
            (i as int, j as int + 1, 0),
        ),
        0 <= d,
        stoch_frontier_ok(
            size as int,
            theta_size as int,
            gamma as int,
            sample_count as nat,
            grid2_at(*rewards),
            actions@,
            grid3_at(*old_vals),
            rng0@,
            grid3_at(*final(new_vals)),
            d as int,
            i as int,
            j as int + 1,
            0,
        ),
{
    let ghost vold = grid3_at(*old_vals);
    let ghost rew = grid2_at(*rewards);
    let ghost n_samp: nat = sample_count as nat;
    let goal: usize = size - GOAL_OFFSET;
    let mut delta = delta;
    let mut t: usize = 0;
    while t < theta_size
        invariant
            t <= theta_size,
            0 <= delta,
            grid3_dim(*new_vals) == (size as int, size as int, theta_size as int),
            rng.state == rng_at_state(
                size as int,
                theta_size as int,
                n_samp,
                rng0@,
                (i as int, j as int, t as int),
            ),
            stoch_frontier_ok(
                size as int,
                theta_size as int,
                gamma as int,
                n_samp,
                rew,
                actions@,
                vold,
                rng0@,
                grid3_at(*new_vals),
                delta as int,
                i as int,
                j as int,
                t as int,
            ),
        decreases theta_size - t,
    {
        let ghost cur = (i as int, j as int, t as int);
        let ghost nxt = (i as int, j as int, t as int + 1);
        let new_value: i64 = if i == goal && j == goal {
            proof {
                lemma_stoch_cell_goal(
                    size as int,
                    theta_size as int,
                    gamma as int,
                    n_samp,
                    rew,
                    actions@,
                    vold,
                    rng0@,
                    cur,
                );
            }
            old_vals.get(i, j, t)
        } else {
            let ghost rng_in = rng.state;
            let v = sampled_value(
                i,
                j,
                t,
                gamma,
                size,
                theta_size,
                sample_count,
                actions,
                old_vals,
                rewards,
                rng,
            );
            proof {
                lemma_stoch_cell_step(
                    size as int,
                    theta_size as int,
                    gamma as int,
                    n_samp,
                    rew,
                    actions@,
                    vold,
                    rng0@,
                    cur,
                    rng_in,
                    rng.state,
                    v as int,
                    lo@,
                );
            }
            v
        };
        let old_value = old_vals.get(i, j, t);
        let ghost map0 = grid3_at(*new_vals);
        let ghost delta0 = delta;
        new_vals.set(i, j, t, new_value);
        let diff: i64 = if new_value >= old_value {
            new_value - old_value
        } else {
            old_value - new_value
        };
        if diff > delta {
            delta = diff;
        }
        proof {
            assert(grid3_at(*new_vals)[cur] == new_value);
            if delta != delta0 {
                assert(state_in_bounds(size as int, theta_size as int, cur) && lex_before(
                    cur,
                    i as int,
                    j as int,
                    t as int + 1,
                ) && (grid3_at(*new_vals)[cur] - vold[cur] == delta || vold[cur] - grid3_at(
                    *new_vals,
                )[cur] == delta));
            } else if delta != 0 {
                let w = choose|s: (int, int, int)|
                    state_in_bounds(size as int, theta_size as int, s) && lex_before(
                        s,
                        i as int,
                        j as int,
                        t as int,
                    ) && (#[trigger] map0[s] - vold[s] == delta || vold[s] - map0[s] == delta);
                assert(w != cur);
                assert(grid3_at(*new_vals)[w] == map0[w]);
                assert(state_in_bounds(size as int, theta_size as int, w) && lex_before(
                    w,
                    i as int,
                    j as int,
                    t as int + 1,
                ) && (grid3_at(*new_vals)[w] - vold[w] == delta || vold[w] - grid3_at(
                    *new_vals,
                )[w] == delta));
            }
        }
        t = t + 1;
    }
    proof {
        lemma_rng_next_column(
            size as int,
            theta_size as int,
            n_samp,
            rng0@,
            i as int,
            j as int,
        );
    }
    delta
}

/// Update one whole row `i` of the stochastic sweep.
#[verifier::loop_isolation(false)]
#[verifier::rlimit(100)]
fn stoch_sweep_row(
    size: usize,
    theta_size: usize,
    gamma: i64,
    sample_count: usize,
    actions: &Vec<(isize, isize, isize)>,
    rewards: &Grid2,
    old_vals: &Grid3,
    new_vals: &mut Grid3,
    rng: &mut crate::rng::SeededRng,
    delta: i64,
    i: usize,
    lo: Ghost<int>,
    rng0: Ghost<u64>,
) -> (d: i64)
    requires
        MIN_GRID_SIZE <= size <= MAX_GRID_SIZE,
        1 <= theta_size <= MAX_HEADING_COUNT,
        0 < gamma <= SCALE,
        1 <= sample_count <= MAX_SAMPLE_COUNT,
        actions_ok(actions@, theta_size as int),
        grid2_dim(*rewards) == (size as int, size as int),
        grid3_dim(*old_vals) == (size as int, size as int, theta_size as int),
        grid3_dim(*old(new_vals)) == (size as int, size as int, theta_size as int),
        rewards_ok(size as int, grid2_at(*rewards)),
        VALUE_FLOOR + VALUE_DROP <= lo@ <= 0,
        vals_in(size as int, theta_size as int, grid3_at(*old_vals), lo@, 0),
        i < size,
        0 <= delta,
        old(rng).state == rng_at_state(
            size as int,
            theta_size as int,
            sample_count as nat,
            rng0@,
            (i as int, 0, 0),
        ),
        stoch_frontier_ok(
            size as int,
            theta_size as int,
            gamma as int,
            sample_count as nat,
            grid2_at(*rewards),
            actions@,
            grid3_at(*old_vals),
            rng0@,
            grid3_at(*old(new_vals)),
            delta as int,
            i as int,
            0,
            0,
        ),
    ensures
        grid3_dim(*final(new_vals)) == (size as int, size as int, theta_size as int),
        final (rng).state == rng_at_state(
            size as int,
            theta_size as int,
            sample_count as nat,
            rng0@,
            (i as int + 1, 0, 0),
        ),
        0 <= d,
        stoch_frontier_ok(
            size as int,
            theta_size as int,
            gamma as int,
            sample_count as nat,
            grid2_at(*rewards),
            actions@,
            grid3_at(*old_vals),
            rng0@,
            grid3_at(*final(new_vals)),
            d as int,
            i as int + 1,
            0,
            0,
        ),
{
    let ghost vold = grid3_at(*old_vals);
    let ghost rew = grid2_at(*rewards);
    let ghost n_samp: nat = sample_count as nat;
    let mut delta = delta;
    let mut j: usize = 0;
    while j < size
        invariant
            j <= size,
            0 <= delta,
            grid3_dim(*new_vals) == (size as int, size as int, theta_size as int),
            rng.state == rng_at_state(
                size as int,
                theta_size as int,
                n_samp,
                rng0@,
                (i as int, j as int, 0),
            ),
            stoch_frontier_ok(
                size as int,
                theta_size as int,
                gamma as int,
                n_samp,
                rew,
                actions@,
                vold,
                rng0@,
                grid3_at(*new_vals),
                delta as int,
                i as int,
                j as int,
                0,
            ),
        decreases size - j,
    {
        delta = stoch_sweep_cell(
            size,
            theta_size,
            gamma,
            sample_count,
            actions,
            rewards,
            old_vals,
            new_vals,
            rng,
            delta,
            i,
            j,
            lo,
            rng0,
        );
        j = j + 1;
    }
    proof {
        lemma_rng_next_row(size as int, theta_size as int, n_samp, rng0@, i as int);
    }
    delta
}

/// One full synchronous sweep of the stochastic rule: goal states keep
/// their value, every other state takes the average of `sample_count`
/// sampled backups of the old table, drawn in row-major state order from
/// the generator; returns the largest absolute change.
#[verifier::loop_isolation(false)]
fn sweep_once_stochastic(
    size: usize,
    theta_size: usize,
    gamma: i64,
    sample_count: usize,
    actions: &Vec<(isize, isize, isize)>,
    rewards: &Grid2,
    old_vals: &Grid3,
    new_vals: &mut Grid3,
    rng: &mut crate::rng::SeededRng,
    lo: Ghost<int>,
) -> (delta: i64)
    requires
        MIN_GRID_SIZE <= size <= MAX_GRID_SIZE,
        1 <= theta_size <= MAX_HEADING_COUNT,
        0 < gamma <= SCALE,
        1 <= sample_count <= MAX_SAMPLE_COUNT,
        actions_ok(actions@, theta_size as int),
        grid2_dim(*rewards) == (size as int, size as int),
        grid3_dim(*old_vals) == (size as int, size as int, theta_size as int),
        grid3_dim(*old(new_vals)) == (size as int, size as int, theta_size as int),
        rewards_ok(size as int, grid2_at(*rewards)),
        VALUE_FLOOR + VALUE_DROP <= lo@ <= 0,
        vals_in(size as int, theta_size as int, grid3_at(*old_vals), lo@, 0),
    ensures
        grid3_dim(*final(new_vals)) == (size as int, size as int, theta_size as int),
        forall|s: (int, int, int)|
            state_in_bounds(size as int, theta_size as int, s) ==> #[trigger] grid3_at(
                *final(new_vals),
            )[s] == stoch_updated_spec(
                size as int,
                theta_size as int,
                gamma as int,
                sample_count as nat,
                grid2_at(*rewards),
                actions@,
                grid3_at(*old_vals),
                old(rng).state,
                s,
            ),
        final (rng).state == rng_after_sweep(
            size as int,
            theta_size as int,
            sample_count as nat,
            old(rng).state,
        ),
        vals_in(size as int, theta_size as int, grid3_at(*final(new_vals)), lo@ - VALUE_DROP, 0),
        0 <= delta,
        forall|s: (int, int, int)|
            state_in_bounds(size as int, theta_size as int, s) ==> -delta <= #[trigger] grid3_at(
                *final(new_vals),
            )[s] - grid3_at(*old_vals)[s] <= delta,
        delta == 0 || exists|s: (int, int, int)|
            state_in_bounds(size as int, theta_size as int, s) && (#[trigger] grid3_at(
                *final(new_vals),
            )[s] - grid3_at(*old_vals)[s] == delta || grid3_at(*old_vals)[s] - grid3_at(
                *final(new_vals),
            )[s] == delta),
{
    let ghost vold = grid3_at(*old_vals);
    let ghost rew = grid2_at(*rewards);
    let ghost rng0 = rng.state;
    let ghost n_samp: nat = sample_count as nat;
    proof {
        lemma_rng_at_start(size as int, theta_size as int, n_samp, rng0);
    }
    let mut delta: i64 = 0;
    let mut i: usize = 0;
    while i < size
        invariant
            i <= size,
            0 <= delta,
            grid3_dim(*new_vals) == (size as int, size as int, theta_size as int),
            rng.state == rng_at_state(
                size as int,
                theta_size as int,
                n_samp,
                rng0,
                (i as int, 0, 0),
            ),
            stoch_frontier_ok(
                size as int,
                theta_size as int,
                gamma as int,
                n_samp,
                rew,
                actions@,
                vold,
                rng0,
                grid3_at(*new_vals),
                delta as int,
                i as int,
                0,
                0,
            ),
        decreases size - i,
    {
        delta = stoch_sweep_row(
            size,
            theta_size,
            gamma,
            sample_count,
            actions,
            rewards,
            old_vals,
            new_vals,
            rng,
            delta,
            i,
            lo,
            Ghost(rng0),
        );
        i = i + 1;
    }
    proof {
        lemma_rng_at_end(size as int, theta_size as int, n_samp, rng0);
        lemma_stoch_sweep_range(
            size as int,
            theta_size as int,
            gamma as int,
            n_samp,
            rew,
            actions@,
            vold,
            rng0,
            grid3_at(*new_vals),
            lo@,
        );
    }
    delta
}

/// The goal cell's value is pinned under stochastic sweeps too.
pub proof fn lemma_stoch_iterate_goal_pinned(
    size: int,
    theta_size: int,
    gamma: int,
    samples: nat,
    rew: Map<(int, int), i64>,
    acts: Seq<(isize, isize, isize)>,
    vals: Map<(int, int, int), i64>,
    rng0: u64,
    t: int,
    m: nat,
)
    requires
        MIN_GRID_SIZE <= size,
        1 <= theta_size,
        0 <= t < theta_size,
    ensures
        stoch_iterate_spec(size, theta_size, gamma, samples, rew, acts, vals, rng0, m).0[(
            size - GOAL_OFFSET,
            size - GOAL_OFFSET,
            t,
        )] == vals[(size - GOAL_OFFSET, size - GOAL_OFFSET, t)],
    decreases m,
{
    if m > 0 {
        lemma_stoch_iterate_goal_pinned(
            size,
            theta_size,
            gamma,
            samples,
            rew,
            acts,
            vals,
            rng0,
            t,
            (m - 1) as nat,
        );
        reveal(stoch_updated_spec);
        let g = size - GOAL_OFFSET;
        assert(state_in_bounds(size, theta_size, (g, g, t)));
        assert(is_goal(size, g, g));
    }
}

/// Run the stochastic value-iteration loop to convergence or the cap.
///
/// Each sweep replaces every non-goal state's value by the average of
/// `sample_count` backups of actions drawn from the seeded generator, in
/// row-major state order, so the whole run is an exact function of its
/// inputs and seed: the final table equals the configured number of
/// sampled sweeps from the initial table, as `stoch_cfg_iterate` states,
/// and two runs with the same configuration agree. The rule itself remains
/// a Monte-Carlo approximation of policy evaluation, not the optimality
/// backup.
#[verifier::loop_isolation(false)]
pub fn value_iteration_stochastic(
    cfg: &Config,
    values: &mut Grid3,
    rewards: &Grid2,
    actions: &Vec<(isize, isize, isize)>,
) -> (r: RunResult)
    requires
        cfg.valid(),
        cfg.update_rule is StochasticSampledBackup,
        grid2_dim(*rewards) == (cfg.grid_size as int, cfg.grid_size as int),
        grid3_dim(*old(values)) == (
            cfg.grid_size as int,
            cfg.grid_size as int,
            cfg.heading_count as int,
        ),
        rewards_ok(cfg.grid_size as int, grid2_at(*rewards)),
        vals_in(
            cfg.grid_size as int,
            cfg.heading_count as int,
            grid3_at(*old(values)),
            VALUE_START_FLOOR as int,
            0,
        ),
        actions_ok(actions@, cfg.heading_count as int),
    ensures
        grid3_dim(*final(values)) == (
            cfg.grid_size as int,
            cfg.grid_size as int,
            cfg.heading_count as int,
        ),
        1 <= r.iterations <= cfg.max_iterations,
        forall|s: (int, int, int)|
            state_in_bounds(cfg.grid_size as int, cfg.heading_count as int, s)
                ==> #[trigger] grid3_at(*final(values))[s] == stoch_cfg_iterate(
                *cfg,
                grid2_at(*rewards),
                actions@,
                grid3_at(*old(values)),
                r.iterations as nat,
            ).0[s],
        forall|t: int|
            0 <= t < cfg.heading_count ==> #[trigger] grid3_at(*final(values))[(
                cfg.grid_size - GOAL_OFFSET,
                cfg.grid_size - GOAL_OFFSET,
                t,
            )] == grid3_at(*old(values))[(
                cfg.grid_size - GOAL_OFFSET,
                cfg.grid_size - GOAL_OFFSET,
                t,
            )],
        vals_in(
            cfg.grid_size as int,
            cfg.heading_count as int,
            grid3_at(*final(values)),
            VALUE_FLOOR as int,
            0,
        ),
        0 <= r.final_delta,
        r.outcome is Converged <==> r.final_delta < cfg.convergence_threshold,
        r.outcome is Converged ==> delta_below(
            cfg.grid_size as int,
            cfg.heading_count as int,
            stoch_cfg_iterate(
                *cfg,
                grid2_at(*rewards),
                actions@,
                grid3_at(*old(values)),
                (r.iterations - 1) as nat,
            ).0,
            stoch_cfg_iterate(
                *cfg,
                grid2_at(*rewards),
                actions@,
                grid3_at(*old(values)),
                r.iterations as nat,
            ).0,
            cfg.convergence_threshold as int,
        ),
        forall|n: int|
            1 <= n < r.iterations ==> !delta_below(
                cfg.grid_size as int,
                cfg.heading_count as int,
                stoch_cfg_iterate(
                    *cfg,
                    grid2_at(*rewards),
                    actions@,
                    grid3_at(*old(values)),
                    (n - 1) as nat,
                ).0,
                #[trigger] stoch_cfg_iterate(
                    *cfg,
                    grid2_at(*rewards),
                    actions@,
                    grid3_at(*old(values)),
                    n as nat,
                ).0,
                cfg.convergence_threshold as int,
            ),
        r.outcome is MaxIterExceeded ==> r.iterations == cfg.max_iterations && !delta_below(
            cfg.grid_size as int,
            cfg.heading_count as int,
            stoch_cfg_iterate(
                *cfg,
                grid2_at(*rewards),
                actions@,
                grid3_at(*old(values)),
                (r.iterations - 1) as nat,
            ).0,
            stoch_cfg_iterate(
                *cfg,
                grid2_at(*rewards),
                actions@,
                grid3_at(*old(values)),
                r.iterations as nat,
            ).0,
            cfg.convergence_threshold as int,
        ),
{
    let size = cfg.grid_size;
    let theta_size = cfg.heading_count;
    let ghost v0 = grid3_at(*values);
    let ghost rew = grid2_at(*rewards);
    let ghost acts = actions@;
    let mut rng = crate::rng::SeededRng::new(cfg.random_seed);
    let mut scratch = Grid3::filled(size, size, theta_size, 0);
    let mut iter: usize = 0;
    let mut delta: i64 = 0;
    let mut converged: bool = false;
    while !converged && iter < cfg.max_iterations
        invariant
            iter <= cfg.max_iterations,
            converged ==> 1 <= iter,
            grid3_dim(*values) == (size as int, size as int, theta_size as int),
            grid3_dim(scratch) == (size as int, size as int, theta_size as int),
            rng.state == stoch_cfg_iterate(*cfg, rew, acts, v0, iter as nat).1,
            forall|s: (int, int, int)|
                state_in_bounds(size as int, theta_size as int, s) ==> #[trigger] grid3_at(
                    *values,
                )[s] == stoch_cfg_iterate(*cfg, rew, acts, v0, iter as nat).0[s],
            vals_in(
                size as int,
                theta_size as int,
                grid3_at(*values),
                VALUE_START_FLOOR - iter * VALUE_DROP,
                0,
            ),
            0 <= delta,
            iter >= 1 ==> forall|s: (int, int, int)|
                state_in_bounds(size as int, theta_size as int, s) ==> -delta
                    <= #[trigger] stoch_cfg_iterate(*cfg, rew, acts, v0, iter as nat).0[s]
                    - stoch_cfg_iterate(*cfg, rew, acts, v0, (iter - 1) as nat).0[s] <= delta,
            iter >= 1 ==> (delta == 0 || exists|s: (int, int, int)|
                state_in_bounds(size as int, theta_size as int, s) && (
                #[trigger] stoch_cfg_iterate(*cfg, rew, acts, v0, iter as nat).0[s]
                    - stoch_cfg_iterate(*cfg, rew, acts, v0, (iter - 1) as nat).0[s] == delta
                    || stoch_cfg_iterate(*cfg, rew, acts, v0, (iter - 1) as nat).0[s]
                    - stoch_cfg_iterate(*cfg, rew, acts, v0, iter as nat).0[s] == delta)),
            converged <==> (1 <= iter && delta < cfg.convergence_threshold),
            forall|n: int|
                1 <= n <= iter && !(converged && n == iter) ==> !delta_below(
                    size as int,
                    theta_size as int,
                    stoch_cfg_iterate(*cfg, rew, acts, v0, (n - 1) as nat).0,
                    #[trigger] stoch_cfg_iterate(*cfg, rew, acts, v0, n as nat).0,
                    cfg.convergence_threshold as int,
                ),
        decreases cfg.max_iterations - iter,
    {
        let ghost vprev = grid3_at(*values);
        let ghost rng_in = rng.state;
        let ghost lo: int = VALUE_START_FLOOR - iter * VALUE_DROP;
        proof {
            assert(iter * VALUE_DROP <= 30_000_000 * 102_000_000) by (nonlinear_arith)
                requires
                    0 <= iter <= 30_000_000,
            ;
            assert(0 <= iter * VALUE_DROP) by (nonlinear_arith)
                requires
                    0 <= iter,
            ;
            assert((iter + 1) * VALUE_DROP == iter * VALUE_DROP + VALUE_DROP) by (nonlinear_arith);
        }
        let d = sweep_once_stochastic(
            size,
            theta_size,
            cfg.discount_factor,
            cfg.sample_count,
            actions,
            rewards,
            values,
            &mut scratch,
            &mut rng,
            Ghost(lo),
        );
        proof {
            let prev = stoch_cfg_iterate(*cfg, rew, acts, v0, iter as nat);
            let next = stoch_cfg_iterate(*cfg, rew, acts, v0, (iter + 1) as nat);
            assert forall|s: (int, int, int)|
                state_in_bounds(size as int, theta_size as int, s) implies #[trigger] grid3_at(
                scratch,
            )[s] == next.0[s] by {
                lemma_stoch_updated_congruence(
                    size as int,
                    theta_size as int,
                    cfg.discount_factor as int,
                    cfg.sample_count as nat,
                    rew,
                    acts,
                    vprev,
                    prev.0,
                    rng_in,
                    s,
                );
            }
        }
        core::mem::swap(values, &mut scratch);
        iter = iter + 1;
        delta = d;
        converged = d < cfg.convergence_threshold;
        proof {
            let prev = stoch_cfg_iterate(*cfg, rew, acts, v0, (iter - 1) as nat);
            let next = stoch_cfg_iterate(*cfg, rew, acts, v0, iter as nat);
            assert forall|s: (int, int, int)|
                state_in_bounds(size as int, theta_size as int, s) implies -delta
                <= #[trigger] next.0[s] - prev.0[s] <= delta by {
                assert(grid3_at(*values)[s] == next.0[s]);
                assert(vprev[s] == prev.0[s]);
                assert(-delta <= grid3_at(*values)[s] - vprev[s] <= delta);
            }
            if delta != 0 {
                let w = choose|s: (int, int, int)|
                    state_in_bounds(size as int, theta_size as int, s) && (#[trigger] grid3_at(
                        *values,
                    )[s] - vprev[s] == delta || vprev[s] - grid3_at(*values)[s] == delta);
                assert(state_in_bounds(size as int, theta_size as int, w) && (next.0[w]
                    - prev.0[w] == delta || prev.0[w] - next.0[w] == delta));
            }
            if !converged {
                assert(delta >= cfg.convergence_threshold);
                let w = choose|s: (int, int, int)|
                    state_in_bounds(size as int, theta_size as int, s) && (#[trigger] next.0[s]
                        - prev.0[s] == delta || prev.0[s] - next.0[s] == delta);
                assert(!delta_below(
                    size as int,
                    theta_size as int,
                    prev.0,
                    next.0,
                    cfg.convergence_threshold as int,
                ));
            }
        }
    }
    let outcome = if converged {
        Outcome::Converged
    } else {
        Outcome::MaxIterExceeded
    };
    proof {
        if !converged {
            assert(iter == cfg.max_iterations);
            assert(delta >= cfg.convergence_threshold);
        }
        assert forall|t: int|
            0 <= t < cfg.heading_count implies #[trigger] grid3_at(*values)[(
            cfg.grid_size - GOAL_OFFSET,
            cfg.grid_size - GOAL_OFFSET,
            t,
        )] == v0[(cfg.grid_size - GOAL_OFFSET, cfg.grid_size - GOAL_OFFSET, t)] by {
            lemma_stoch_iterate_goal_pinned(
                size as int,
                theta_size as int,
                cfg.discount_factor as int,
                cfg.sample_count as nat,
                rew,
                acts,
                v0,
                cfg.random_seed,
                t,
                iter as nat,
            );
            assert(state_in_bounds(
                size as int,
                theta_size as int,
                (size - GOAL_OFFSET as int, size - GOAL_OFFSET as int, t),
            ));
        }
        assert(iter * VALUE_DROP <= 30_000_000 * 102_000_000) by (nonlinear_arith)
            requires
                0 <= iter <= 30_000_000,
        ;
    }
    RunResult { outcome, iterations: iter, final_delta: delta }
}

/// Whether a per-heading action table is usable: one action list per
/// heading, each non-empty with bounded deltas.
pub open spec fn action_table_ok(
    table: Seq<Vec<(isize, isize, isize)>>,
    theta_size: int,
) -> bool {
    &&& table.len() == theta_size
    &&& forall|t: int| 0 <= t < theta_size ==> actions_ok(#[trigger] table[t]@, theta_size)
}

/// A state's value after one sweep when the action list depends on the
/// current heading, as it does for the continuous heading-relative family.
pub open spec fn dir_updated_spec(
    size: int,
    theta_size: int,
    gamma: int,
    subtract_cost: bool,
    rew: Map<(int, int), i64>,
    table: Seq<Vec<(isize, isize, isize)>>,
    vals: Map<(int, int, int), i64>,
    s: (int, int, int),
) -> int {
    updated_spec(size, theta_size, gamma, subtract_cost, rew, table[s.2]@, vals, s)
}

/// The whole table after one synchronous sweep with per-heading actions.
pub open spec fn dir_sweep_spec(
    size: int,
    theta_size: int,
    gamma: int,
    subtract_cost: bool,
    rew: Map<(int, int), i64>,
    table: Seq<Vec<(isize, isize, isize)>>,
    vals: Map<(int, int, int), i64>,
) -> Map<(int, int, int), i64> {
    Map::new(
        |s: (int, int, int)| state_in_bounds(size, theta_size, s),
        |s: (int, int, int)|
            dir_updated_spec(size, theta_size, gamma, subtract_cost, rew, table, vals, s) as i64,
    )
}

/// The table after `n` per-heading sweeps from `vals`.
pub open spec fn dir_iterate_spec(
    size: int,
    theta_size: int,
    gamma: int,
    subtract_cost: bool,
    rew: Map<(int, int), i64>,
    table: Seq<Vec<(isize, isize, isize)>>,
    vals: Map<(int, int, int), i64>,
    n: nat,
) -> Map<(int, int, int), i64>
    decreases n,
{
    if n == 0 {
        vals
    } else {
        dir_sweep_spec(
            size,
            theta_size,
            gamma,
            subtract_cost,
            rew,
            table,
            dir_iterate_spec(
                size,
                theta_size,
                gamma,
                subtract_cost,
                rew,
                table,
                vals,
                (n - 1) as nat,
            ),
        )
    }
}

/// The per-heading run the configuration describes, after `n` sweeps.
pub open spec fn dir_cfg_iterate(
    cfg: Config,
    rew: Map<(int, int), i64>,
    table: Seq<Vec<(isize, isize, isize)>>,
    vals: Map<(int, int, int), i64>,
    n: nat,
) -> Map<(int, int, int), i64> {
    dir_iterate_spec(
        cfg.grid_size as int,
        cfg.heading_count as int,
        cfg.discount_factor as int,
        cfg.subtracts_cost(),
        rew,
        table,
        vals,
        n,
    )
}

/// The goal cell's value is pinned under per-heading sweeps too.
pub proof fn lemma_dir_iterate_goal_pinned(
    size: int,
    theta_size: int,
    gamma: int,
    subtract_cost: bool,
    rew: Map<(int, int), i64>,
    table: Seq<Vec<(isize, isize, isize)>>,
    vals: Map<(int, int, int), i64>,
    t: int,
    n: nat,
)
    requires
        MIN_GRID_SIZE <= size,
        1 <= theta_size,
        0 <= t < theta_size,
    ensures
        dir_iterate_spec(size, theta_size, gamma, subtract_cost, rew, table, vals, n)[(
            size - GOAL_OFFSET,
            size - GOAL_OFFSET,
            t,
        )] == vals[(size - GOAL_OFFSET, size - GOAL_OFFSET, t)],
    decreases n,
{
    if n > 0 {
        lemma_dir_iterate_goal_pinned(
            size,
            theta_size,
            gamma,
            subtract_cost,
            rew,
            table,
            vals,
            t,
            (n - 1) as nat,
        );
        let g = size - GOAL_OFFSET;
        assert(state_in_bounds(size, theta_size, (g, g, t)));
        assert(is_goal(size, g, g));
    }
}

/// Rotate a local-frame action set into one grid-delta action list per
/// heading, using the caller's trig table: the continuous family's
/// displacements depend on the current heading, so each heading gets the
/// list of deltas its angle produces.
pub fn precompute_action_table(
    heading_count: usize,
    local_actions: &Vec<(i64, i64, isize)>,
    trig: &crate::actions::TrigTable,
) -> (table: Vec<Vec<(isize, isize, isize)>>)
    requires
        1 <= heading_count <= MAX_HEADING_COUNT,
        trig.wf(heading_count as int),
        local_actions@.len() >= 1,
        forall|k: int|
            0 <= k < local_actions@.len()
                ==> -crate::actions::MAX_LOCAL_DISPLACEMENT <= #[trigger] local_actions@[k].0
                <= crate::actions::MAX_LOCAL_DISPLACEMENT
                && -crate::actions::MAX_LOCAL_DISPLACEMENT <= local_actions@[k].1
                <= crate::actions::MAX_LOCAL_DISPLACEMENT && -heading_count <= local_actions@[k].2
                <= heading_count,
    ensures
        action_table_ok(table@, heading_count as int),
        forall|t: int|
            0 <= t < heading_count ==> #[trigger] table@[t]@.len() == local_actions@.len(),
        forall|t: int, k: int|
            0 <= t < heading_count && 0 <= k < local_actions@.len() ==> #[trigger] table@[t]@[k]
                == ({
                let d = crate::actions::rotated_deltas(
                    local_actions@[k].0 as int,
                    local_actions@[k].1 as int,
                    trig.sin@[t] as int,
                    trig.cos@[t] as int,
                );
                (d.0 as isize, d.1 as isize, local_actions@[k].2)
            }),
{
    let mut table: Vec<Vec<(isize, isize, isize)>> = Vec::new();
    let mut t: usize = 0;
    while t < heading_count
        invariant
            t <= heading_count,
            1 <= heading_count <= MAX_HEADING_COUNT,
            trig.wf(heading_count as int),
            local_actions@.len() >= 1,
            forall|k: int|
                0 <= k < local_actions@.len()
                    ==> -crate::actions::MAX_LOCAL_DISPLACEMENT <= #[trigger] local_actions@[k].0
                    <= crate::actions::MAX_LOCAL_DISPLACEMENT
                    && -crate::actions::MAX_LOCAL_DISPLACEMENT <= local_actions@[k].1
                    <= crate::actions::MAX_LOCAL_DISPLACEMENT && -heading_count
                    <= local_actions@[k].2 <= heading_count,
            table@.len() == t,
            forall|u: int| 0 <= u < t ==> #[trigger] table@[u]@.len() == local_actions@.len(),
            forall|u: int|
                0 <= u < t ==> actions_ok(#[trigger] table@[u]@, heading_count as int),
            forall|u: int, k: int|
                0 <= u < t && 0 <= k < local_actions@.len() ==> #[trigger] table@[u]@[k] == ({
                    let d = crate::actions::rotated_deltas(
                        local_actions@[k].0 as int,
                        local_actions@[k].1 as int,
                        trig.sin@[u] as int,
                        trig.cos@[u] as int,
                    );
                    (d.0 as isize, d.1 as isize, local_actions@[k].2)
                }),
        decreases heading_count - t,
    {
        let mut row: Vec<(isize, isize, isize)> = Vec::new();
        let sin_t = trig.sin[t];
        let cos_t = trig.cos[t];
        let mut k: usize = 0;
        while k < local_actions.len()
            invariant
                t < heading_count,
                1 <= heading_count <= MAX_HEADING_COUNT,
                trig.wf(heading_count as int),
                sin_t == trig.sin@[t as int],
                cos_t == trig.cos@[t as int],
                local_actions@.len() >= 1,
                forall|m: int|
                    0 <= m < local_actions@.len()
                        ==> -crate::actions::MAX_LOCAL_DISPLACEMENT
                        <= #[trigger] local_actions@[m].0
                        <= crate::actions::MAX_LOCAL_DISPLACEMENT
                        && -crate::actions::MAX_LOCAL_DISPLACEMENT <= local_actions@[m].1
                        <= crate::actions::MAX_LOCAL_DISPLACEMENT && -heading_count
                        <= local_actions@[m].2 <= heading_count,
                k <= local_actions@.len(),
                row@.len() == k,
                forall|m: int|
                    0 <= m < k ==> action_bounded(#[trigger] row@[m], heading_count as int),
                forall|m: int|
                    0 <= m < k ==> #[trigger] row@[m] == ({
                        let d = crate::actions::rotated_deltas(
                            local_actions@[m].0 as int,
                            local_actions@[m].1 as int,
                            trig.sin@[t as int] as int,
                            trig.cos@[t as int] as int,
                        );
                        (d.0 as isize, d.1 as isize, local_actions@[m].2)
                    }),
            decreases local_actions@.len() - k,
        {
            let a = local_actions[k];
            let (dr, dc) = crate::actions::rotate_displacement(a.0, a.1, sin_t, cos_t);
            row.push((dr, dc, a.2));
            k = k + 1;
        }
        table.push(row);
        t = t + 1;
    }
    table
}

/// One full synchronous sweep with per-heading action lists.
#[verifier::loop_isolation(false)]
fn sweep_once_directional(
    size: usize,
    theta_size: usize,
    gamma: i64,
    subtract_cost: bool,
    table: &Vec<Vec<(isize, isize, isize)>>,
    rewards: &Grid2,
    old_vals: &Grid3,
    new_vals: &mut Grid3,
    lo: Ghost<int>,
) -> (delta: i64)
    requires
        MIN_GRID_SIZE <= size <= MAX_GRID_SIZE,
        1 <= theta_size <= MAX_HEADING_COUNT,
        0 < gamma <= SCALE,
        action_table_ok(table@, theta_size as int),
        grid2_dim(*rewards) == (size as int, size as int),
        grid3_dim(*old_vals) == (size as int, size as int, theta_size as int),
        grid3_dim(*old(new_vals)) == (size as int, size as int, theta_size as int),
        rewards_ok(size as int, grid2_at(*rewards)),
        VALUE_FLOOR + VALUE_DROP <= lo@ <= 0,
        vals_in(size as int, theta_size as int, grid3_at(*old_vals), lo@, 0),
    ensures
        grid3_dim(*final(new_vals)) == (size as int, size as int, theta_size as int),
        forall|s: (int, int, int)|
            state_in_bounds(size as int, theta_size as int, s) ==> #[trigger] grid3_at(
                *final(new_vals),
            )[s] == dir_updated_spec(
                size as int,
                theta_size as int,
                gamma as int,
                subtract_cost,
                grid2_at(*rewards),
                table@,
                grid3_at(*old_vals),
                s,
            ),
        vals_in(size as int, theta_size as int, grid3_at(*final(new_vals)), lo@ - VALUE_DROP, 0),
        0 <= delta,
        forall|s: (int, int, int)|
            state_in_bounds(size as int, theta_size as int, s) ==> -delta <= #[trigger] grid3_at(
                *final(new_vals),
            )[s] - grid3_at(*old_vals)[s] <= delta,
        delta == 0 || exists|s: (int, int, int)|
            state_in_bounds(size as int, theta_size as int, s) && (#[trigger] grid3_at(
                *final(new_vals),
            )[s] - grid3_at(*old_vals)[s] == delta || grid3_at(*old_vals)[s] - grid3_at(
                *final(new_vals),
            )[s] == delta),
{
    let ghost vold = grid3_at(*old_vals);
    let ghost rew = grid2_at(*rewards);
    let goal: usize = size - GOAL_OFFSET;
    let mut delta: i64 = 0;
    let mut i: usize = 0;
    while i < size
        invariant
            i <= size,
            0 <= delta,
            grid3_dim(*new_vals) == (size as int, size as int, theta_size as int),
            forall|s: (int, int, int)|
                state_in_bounds(size as int, theta_size as int, s) && lex_before(
                    s,
                    i as int,
                    0,
                    0,
                ) ==> #[trigger] grid3_at(*new_vals)[s] == dir_updated_spec(
                    size as int,
                    theta_size as int,
                    gamma as int,
                    subtract_cost,
                    rew,
                    table@,
                    vold,
                    s,
                ),
            forall|s: (int, int, int)|
                state_in_bounds(size as int, theta_size as int, s) && lex_before(
                    s,
                    i as int,
                    0,
                    0,
                ) ==> -delta <= #[trigger] grid3_at(*new_vals)[s] - vold[s] <= delta,
            delta == 0 || exists|s: (int, int, int)|
                state_in_bounds(size as int, theta_size as int, s) && lex_before(
                    s,
                    i as int,
                    0,
                    0,
                ) && (#[trigger] grid3_at(*new_vals)[s] - vold[s] == delta || vold[s] - grid3_at(
                    *new_vals,
                )[s] == delta),
        decreases size - i,
    {
        let mut j: usize = 0;
        while j < size
            invariant
                i < size,
                j <= size,
                0 <= delta,
                grid3_dim(*new_vals) == (size as int, size as int, theta_size as int),
                forall|s: (int, int, int)|
                    state_in_bounds(size as int, theta_size as int, s) && lex_before(
                        s,
                        i as int,
                        j as int,
                        0,
                    ) ==> #[trigger] grid3_at(*new_vals)[s] == dir_updated_spec(
                        size as int,
                        theta_size as int,
                        gamma as int,
                        subtract_cost,
                        rew,
                        table@,
                        vold,
                        s,
                    ),
                forall|s: (int, int, int)|
                    state_in_bounds(size as int, theta_size as int, s) && lex_before(
                        s,
                        i as int,
                        j as int,
                        0,
                    ) ==> -delta <= #[trigger] grid3_at(*new_vals)[s] - vold[s] <= delta,
                delta == 0 || exists|s: (int, int, int)|
                    state_in_bounds(size as int, theta_size as int, s) && lex_before(
                        s,
                        i as int,
                        j as int,
                        0,
                    ) && (#[trigger] grid3_at(*new_vals)[s] - vold[s] == delta || vold[s]
                        - grid3_at(*new_vals)[s] == delta),
            decreases size - j,
        {
            let mut t: usize = 0;
            while t < theta_size
                invariant
                    i < size,
                    j < size,
                    t <= theta_size,
                    0 <= delta,
                    grid3_dim(*new_vals) == (size as int, size as int, theta_size as int),
                    forall|s: (int, int, int)|
                        state_in_bounds(size as int, theta_size as int, s) && lex_before(
                            s,
                            i as int,
                            j as int,
                            t as int,
                        ) ==> #[trigger] grid3_at(*new_vals)[s] == dir_updated_spec(
                            size as int,
                            theta_size as int,
                            gamma as int,
                            subtract_cost,
                            rew,
                            table@,
                            vold,
                            s,
                        ),
                    forall|s: (int, int, int)|
                        state_in_bounds(size as int, theta_size as int, s) && lex_before(
                            s,
                            i as int,
                            j as int,
                            t as int,
                        ) ==> -delta <= #[trigger] grid3_at(*new_vals)[s] - vold[s] <= delta,
                    delta == 0 || exists|s: (int, int, int)|
                        state_in_bounds(size as int, theta_size as int, s) && lex_before(
                            s,
                            i as int,
                            j as int,
                            t as int,
                        ) && (#[trigger] grid3_at(*new_vals)[s] - vold[s] == delta || vold[s]
                            - grid3_at(*new_vals)[s] == delta),
                decreases theta_size - t,
            {
                let new_value: i64 = if i == goal && j == goal {
                    old_vals.get(i, j, t)
                } else {
                    let row: &Vec<(isize, isize, isize)> = &table[t];
                    let mut best: i64 = action_value(
                        i,
                        j,
                        t,
                        gamma,
                        size,
                        theta_size,
                        subtract_cost,
                        row[0],
                        old_vals,
                        rewards,
                    );
                    let mut k: usize = 1;
                    while k < row.len()
                        invariant
                            i < size,
                            j < size,
                            t < theta_size,
                            row@ == table@[t as int]@,
                            1 <= k <= row@.len(),
                            best == best_prefix_spec(
                                size as int,
                                theta_size as int,
                                gamma as int,
                                subtract_cost,
                                rew,
                                vold,
                                (i as int, j as int, t as int),
                                row@,
                                k as int,
                            ),
                        decreases row@.len() - k,
                    {
                        let av = action_value(
                            i,
                            j,
                            t,
                            gamma,
                            size,
                            theta_size,
                            subtract_cost,
                            row[k],
                            old_vals,
                            rewards,
                        );
                        if av > best {
                            best = av;
                        }
                        k = k + 1;
                    }
                    best
                };
                proof {
                    lemma_updated_range(
                        size as int,
                        theta_size as int,
                        gamma as int,
                        subtract_cost,
                        rew,
                        table@[t as int]@,
                        vold,
                        (i as int, j as int, t as int),
                        lo@,
                    );
                }
                let old_value = old_vals.get(i, j, t);
                let ghost map0 = grid3_at(*new_vals);
                let ghost delta0 = delta;
                new_vals.set(i, j, t, new_value);
                let diff: i64 = if new_value >= old_value {
                    new_value - old_value
                } else {
                    old_value - new_value
                };
                if diff > delta {
                    delta = diff;
                }
                proof {
                    let cur = (i as int, j as int, t as int);
                    assert(grid3_at(*new_vals)[cur] == new_value);
                    if delta != delta0 {
                        assert(state_in_bounds(size as int, theta_size as int, cur) && lex_before(
                            cur,
                            i as int,
                            j as int,
                            t as int + 1,
                        ) && (grid3_at(*new_vals)[cur] - vold[cur] == delta || vold[cur]
                            - grid3_at(*new_vals)[cur] == delta));
                    } else if delta != 0 {
                        let w = choose|s: (int, int, int)|
                            state_in_bounds(size as int, theta_size as int, s) && lex_before(
                                s,
                                i as int,
                                j as int,
                                t as int,
                            ) && (#[trigger] map0[s] - vold[s] == delta || vold[s] - map0[s]
                                == delta);
                        assert(w != cur);
                        assert(grid3_at(*new_vals)[w] == map0[w]);
                        assert(state_in_bounds(size as int, theta_size as int, w) && lex_before(
                            w,
                            i as int,
                            j as int,
                            t as int + 1,
                        ) && (grid3_at(*new_vals)[w] - vold[w] == delta || vold[w] - grid3_at(
                            *new_vals,
                        )[w] == delta));
                    }
                }
                t = t + 1;
            }
            j = j + 1;
        }
        i = i + 1;
    }
    proof {
        assert forall|s: (int, int, int)|
            state_in_bounds(size as int, theta_size as int, s) implies lo@ - VALUE_DROP
            <= #[trigger] grid3_at(*new_vals)[s] <= 0 by {
            lemma_updated_range(
                size as int,
                theta_size as int,
                gamma as int,
                subtract_cost,
                rew,
                table@[s.2]@,
                vold,
                s,
                lo@,
            );
        }
    }
    delta
}

/// Run the value-iteration loop with one action list per heading, as the
/// continuous heading-relative family requires once its displacements are
/// rotated per heading (see `precompute_action_table`). Contract and
/// behaviour mirror `value_iteration`, over the per-heading sweeps.
#[verifier::loop_isolation(false)]
pub fn value_iteration_directional(
    cfg: &Config,
    values: &mut Grid3,
    rewards: &Grid2,
    table: &Vec<Vec<(isize, isize, isize)>>,
) -> (r: RunResult)
    requires
        cfg.valid(),
        cfg.update_rule is ExactMaxBackup,
        grid2_dim(*rewards) == (cfg.grid_size as int, cfg.grid_size as int),
        grid3_dim(*old(values)) == (
            cfg.grid_size as int,
            cfg.grid_size as int,
            cfg.heading_count as int,
        ),
        rewards_ok(cfg.grid_size as int, grid2_at(*rewards)),
        vals_in(
            cfg.grid_size as int,
            cfg.heading_count as int,
            grid3_at(*old(values)),
            VALUE_START_FLOOR as int,
            0,
        ),
        action_table_ok(table@, cfg.heading_count as int),
    ensures
        grid3_dim(*final(values)) == (
            cfg.grid_size as int,
            cfg.grid_size as int,
            cfg.heading_count as int,
        ),
        1 <= r.iterations <= cfg.max_iterations,
        forall|s: (int, int, int)|
            state_in_bounds(cfg.grid_size as int, cfg.heading_count as int, s)
                ==> #[trigger] grid3_at(*final(values))[s] == dir_cfg_iterate(
                *cfg,
                grid2_at(*rewards),
                table@,
                grid3_at(*old(values)),
                r.iterations as nat,
            )[s],
        forall|t: int|
            0 <= t < cfg.heading_count ==> #[trigger] grid3_at(*final(values))[(
                cfg.grid_size - GOAL_OFFSET,
                cfg.grid_size - GOAL_OFFSET,
                t,
            )] == grid3_at(*old(values))[(
                cfg.grid_size - GOAL_OFFSET,
                cfg.grid_size - GOAL_OFFSET,
                t,
            )],
        vals_in(
            cfg.grid_size as int,
            cfg.heading_count as int,
            grid3_at(*final(values)),
            VALUE_FLOOR as int,
            0,
        ),
        0 <= r.final_delta,
        r.outcome is Converged <==> r.final_delta < cfg.convergence_threshold,
        r.outcome is Converged ==> delta_below(
            cfg.grid_size as int,
            cfg.heading_count as int,
            dir_cfg_iterate(
                *cfg,
                grid2_at(*rewards),
                table@,
                grid3_at(*old(values)),
                (r.iterations - 1) as nat,
            ),
            dir_cfg_iterate(
                *cfg,
                grid2_at(*rewards),
                table@,
                grid3_at(*old(values)),
                r.iterations as nat,
            ),
            cfg.convergence_threshold as int,
        ),
        forall|n: int|
            1 <= n < r.iterations ==> !delta_below(
                cfg.grid_size as int,
                cfg.heading_count as int,
                dir_cfg_iterate(
                    *cfg,
                    grid2_at(*rewards),
                    table@,
                    grid3_at(*old(values)),
                    (n - 1) as nat,
                ),
                #[trigger] dir_cfg_iterate(
                    *cfg,
                    grid2_at(*rewards),
                    table@,
                    grid3_at(*old(values)),
                    n as nat,
                ),
                cfg.convergence_threshold as int,
            ),
        r.outcome is MaxIterExceeded ==> r.iterations == cfg.max_iterations && !delta_below(
            cfg.grid_size as int,
            cfg.heading_count as int,
            dir_cfg_iterate(
                *cfg,
                grid2_at(*rewards),
                table@,
                grid3_at(*old(values)),
                (r.iterations - 1) as nat,
            ),
            dir_cfg_iterate(
                *cfg,
                grid2_at(*rewards),
                table@,
                grid3_at(*old(values)),
                r.iterations as nat,
            ),
            cfg.convergence_threshold as int,
        ),
{
    let size = cfg.grid_size;
    let theta_size = cfg.heading_count;
    let subtract: bool = matches!(cfg.cost_model, CostModel::RewardMinusMoveCost);
    let ghost v0 = grid3_at(*values);
    let ghost rew = grid2_at(*rewards);
    let ghost tbl = table@;
    let mut scratch = Grid3::filled(size, size, theta_size, 0);
    let mut iter: usize = 0;
    let mut delta: i64 = 0;
    let mut converged: bool = false;
    while !converged && iter < cfg.max_iterations
        invariant
            subtract == cfg.subtracts_cost(),
            iter <= cfg.max_iterations,
            converged ==> 1 <= iter,
            grid3_dim(*values) == (size as int, size as int, theta_size as int),
            grid3_dim(scratch) == (size as int, size as int, theta_size as int),
            forall|s: (int, int, int)|
                state_in_bounds(size as int, theta_size as int, s) ==> #[trigger] grid3_at(
                    *values,
                )[s] == dir_cfg_iterate(*cfg, rew, tbl, v0, iter as nat)[s],
            vals_in(
                size as int,
                theta_size as int,
                grid3_at(*values),
                VALUE_START_FLOOR - iter * VALUE_DROP,
                0,
            ),
            0 <= delta,
            iter >= 1 ==> forall|s: (int, int, int)|
                state_in_bounds(size as int, theta_size as int, s) ==> -delta
                    <= #[trigger] dir_cfg_iterate(*cfg, rew, tbl, v0, iter as nat)[s]
                    - dir_cfg_iterate(*cfg, rew, tbl, v0, (iter - 1) as nat)[s] <= delta,
            iter >= 1 ==> (delta == 0 || exists|s: (int, int, int)|
                state_in_bounds(size as int, theta_size as int, s) && (#[trigger] dir_cfg_iterate(
                    *cfg,
                    rew,
                    tbl,
                    v0,
                    iter as nat,
                )[s] - dir_cfg_iterate(*cfg, rew, tbl, v0, (iter - 1) as nat)[s] == delta
                    || dir_cfg_iterate(*cfg, rew, tbl, v0, (iter - 1) as nat)[s]
                    - dir_cfg_iterate(*cfg, rew, tbl, v0, iter as nat)[s] == delta)),
            converged <==> (1 <= iter && delta < cfg.convergence_threshold),
            forall|n: int|
                1 <= n <= iter && !(converged && n == iter) ==> !delta_below(
                    size as int,
                    theta_size as int,
                    dir_cfg_iterate(*cfg, rew, tbl, v0, (n - 1) as nat),
                    #[trigger] dir_cfg_iterate(*cfg, rew, tbl, v0, n as nat),
                    cfg.convergence_threshold as int,
                ),
        decreases cfg.max_iterations - iter,
    {
        let ghost vprev = grid3_at(*values);
        let ghost lo: int = VALUE_START_FLOOR - iter * VALUE_DROP;
        proof {
            assert(iter * VALUE_DROP <= 30_000_000 * 102_000_000) by (nonlinear_arith)
                requires
                    0 <= iter <= 30_000_000,
            ;
            assert(0 <= iter * VALUE_DROP) by (nonlinear_arith)
                requires
                    0 <= iter,
            ;
        }
        let d = sweep_once_directional(
            size,
            theta_size,
            cfg.discount_factor,
            subtract,
            table,
            rewards,
            values,
            &mut scratch,
            Ghost(lo),
        );
        proof {
            let prev_it = dir_cfg_iterate(*cfg, rew, tbl, v0, iter as nat);
            let next_it = dir_cfg_iterate(*cfg, rew, tbl, v0, (iter + 1) as nat);
            assert forall|s: (int, int, int)|
                state_in_bounds(size as int, theta_size as int, s) implies #[trigger] grid3_at(
                scratch,
            )[s] == next_it[s] by {
                lemma_updated_congruence(
                    size as int,
                    theta_size as int,
                    cfg.discount_factor as int,
                    subtract,
                    rew,
                    rew,
                    tbl[s.2]@,
                    vprev,
                    prev_it,
                    s,
                );
            }
            assert((iter + 1) * VALUE_DROP == iter * VALUE_DROP + VALUE_DROP) by (nonlinear_arith);
        }
        core::mem::swap(values, &mut scratch);
        iter = iter + 1;
        delta = d;
        converged = d < cfg.convergence_threshold;
        proof {
            let prev_it = dir_cfg_iterate(*cfg, rew, tbl, v0, (iter - 1) as nat);
            let next_it = dir_cfg_iterate(*cfg, rew, tbl, v0, iter as nat);
            assert forall|s: (int, int, int)|
                state_in_bounds(size as int, theta_size as int, s) implies -delta
                <= #[trigger] next_it[s] - prev_it[s] <= delta by {
                assert(grid3_at(*values)[s] == next_it[s]);
                assert(vprev[s] == prev_it[s]);
                assert(-delta <= grid3_at(*values)[s] - vprev[s] <= delta);
            }
            if delta != 0 {
                let w = choose|s: (int, int, int)|
                    state_in_bounds(size as int, theta_size as int, s) && (#[trigger] grid3_at(
                        *values,
                    )[s] - vprev[s] == delta || vprev[s] - grid3_at(*values)[s] == delta);
                assert(state_in_bounds(size as int, theta_size as int, w) && (next_it[w]
                    - prev_it[w] == delta || prev_it[w] - next_it[w] == delta));
            }
            if !converged {
                assert(delta >= cfg.convergence_threshold);
                let w = choose|s: (int, int, int)|
                    state_in_bounds(size as int, theta_size as int, s) && (#[trigger] next_it[s]
                        - prev_it[s] == delta || prev_it[s] - next_it[s] == delta);
                assert(!delta_below(
                    size as int,
                    theta_size as int,
                    prev_it,
                    next_it,
                    cfg.convergence_threshold as int,
                ));
            }
        }
    }
    let outcome = if converged {
        Outcome::Converged
    } else {
        Outcome::MaxIterExceeded
    };
    proof {
        if !converged {
            assert(iter == cfg.max_iterations);
            assert(delta >= cfg.convergence_threshold);
        }
        assert forall|t: int|
            0 <= t < cfg.heading_count implies #[trigger] grid3_at(*values)[(
            cfg.grid_size - GOAL_OFFSET,
            cfg.grid_size - GOAL_OFFSET,
            t,
        )] == v0[(cfg.grid_size - GOAL_OFFSET, cfg.grid_size - GOAL_OFFSET, t)] by {
            lemma_dir_iterate_goal_pinned(
                size as int,
                theta_size as int,
                cfg.discount_factor as int,
                subtract,
                rew,
                tbl,
                v0,
                t,
                iter as nat,
            );
            assert(state_in_bounds(
                size as int,
                theta_size as int,
                (size - GOAL_OFFSET as int, size - GOAL_OFFSET as int, t),
            ));
        }
        assert(iter * VALUE_DROP <= 30_000_000 * 102_000_000) by (nonlinear_arith)
            requires
                0 <= iter <= 30_000_000,
        ;
    }
    RunResult { outcome, iterations: iter, final_delta: delta }
}

} // verus!
