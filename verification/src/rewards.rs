//! The reward landscape: a base penalty everywhere, asymmetric boundary
//! penalties, an obstacle zone, a hazard (puddle) zone, and a single goal
//! cell whose reward is zero.
//!
//! Rules are applied in a fixed order — base fill, boundary, obstacle,
//! puddle, goal — so that later rules override earlier ones; the goal comes
//! last and overrides everything. [`reward_spec`] states the resulting value
//! of every cell, and [`build_reward_map`] produces a grid that matches it.

use vstd::prelude::*;
use crate::grids::Grid2;
use crate::grids::Grid3;
use crate::grids::grid2_at;
use crate::grids::grid2_dim;
use crate::grids::grid3_at;
use crate::grids::grid3_dim;

verus! {

/// One whole unit of reward or value, in fixed-point millionths.
pub const SCALE: i64 = 1_000_000;

/// Base "cost of living" written into every cell first.
pub const REWARD_BASE: i64 = -1_000_000;

/// Moderate penalty on the top and left boundary edges.
pub const REWARD_BOUNDARY_NEAR: i64 = -5_000_000;

/// Severe penalty on the bottom and right boundary edges.
pub const REWARD_BOUNDARY_FAR: i64 = -100_000_000;

/// Penalty inside the obstacle zone.
pub const REWARD_OBSTACLE: i64 = -20_000_000;

/// Penalty inside the hazard (puddle) zone.
pub const REWARD_PUDDLE: i64 = -10_000_000;

/// Reward of the goal cell, forced last.
pub const REWARD_GOAL: i64 = 0;

/// Placeholder a fresh value table is filled with.
pub const VALUE_UNKNOWN: i64 = -100_000_000;

/// Offset of the goal cell from the far edge of the grid.
pub const GOAL_OFFSET: usize = 11;

/// Smallest grid size for which the goal cell stays on the grid.
pub const MIN_GRID_SIZE: usize = 12;

/// Whether `(i, j)` is the goal cell of a grid with the given size.
pub open spec fn is_goal(size: int, i: int, j: int) -> bool {
    i == size - GOAL_OFFSET && j == size - GOAL_OFFSET
}

/// First row/column of the obstacle zone.
pub open spec fn obstacle_lo(size: int) -> int {
    size / 4
}

/// One past the last row/column of the obstacle zone.
pub open spec fn obstacle_hi(size: int) -> int {
    size / 2
}

/// One past the last row/column of the puddle zone, which starts where the
/// obstacle ends and extends by half the obstacle's width.
pub open spec fn puddle_hi(size: int) -> int {
    obstacle_hi(size) + (obstacle_hi(size) - obstacle_lo(size)) / 2
}

/// Whether `(i, j)` lies in the obstacle zone.
pub open spec fn in_obstacle(size: int, i: int, j: int) -> bool {
    &&& obstacle_lo(size) <= i < obstacle_hi(size)
    &&& obstacle_lo(size) <= j < obstacle_hi(size)
}

/// Whether `(i, j)` lies in the puddle zone, clipped to the grid.
pub open spec fn in_puddle(size: int, i: int, j: int) -> bool {
    &&& obstacle_hi(size) <= i < puddle_hi(size)
    &&& obstacle_hi(size) <= j < puddle_hi(size)
    &&& i < size
    &&& j < size
}

/// Whether `(i, j)` lies on the outermost ring.
pub open spec fn on_boundary(size: int, i: int, j: int) -> bool {
    i == 0 || j == 0 || i == size - 1 || j == size - 1
}

/// The boundary penalty of a ring cell: the top and left edges are merely
/// undesirable, the bottom and right edges are an irrecoverable failure
/// region; at a corner the moderate penalty wins except where both edges
/// are severe.
pub open spec fn boundary_reward(size: int, i: int, j: int) -> i64 {
    if i == 0 || j == 0 {
        REWARD_BOUNDARY_NEAR
    } else {
        REWARD_BOUNDARY_FAR
    }
}

/// The reward of cell `(i, j)` after all rules are applied, with the
/// precedence goal > puddle > obstacle > boundary > base.
pub open spec fn reward_spec(size: int, i: int, j: int) -> i64 {
    if is_goal(size, i, j) {
        REWARD_GOAL
    } else if in_puddle(size, i, j) {
        REWARD_PUDDLE
    } else if in_obstacle(size, i, j) {
        REWARD_OBSTACLE
    } else if on_boundary(size, i, j) {
        boundary_reward(size, i, j)
    } else {
        REWARD_BASE
    }
}

/// The finished reward landscape as a mathematical map over the grid.
pub open spec fn reward_map_spec(size: int) -> Map<(int, int), i64> {
    Map::new(
        |c: (int, int)| 0 <= c.0 < size && 0 <= c.1 < size,
        |c: (int, int)| reward_spec(size, c.0, c.1),
    )
}

/// A freshly initialized value table: the unknown placeholder everywhere,
/// except the goal cell, pinned at zero in every heading slice.
pub open spec fn initial_values_spec(size: int, theta_size: int) -> Map<(int, int, int), i64> {
    Map::new(
        |s: (int, int, int)| 0 <= s.0 < size && 0 <= s.1 < size && 0 <= s.2 < theta_size,
        |s: (int, int, int)|
            if is_goal(size, s.0, s.1) {
                0i64
            } else {
                VALUE_UNKNOWN
            },
    )
}

/// Every reward the rules can produce is one of the layered constants, each
/// zone resolving exactly as its precedence says; all lie in
/// `[REWARD_BOUNDARY_FAR, 0]`.
pub proof fn lemma_reward_layering(size: int, i: int, j: int)
    requires
        size >= MIN_GRID_SIZE,
        0 <= i < size,
        0 <= j < size,
    ensures
        reward_spec(size, i, j) == REWARD_GOAL || reward_spec(size, i, j) == REWARD_PUDDLE
            || reward_spec(size, i, j) == REWARD_OBSTACLE || reward_spec(size, i, j)
            == REWARD_BOUNDARY_NEAR || reward_spec(size, i, j) == REWARD_BOUNDARY_FAR
            || reward_spec(size, i, j) == REWARD_BASE,
        is_goal(size, i, j) ==> reward_spec(size, i, j) == REWARD_GOAL,
        !is_goal(size, i, j) && in_puddle(size, i, j) ==> reward_spec(size, i, j)
            == REWARD_PUDDLE,
        !is_goal(size, i, j) && !in_puddle(size, i, j) && in_obstacle(size, i, j)
            ==> reward_spec(size, i, j) == REWARD_OBSTACLE,
        !is_goal(size, i, j) && !in_puddle(size, i, j) && !in_obstacle(size, i, j)
            && on_boundary(size, i, j) ==> reward_spec(size, i, j) == boundary_reward(
            size,
            i,
            j,
        ),
        REWARD_BOUNDARY_FAR <= reward_spec(size, i, j) <= 0,
{
}

/// Allocate the reward map, filled with the base penalty, and the value
/// table, filled with the "unknown" placeholder.
pub fn initialize_arrays(size: usize, theta_size: usize) -> (r: (Grid2, Grid3))
    ensures
        grid2_dim(r.0) == (size as int, size as int),
        forall|i: int, j: int|
            0 <= i < size && 0 <= j < size ==> #[trigger] grid2_at(r.0)[(i, j)] == REWARD_BASE,
        grid3_dim(r.1) == (size as int, size as int, theta_size as int),
        forall|i: int, j: int, t: int|
            0 <= i < size && 0 <= j < size && 0 <= t < theta_size
                ==> #[trigger] grid3_at(r.1)[(i, j, t)] == VALUE_UNKNOWN,
{
    let rewards = Grid2::filled(size, size, REWARD_BASE);
    let values = Grid3::filled(size, size, theta_size, VALUE_UNKNOWN);
    (rewards, values)
}

/// Force the goal cell's reward to zero, regardless of any earlier rule.
pub fn set_goal(size: usize, rewards: &mut Grid2)
    requires
        size >= MIN_GRID_SIZE,
        grid2_dim(*old(rewards)) == (size as int, size as int),
    ensures
        grid2_dim(*final(rewards)) == (size as int, size as int),
        forall|i: int, j: int|
            0 <= i < size && 0 <= j < size ==> #[trigger] grid2_at(*final(rewards))[(i, j)] == (
            if is_goal(size as int, i, j) {
                REWARD_GOAL
            } else {
                grid2_at(*old(rewards))[(i, j)]
            }),
{
    rewards.set(size - GOAL_OFFSET, size - GOAL_OFFSET, REWARD_GOAL);
}

/// Write the boundary penalties onto the outermost ring: severe on the
/// bottom and right edges, then moderate on the top and left edges, the
/// later write winning at the shared corners.
pub fn set_boundaries(size: usize, rewards: &mut Grid2)
    requires
        size >= 1,
        grid2_dim(*old(rewards)) == (size as int, size as int),
    ensures
        grid2_dim(*final(rewards)) == (size as int, size as int),
        forall|i: int, j: int|
            0 <= i < size && 0 <= j < size ==> #[trigger] grid2_at(*final(rewards))[(i, j)] == (
            if on_boundary(size as int, i, j) {
                boundary_reward(size as int, i, j)
            } else {
                grid2_at(*old(rewards))[(i, j)]
            }),
{
    let ghost r0 = *rewards;
    let mut k: usize = 0;
    while k < size
        invariant
            size >= 1,
            k <= size,
            grid2_dim(*rewards) == (size as int, size as int),
            grid2_dim(r0) == (size as int, size as int),
            forall|i: int, j: int|
                0 <= i < size && 0 <= j < size ==> #[trigger] grid2_at(*rewards)[(i, j)] == (
                if (j == size - 1 && i < k) || (i == size - 1 && j < k) {
                    REWARD_BOUNDARY_FAR
                } else {
                    grid2_at(r0)[(i, j)]
                }),
        decreases size - k,
    {
        rewards.set(k, size - 1, REWARD_BOUNDARY_FAR);
        rewards.set(size - 1, k, REWARD_BOUNDARY_FAR);
        k = k + 1;
    }
    let mut k: usize = 0;
    while k < size
        invariant
            size >= 1,
            k <= size,
            grid2_dim(*rewards) == (size as int, size as int),
            grid2_dim(r0) == (size as int, size as int),
            forall|i: int, j: int|
                0 <= i < size && 0 <= j < size ==> #[trigger] grid2_at(*rewards)[(i, j)] == (
                if (j == 0 && i < k) || (i == 0 && j < k) {
                    REWARD_BOUNDARY_NEAR
                } else if i == size - 1 || j == size - 1 {
                    REWARD_BOUNDARY_FAR
                } else {
                    grid2_at(r0)[(i, j)]
                }),
        decreases size - k,
    {
        rewards.set(k, 0, REWARD_BOUNDARY_NEAR);
        rewards.set(0, k, REWARD_BOUNDARY_NEAR);
        k = k + 1;
    }
}

/// Write the obstacle penalty onto the obstacle zone.
pub fn set_obstacles(size: usize, rewards: &mut Grid2)
    requires
        grid2_dim(*old(rewards)) == (size as int, size as int),
    ensures
        grid2_dim(*final(rewards)) == (size as int, size as int),
        forall|i: int, j: int|
            0 <= i < size && 0 <= j < size ==> #[trigger] grid2_at(*final(rewards))[(i, j)] == (
            if in_obstacle(size as int, i, j) {
                REWARD_OBSTACLE
            } else {
                grid2_at(*old(rewards))[(i, j)]
            }),
{
    let ghost r0 = *rewards;
    let obstacle_start: usize = size / 4;
    let obstacle_end: usize = size / 2;
    let mut i: usize = obstacle_start;
    while i < obstacle_end
        invariant
            obstacle_start == obstacle_lo(size as int),
            obstacle_end == obstacle_hi(size as int),
            obstacle_start <= i <= obstacle_end,
            obstacle_end <= size,
            grid2_dim(*rewards) == (size as int, size as int),
            grid2_dim(r0) == (size as int, size as int),
            forall|a: int, b: int|
                0 <= a < size && 0 <= b < size ==> #[trigger] grid2_at(*rewards)[(a, b)] == (
                if in_obstacle(size as int, a, b) && a < i {
                    REWARD_OBSTACLE
                } else {
                    grid2_at(r0)[(a, b)]
                }),
        decreases obstacle_end - i,
    {
        let mut j: usize = obstacle_start;
        while j < obstacle_end
            invariant
                obstacle_start == obstacle_lo(size as int),
                obstacle_end == obstacle_hi(size as int),
                obstacle_start <= i < obstacle_end,
                obstacle_start <= j <= obstacle_end,
                obstacle_end <= size,
                grid2_dim(*rewards) == (size as int, size as int),
                grid2_dim(r0) == (size as int, size as int),
                forall|a: int, b: int|
                    0 <= a < size && 0 <= b < size ==> #[trigger] grid2_at(*rewards)[(a, b)] == (
                    if in_obstacle(size as int, a, b) && (a < i || (a == i && b < j)) {
                        REWARD_OBSTACLE
                    } else {
                        grid2_at(r0)[(a, b)]
                    }),
            decreases obstacle_end - j,
        {
            rewards.set(i, j, REWARD_OBSTACLE);
            j = j + 1;
        }
        i = i + 1;
    }
}

/// Write the puddle penalty onto the hazard zone, clipping to the grid as
/// the zone is derived arithmetically and need not fit.
pub fn set_puddle(size: usize, rewards: &mut Grid2)
    requires
        grid2_dim(*old(rewards)) == (size as int, size as int),
    ensures
        grid2_dim(*final(rewards)) == (size as int, size as int),
        forall|i: int, j: int|
            0 <= i < size && 0 <= j < size ==> #[trigger] grid2_at(*final(rewards))[(i, j)] == (
            if in_puddle(size as int, i, j) {
                REWARD_PUDDLE
            } else {
                grid2_at(*old(rewards))[(i, j)]
            }),
{
    let ghost r0 = *rewards;
    let obstacle_end: usize = size / 2;
    let puddle_start: usize = obstacle_end;
    let puddle_end: usize = obstacle_end + (obstacle_end - size / 4) / 2;
    let mut i: usize = puddle_start;
    while i < puddle_end
        invariant
            puddle_start == obstacle_hi(size as int),
            puddle_end == puddle_hi(size as int),
            puddle_start <= i <= puddle_end,
            grid2_dim(*rewards) == (size as int, size as int),
            grid2_dim(r0) == (size as int, size as int),
            forall|a: int, b: int|
                0 <= a < size && 0 <= b < size ==> #[trigger] grid2_at(*rewards)[(a, b)] == (
                if in_puddle(size as int, a, b) && a < i {
                    REWARD_PUDDLE
                } else {
                    grid2_at(r0)[(a, b)]
                }),
        decreases puddle_end - i,
    {
        let mut j: usize = puddle_start;
        while j < puddle_end
            invariant
                puddle_start == obstacle_hi(size as int),
                puddle_end == puddle_hi(size as int),
                puddle_start <= i < puddle_end,
                puddle_start <= j <= puddle_end,
                grid2_dim(*rewards) == (size as int, size as int),
                grid2_dim(r0) == (size as int, size as int),
                forall|a: int, b: int|
                    0 <= a < size && 0 <= b < size ==> #[trigger] grid2_at(*rewards)[(a, b)] == (
                    if in_puddle(size as int, a, b) && (a < i || (a == i && b < j)) {
                        REWARD_PUDDLE
                    } else {
                        grid2_at(r0)[(a, b)]
                    }),
            decreases puddle_end - j,
        {
            if i < size && j < size {
                rewards.set(i, j, REWARD_PUDDLE);
            }
            j = j + 1;
        }
        i = i + 1;
    }
}

/// Pin the value of the goal cell to zero in every heading slice, after the
/// bulk fill.
pub fn initialize_goal_values(size: usize, theta_size: usize, values: &mut Grid3)
    requires
        size >= MIN_GRID_SIZE,
        grid3_dim(*old(values)) == (size as int, size as int, theta_size as int),
    ensures
        grid3_dim(*final(values)) == (size as int, size as int, theta_size as int),
        forall|i: int, j: int, t: int|
            0 <= i < size && 0 <= j < size && 0 <= t < theta_size
                ==> #[trigger] grid3_at(*final(values))[(i, j, t)] == (
            if is_goal(size as int, i, j) {
                0i64
            } else {
                grid3_at(*old(values))[(i, j, t)]
            }),
{
    let ghost v0 = *values;
    let goal: usize = size - GOAL_OFFSET;
    let mut t: usize = 0;
    while t < theta_size
        invariant
            size >= MIN_GRID_SIZE,
            goal == size - GOAL_OFFSET,
            t <= theta_size,
            grid3_dim(*values) == (size as int, size as int, theta_size as int),
            grid3_dim(v0) == (size as int, size as int, theta_size as int),
            forall|i: int, j: int, u: int|
                0 <= i < size && 0 <= j < size && 0 <= u < theta_size
                    ==> #[trigger] grid3_at(*values)[(i, j, u)] == (
                if is_goal(size as int, i, j) && u < t {
                    0i64
                } else {
                    grid3_at(v0)[(i, j, u)]
                }),
        decreases theta_size - t,
    {
        values.set(goal, goal, t, 0);
        t = t + 1;
    }
}

/// Build the full reward map for a grid of the given size: base fill, then
/// boundary, obstacle and puddle rules, and the goal last so that it
/// overrides any overlapping zone.
pub fn build_reward_map(size: usize) -> (rewards: Grid2)
    requires
        size >= MIN_GRID_SIZE,
    ensures
        grid2_dim(rewards) == (size as int, size as int),
        forall|i: int, j: int|
            0 <= i < size && 0 <= j < size ==> #[trigger] grid2_at(rewards)[(i, j)] == reward_spec(
                size as int,
                i,
                j,
            ),
{
    let mut rewards = Grid2::filled(size, size, REWARD_BASE);
    set_boundaries(size, &mut rewards);
    set_obstacles(size, &mut rewards);
    set_puddle(size, &mut rewards);
    set_goal(size, &mut rewards);
    rewards
}

} // verus!
