//! The action model: the discrete 8-connected move set with two pure
//! rotations, and the total transition function.
//!
//! An action is a triple `(di, dj, dtheta)` of integer deltas. The
//! transition clamps grid coordinates to `[0, size - 1]` and wraps the
//! heading with a non-negative remainder, so it never leaves the state
//! space, whatever the action.

use vstd::prelude::*;

verus! {

/// Largest per-axis grid displacement any generated action may have.
pub const MAX_ACTION_STEP: isize = 8;

/// Whether an action's deltas are small enough that adding them to any
/// in-range index cannot overflow the machine integers.
pub open spec fn action_bounded(a: (isize, isize, isize), theta_size: int) -> bool {
    &&& -MAX_ACTION_STEP <= a.0 <= MAX_ACTION_STEP
    &&& -MAX_ACTION_STEP <= a.1 <= MAX_ACTION_STEP
    &&& -theta_size <= a.2 <= theta_size
}

/// Clamp an index to `[0, hi]`.
pub open spec fn clamp_idx(x: int, hi: int) -> int {
    if x < 0 {
        0
    } else if x > hi {
        hi
    } else {
        x
    }
}

/// The non-negative remainder of a heading index, in `[0, theta_size)`
/// whenever `theta_size > 0` (`%` is the Euclidean remainder here).
pub open spec fn wrap_heading(t: int, theta_size: int) -> int {
    t % theta_size
}

/// Where the transition function sends state `(i, j, t)` under the deltas
/// `(di, dj, dt)`: coordinates are clamped to the grid, the heading wraps.
pub open spec fn next_state_spec(
    i: int,
    j: int,
    t: int,
    di: int,
    dj: int,
    dt: int,
    size: int,
    theta_size: int,
) -> (int, int, int) {
    (clamp_idx(i + di, size - 1), clamp_idx(j + dj, size - 1), wrap_heading(t + dt, theta_size))
}

/// The discrete action family: the four axis-aligned moves, the four
/// diagonal moves, and one rotation in each direction.
pub open spec fn discrete_actions() -> Seq<(isize, isize, isize)> {
    seq![
        (0isize, 1isize, 0isize),
        (1isize, 0isize, 0isize),
        (0isize, -1isize, 0isize),
        (-1isize, 0isize, 0isize),
        (1isize, 1isize, 0isize),
        (-1isize, 1isize, 0isize),
        (1isize, -1isize, 0isize),
        (-1isize, -1isize, 0isize),
        (0isize, 0isize, 1isize),
        (0isize, 0isize, -1isize),
    ]
}

/// Every delta of every discrete action is at most one step.
pub proof fn lemma_discrete_actions_bounded(theta_size: int)
    requires
        theta_size >= 1,
    ensures
        discrete_actions().len() == 10,
        forall|k: int|
            0 <= k < discrete_actions().len() ==> #[trigger] action_bounded(
                discrete_actions()[k],
                theta_size,
            ),
{
    assert forall|k: int| 0 <= k < discrete_actions().len() implies #[trigger] action_bounded(
        discrete_actions()[k],
        theta_size,
    ) by {
        assert(0 <= k < 10);
    }
}

/// Produce the fixed discrete action set: eight grid-aligned or diagonal
/// moves with zero heading change, then a clockwise and a counterclockwise
/// rotation.
pub fn generate_actions() -> (acts: Vec<(isize, isize, isize)>)
    ensures
        acts@ == discrete_actions(),
{
    let acts: Vec<(isize, isize, isize)> = vec![
        (0, 1, 0),
        (1, 0, 0),
        (0, -1, 0),
        (-1, 0, 0),
        (1, 1, 0),
        (-1, 1, 0),
        (1, -1, 0),
        (-1, -1, 0),
        (0, 0, 1),
        (0, 0, -1),
    ];
    proof {
        assert(acts@ =~= discrete_actions());
    }
    acts
}

/// Apply an action's deltas to a state. The result is always inside the
/// state space: rows and columns are clamped to `[0, size)` and the heading
/// wraps into `[0, theta_size)`, for any input state and any deltas.
pub fn next_state(
    i: usize,
    j: usize,
    size: usize,
    theta_size: usize,
    theta: usize,
    action: (isize, isize, isize),
) -> (r: (usize, usize, usize))
    requires
        1 <= size,
        1 <= theta_size,
        i < size,
        j < size,
        theta < theta_size,
        size <= isize::MAX,
        theta_size <= isize::MAX,
        i + action.0 <= isize::MAX,
        j + action.1 <= isize::MAX,
        theta + action.2 <= isize::MAX,
    ensures
        r.0 == clamp_idx(i + action.0, size - 1),
        r.1 == clamp_idx(j + action.1, size - 1),
        r.2 == wrap_heading(theta + action.2, theta_size as int),
        r.0 < size,
        r.1 < size,
        r.2 < theta_size,
{
    let xi: isize = i as isize + action.0;
    let xj: isize = j as isize + action.1;
    let hi: isize = (size - 1) as isize;
    let ni: usize = if xi < 0 {
        0
    } else if xi > hi {
        size - 1
    } else {
        xi as usize
    };
    let nj: usize = if xj < 0 {
        0
    } else if xj > hi {
        size - 1
    } else {
        xj as usize
    };
    let xt: isize = theta as isize + action.2;
    let rem: isize = xt.checked_rem_euclid(theta_size as isize).unwrap();
    let nt: usize = rem as usize;
    (ni, nj, nt)
}


/// One fixed-point unit (a whole grid cell, or the length of a unit
/// vector), in millionths.
pub const UNIT: i64 = 1_000_000;

/// The square of [`UNIT`]: the denominator when a product of two
/// fixed-point factors is brought back to whole grid cells.
pub const UNIT_SQ: i64 = 1_000_000_000_000;

/// Half of [`UNIT_SQ`], for rounding to the nearest cell.
pub const UNIT_SQ_HALF: i64 = 500_000_000_000;

/// Largest local displacement a continuous action may carry, in
/// millionths of a cell: two whole cells per axis.
pub const MAX_LOCAL_DISPLACEMENT: i64 = 2_000_000;

/// A product of two fixed-point factors, rounded to the nearest whole
/// cell, halves away from zero.
pub open spec fn round_to_cells(p: int) -> int {
    if p >= 0 {
        (p + UNIT_SQ_HALF) / (UNIT_SQ as int)
    } else {
        -((-p + UNIT_SQ_HALF) / (UNIT_SQ as int))
    }
}

/// The sine and cosine of every discretized heading's angle, in
/// millionths. The table is data handed in by the caller — evaluating the
/// trigonometric functions themselves is outside this library.
pub struct TrigTable {
    /// `sin(heading * 2π / headingCount)` in millionths, one per heading.
    pub sin: Vec<i64>,
    /// `cos(heading * 2π / headingCount)` in millionths, one per heading.
    pub cos: Vec<i64>,
}

impl TrigTable {
    /// A table usable for `heading_count` headings: one entry per heading
    /// on each side, every entry within one unit of magnitude.
    pub open spec fn wf(self, heading_count: int) -> bool {
        &&& self.sin@.len() == heading_count
        &&& self.cos@.len() == heading_count
        &&& forall|k: int|
            0 <= k < heading_count ==> -UNIT <= #[trigger] self.sin@[k] <= UNIT
        &&& forall|k: int|
            0 <= k < heading_count ==> -UNIT <= #[trigger] self.cos@[k] <= UNIT
    }

    /// Check at run time that the table is usable for `heading_count`
    /// headings, so unverified callers can establish it before relying on
    /// it.
    pub fn is_well_formed(&self, heading_count: usize) -> (r: bool)
        ensures
            r == self.wf(heading_count as int),
    {
        if self.sin.len() != heading_count || self.cos.len() != heading_count {
            return false;
        }
        let mut k: usize = 0;
        while k < heading_count
            invariant
                k <= heading_count,
                self.sin@.len() == heading_count,
                self.cos@.len() == heading_count,
                forall|m: int|
                    0 <= m < k ==> -UNIT <= #[trigger] self.sin@[m] <= UNIT,
                forall|m: int|
                    0 <= m < k ==> -UNIT <= #[trigger] self.cos@[m] <= UNIT,
            decreases heading_count - k,
        {
            let s = self.sin[k];
            let c = self.cos[k];
            if s < -UNIT || s > UNIT || c < -UNIT || c > UNIT {
                return false;
            }
            k = k + 1;
        }
        true
    }
}

/// Where a local displacement lands once rotated into grid coordinates:
/// the row delta is `dx·sin + dy·cos` and the column delta
/// `dx·cos - dy·sin`, each rounded to the nearest whole cell.
pub open spec fn rotated_deltas(dx: int, dy: int, sin_t: int, cos_t: int) -> (int, int) {
    (round_to_cells(dx * sin_t + dy * cos_t), round_to_cells(dx * cos_t - dy * sin_t))
}

/// Divide a fixed-point product by the squared unit, rounding to the
/// nearest cell.
fn round_product_to_cells(p: i64) -> (r: i64)
    requires
        -4 * UNIT_SQ <= p <= 4 * UNIT_SQ,
    ensures
        r == round_to_cells(p as int),
        -4 <= r <= 4,
{
    proof {
        vstd::arithmetic::div_mod::lemma_div_multiples_vanish_fancy(
            4,
            UNIT_SQ_HALF as int,
            UNIT_SQ as int,
        );
    }
    if p >= 0 {
        let q: i64 = (((p as u64) + (UNIT_SQ_HALF as u64)) / (UNIT_SQ as u64)) as i64;
        proof {
            vstd::arithmetic::div_mod::lemma_div_is_ordered(
                p + UNIT_SQ_HALF,
                4 * UNIT_SQ + UNIT_SQ_HALF,
                UNIT_SQ as int,
            );
            vstd::arithmetic::div_mod::lemma_div_is_ordered(0, p + UNIT_SQ_HALF, UNIT_SQ as int);
        }
        q
    } else {
        let q: i64 = ((((-p) as u64) + (UNIT_SQ_HALF as u64)) / (UNIT_SQ as u64)) as i64;
        proof {
            vstd::arithmetic::div_mod::lemma_div_is_ordered(
                -p + UNIT_SQ_HALF,
                4 * UNIT_SQ + UNIT_SQ_HALF,
                UNIT_SQ as int,
            );
            vstd::arithmetic::div_mod::lemma_div_is_ordered(0, -p + UNIT_SQ_HALF, UNIT_SQ as int);
        }
        -q
    }
}

/// Rotate a local-frame displacement into grid deltas by the current
/// heading's sine and cosine, rounding each axis to the nearest cell.
pub fn rotate_displacement(dx: i64, dy: i64, sin_t: i64, cos_t: i64) -> (r: (isize, isize))
    requires
        -MAX_LOCAL_DISPLACEMENT <= dx <= MAX_LOCAL_DISPLACEMENT,
        -MAX_LOCAL_DISPLACEMENT <= dy <= MAX_LOCAL_DISPLACEMENT,
        -UNIT <= sin_t <= UNIT,
        -UNIT <= cos_t <= UNIT,
    ensures
        r.0 == rotated_deltas(dx as int, dy as int, sin_t as int, cos_t as int).0,
        r.1 == rotated_deltas(dx as int, dy as int, sin_t as int, cos_t as int).1,
        -4 <= r.0 <= 4,
        -4 <= r.1 <= 4,
{
    proof {
        assert(-2 * UNIT_SQ <= dx * sin_t <= 2 * UNIT_SQ && -2 * UNIT_SQ <= dy * cos_t <= 2
            * UNIT_SQ && -2 * UNIT_SQ <= dx * cos_t <= 2 * UNIT_SQ && -2 * UNIT_SQ <= dy * sin_t
            <= 2 * UNIT_SQ) by (nonlinear_arith)
            requires
                -2_000_000 <= dx <= 2_000_000,
                -2_000_000 <= dy <= 2_000_000,
                -1_000_000 <= sin_t <= 1_000_000,
                -1_000_000 <= cos_t <= 1_000_000,
        ;
    }
    let row_p: i64 = dx * sin_t + dy * cos_t;
    let col_p: i64 = dx * cos_t - dy * sin_t;
    let dr = round_product_to_cells(row_p);
    let dc = round_product_to_cells(col_p);
    (dr as isize, dc as isize)
}

/// Where the continuous transition sends state `(i, j, t)` under the
/// local displacement `(dx, dy)` and heading delta `dt`: the displacement
/// is rotated by the current heading, the coordinates clamp to the grid,
/// the heading wraps.
pub open spec fn next_state_continuous_spec(
    i: int,
    j: int,
    t: int,
    dx: int,
    dy: int,
    dt: int,
    sin_t: int,
    cos_t: int,
    size: int,
    theta_size: int,
) -> (int, int, int) {
    let d = rotated_deltas(dx, dy, sin_t, cos_t);
    (clamp_idx(i + d.0, size - 1), clamp_idx(j + d.1, size - 1), wrap_heading(t + dt, theta_size))
}

/// Apply a continuous heading-relative action to a state. The
/// displacement is expressed in the agent's own frame and rotated by the
/// *current* heading's angle before being added; the result is always
/// inside the state space.
pub fn next_state_continuous(
    i: usize,
    j: usize,
    size: usize,
    theta_size: usize,
    theta: usize,
    action: (i64, i64, isize),
    trig: &TrigTable,
) -> (r: (usize, usize, usize))
    requires
        1 <= size,
        1 <= theta_size,
        i < size,
        j < size,
        theta < theta_size,
        size + 4 <= isize::MAX,
        theta_size <= isize::MAX,
        theta + action.2 <= isize::MAX,
        -MAX_LOCAL_DISPLACEMENT <= action.0 <= MAX_LOCAL_DISPLACEMENT,
        -MAX_LOCAL_DISPLACEMENT <= action.1 <= MAX_LOCAL_DISPLACEMENT,
        trig.wf(theta_size as int),
    ensures
        ({
            let n = next_state_continuous_spec(
                i as int,
                j as int,
                theta as int,
                action.0 as int,
                action.1 as int,
                action.2 as int,
                trig.sin@[theta as int] as int,
                trig.cos@[theta as int] as int,
                size as int,
                theta_size as int,
            );
            r.0 == n.0 && r.1 == n.1 && r.2 == n.2
        }),
        r.0 < size,
        r.1 < size,
        r.2 < theta_size,
{
    let (dr, dc) = rotate_displacement(action.0, action.1, trig.sin[theta], trig.cos[theta]);
    next_state(i, j, size, theta_size, theta, (dr, dc, action.2))
}

/// Produce the continuous heading-relative action set: one unit
/// displacement for each of the `heading_count` evenly spaced directions,
/// read from the trig table; four fixed diagonal displacements; and three
/// rotation-only actions of an eighth turn either way and a quarter turn.
pub fn generate_continuous_actions(heading_count: usize, trig: &TrigTable) -> (acts: Vec<
    (i64, i64, isize),
>)
    requires
        1 <= heading_count,
        heading_count <= 100_000,
        trig.wf(heading_count as int),
    ensures
        acts@.len() == heading_count + 7,
        forall|k: int|
            0 <= k < heading_count ==> #[trigger] acts@[k] == (
                trig.cos@[k],
                trig.sin@[k],
                0isize,
            ),
        acts@[heading_count as int] == (UNIT, UNIT, 0isize),
        acts@[heading_count as int + 1] == (UNIT, (-UNIT) as i64, 0isize),
        acts@[heading_count as int + 2] == ((-UNIT) as i64, UNIT, 0isize),
        acts@[heading_count as int + 3] == ((-UNIT) as i64, (-UNIT) as i64, 0isize),
        acts@[heading_count as int + 4] == (0i64, 0i64, ((heading_count + 4) / 8) as isize),
        acts@[heading_count as int + 5] == (0i64, 0i64, (-((heading_count + 4) / 8)) as isize),
        acts@[heading_count as int + 6] == (0i64, 0i64, ((heading_count + 2) / 4) as isize),
        forall|k: int|
            0 <= k < acts@.len() ==> -MAX_LOCAL_DISPLACEMENT <= #[trigger] acts@[k].0
                <= MAX_LOCAL_DISPLACEMENT && -MAX_LOCAL_DISPLACEMENT <= acts@[k].1
                <= MAX_LOCAL_DISPLACEMENT,
{
    let mut acts: Vec<(i64, i64, isize)> = Vec::new();
    let mut k: usize = 0;
    while k < heading_count
        invariant
            k <= heading_count,
            heading_count <= 100_000,
            trig.wf(heading_count as int),
            acts@.len() == k,
            forall|m: int|
                0 <= m < k ==> #[trigger] acts@[m] == (trig.cos@[m], trig.sin@[m], 0isize),
        decreases heading_count - k,
    {
        acts.push((trig.cos[k], trig.sin[k], 0));
        k = k + 1;
    }
    acts.push((UNIT, UNIT, 0));
    acts.push((UNIT, -UNIT, 0));
    acts.push((-UNIT, UNIT, 0));
    acts.push((-UNIT, -UNIT, 0));
    // an eighth of a turn, rounded to the nearest heading step
    let eighth: usize = (heading_count + 4) / 8;
    let quarter: usize = (heading_count + 2) / 4;
    acts.push((0, 0, eighth as isize));
    acts.push((0, 0, -(eighth as isize)));
    acts.push((0, 0, quarter as isize));
    acts
}

} // verus!
