//! The lattice of neighbour slots around a vertex of an inferred mesh.
//!
//! Around a lattice cell lie 26 directions, one for each way of stepping
//! down, not at all or up along each of the three axes, except for not
//! stepping at all. Each direction has a slot, numbered with the `z` step
//! counting fastest, then `y`, then `x`.

use vstd::prelude::*;

verus! {

/// The step from `from` to `to` along one axis, as 0 for down, 1 for none
/// and 2 for up.
pub open spec fn step(from: usize, to: usize) -> int {
    if to == from {
        1
    } else if to > from {
        2
    } else {
        0
    }
}

/// The number of a direction when all 27 combinations of steps are counted,
/// the centre included.
pub open spec fn direction_number(x: int, y: int, z: int) -> int {
    9 * x + 3 * y + z
}

/// The slot of the direction from a cell to another: its direction number,
/// with the numbers after the centre's moved down by one to close the gap.
/// The centre itself, which has no slot, is given slot zero.
pub open spec fn vert_slot(
    x_idx: usize,
    y_idx: usize,
    z_idx: usize,
    x_j: usize,
    y_j: usize,
    z_j: usize,
) -> int {
    let n = direction_number(step(x_idx, x_j), step(y_idx, y_j), step(z_idx, z_j));
    if n < 13 {
        n
    } else if n == 13 {
        0
    } else {
        n - 1
    }
}

fn axis_step(from: usize, to: usize) -> (s: u8)
    ensures
        s == step(from, to),
{
    if to == from {
        1
    } else if to > from {
        2
    } else {
        0
    }
}

/// The slot, among the 26 around the cell `(x_idx, y_idx, z_idx)`, of the
/// direction in which the cell `(x_j, y_j, z_j)` lies: see [`vert_slot`].
pub fn get_vert_slot(
    x_idx: usize,
    y_idx: usize,
    z_idx: usize,
    x_j: usize,
    y_j: usize,
    z_j: usize,
) -> (slot: u8)
    ensures
        slot == vert_slot(x_idx, y_idx, z_idx, x_j, y_j, z_j),
        slot <= 25,
{
    let x_off = axis_step(x_idx, x_j);
    let y_off = axis_step(y_idx, y_j);
    let z_off = axis_step(z_idx, z_j);
    let n: u8 = 9 * x_off + 3 * y_off + z_off;
    if n < 13 {
        n
    } else if n == 13 {
        0
    } else {
        n - 1
    }
}

/// Two cells in different directions get different slots, and only the
/// direction to the lowest corner shares slot zero with the centre.
pub proof fn lemma_slots_distinct(
    x: usize,
    y: usize,
    z: usize,
    xa: usize,
    ya: usize,
    za: usize,
    xb: usize,
    yb: usize,
    zb: usize,
)
    requires
        (xa, ya, za) != (x, y, z),
        (xb, yb, zb) != (x, y, z),
        vert_slot(x, y, z, xa, ya, za) == vert_slot(x, y, z, xb, yb, zb),
    ensures
        step(x, xa) == step(x, xb),
        step(y, ya) == step(y, yb),
        step(z, za) == step(z, zb),
{
}

} // verus!
