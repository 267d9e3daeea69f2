//! The decisions inside distance evaluation and surface projection.
//!
//! The numeric work — distances, normals, steps — is done outside on decoded
//! values. What is decided from its results is decided here: which region of
//! space around a box a point lies in, and when a projection onto a surface
//! stops.

use vstd::prelude::*;

verus! {

/// How close to the surface a projection stops unless told otherwise: the
/// encoding of ten thousand.
pub const EPSILON: u32 = 0x461C_4000;

/// How many iterations a projection makes unless told otherwise. With the
/// start point expected near the surface, one step is taken to suffice.
pub const DEFAULT_TRACE_ITERS: usize = 1;

/// A coordinate axis.
#[derive(Clone, Copy, Debug, PartialEq, Eq, Structural)]
pub enum Axis {
    X,
    Y,
    Z,
}

/// Where a point lies relative to an axis-aligned box, by the axes along
/// which it has reached or passed the box's half-extent.
#[derive(Clone, Copy, Debug, PartialEq, Eq, Structural)]
pub enum CubeRegion {
    /// Inside along every axis: the distance is the negated smallest slack.
    Interior,
    /// Out along one axis: the distance is the overshoot along it.
    Face(Axis),
    /// Out along two axes: the distance is that to the edge they share.
    Edge(Axis, Axis),
    /// Out along all three: the distance is that to the corner.
    Corner,
}

/// How many of the three axes a point is out along.
pub open spec fn axes_over(over_x: bool, over_y: bool, over_z: bool) -> nat {
    (if over_x {
        1nat
    } else {
        0nat
    }) + (if over_y {
        1nat
    } else {
        0nat
    }) + (if over_z {
        1nat
    } else {
        0nat
    })
}

/// Whether a region names `axis` as one that the point is out along.
pub open spec fn region_has(region: CubeRegion, axis: Axis) -> bool {
    match region {
        CubeRegion::Interior => false,
        CubeRegion::Face(a) => a == axis,
        CubeRegion::Edge(a, b) => a == axis || b == axis,
        CubeRegion::Corner => true,
    }
}

/// How many axes a region names.
pub open spec fn region_axes(region: CubeRegion) -> nat {
    match region {
        CubeRegion::Interior => 0,
        CubeRegion::Face(_) => 1,
        CubeRegion::Edge(_, _) => 2,
        CubeRegion::Corner => 3,
    }
}

/// The region of a point that is out along the axes for which the flag is
/// set. The two axes of an edge are named in the order `x`, `y`, `z`.
pub open spec fn spec_cube_region(over_x: bool, over_y: bool, over_z: bool) -> CubeRegion {
    match (over_x, over_y, over_z) {
        (false, false, false) => CubeRegion::Interior,
        (true, false, false) => CubeRegion::Face(Axis::X),
        (false, true, false) => CubeRegion::Face(Axis::Y),
        (false, false, true) => CubeRegion::Face(Axis::Z),
        (true, true, false) => CubeRegion::Edge(Axis::X, Axis::Y),
        (true, false, true) => CubeRegion::Edge(Axis::X, Axis::Z),
        (false, true, true) => CubeRegion::Edge(Axis::Y, Axis::Z),
        (true, true, true) => CubeRegion::Corner,
    }
}

/// The region of a point, given for each axis whether the point is out along
/// it. A point exactly at a half-extent counts as out, so on a boundary
/// between two regions the one with more axes is chosen.
pub fn cube_region(over_x: bool, over_y: bool, over_z: bool) -> (region: CubeRegion)
    ensures
        region == spec_cube_region(over_x, over_y, over_z),
        region_axes(region) == axes_over(over_x, over_y, over_z),
        region_has(region, Axis::X) == over_x,
        region_has(region, Axis::Y) == over_y,
        region_has(region, Axis::Z) == over_z,
        region matches CubeRegion::Edge(a, b) ==> a != b,
{
    if over_x {
        if over_y {
            if over_z {
                CubeRegion::Corner
            } else {
                CubeRegion::Edge(Axis::X, Axis::Y)
            }
        } else if over_z {
            CubeRegion::Edge(Axis::X, Axis::Z)
        } else {
            CubeRegion::Face(Axis::X)
        }
    } else if over_y {
        if over_z {
            CubeRegion::Edge(Axis::Y, Axis::Z)
        } else {
            CubeRegion::Face(Axis::Y)
        }
    } else if over_z {
        CubeRegion::Face(Axis::Z)
    } else {
        CubeRegion::Interior
    }
}

/// What a projection does after one step towards the surface.
#[derive(Clone, Copy, Debug, PartialEq, Eq, Structural)]
pub enum ProjectionStep {
    /// The surface is reached: the projection ends at the point stepped to.
    Hit,
    /// The iterations are used up: the projection fails.
    Miss,
    /// The projection goes on, with the iteration count that it now has.
    Advance(usize),
}

/// The decision of a projection at iteration count `iter`, which starts at
/// zero.
///
/// The projection fails once the count has reached `max_iters` (by default
/// [`DEFAULT_TRACE_ITERS`]). Otherwise it steps, and ends with a hit where the
/// distance at the point stepped to is below the tolerance, so that the point
/// handed back is one at which the distance was found small enough; else it
/// goes on with the count raised by one. With the default of one iteration a projection is a single
/// step: it hits at once, or fails at its next decision.
pub open spec fn spec_gradient_trace_step(
    iter: usize,
    max_iters: Option<usize>,
    converged: bool,
) -> ProjectionStep {
    let limit = match max_iters {
        Some(m) => m,
        None => DEFAULT_TRACE_ITERS,
    };
    if iter >= limit {
        ProjectionStep::Miss
    } else if converged {
        ProjectionStep::Hit
    } else {
        ProjectionStep::Advance((iter + 1) as usize)
    }
}

/// One decision of a projection: see [`spec_gradient_trace_step`].
/// `converged` says whether the distance measured at the point stepped to,
/// which is the point handed back on a hit, is below the tolerance.
pub fn gradient_trace_step(iter: usize, max_iters: Option<usize>, converged: bool) -> (r:
    ProjectionStep)
    ensures
        r == spec_gradient_trace_step(iter, max_iters, converged),
        r matches ProjectionStep::Advance(next) ==> next == iter + 1,
{
    let limit = match max_iters {
        Some(m) => m,
        None => DEFAULT_TRACE_ITERS,
    };
    if iter >= limit {
        ProjectionStep::Miss
    } else if converged {
        ProjectionStep::Hit
    } else {
        ProjectionStep::Advance(iter + 1)
    }
}

/// With the default limit a projection takes one step: at count zero it hits
/// or moves on to count one, and at count one or later it fails.
pub proof fn lemma_default_projection_is_one_step(iter: usize, converged: bool)
    ensures
        spec_gradient_trace_step(0, None, converged) == if converged {
            ProjectionStep::Hit
        } else {
            ProjectionStep::Advance(1)
        },
        iter >= 1 ==> spec_gradient_trace_step(iter, None, converged) == ProjectionStep::Miss,
{
}

} // verus!
