//! Rays, what a ray test reports, and the control of a ray march.

use vstd::prelude::*;
use crate::space::{Point3, Vector3};

verus! {

/// How many iterations a ray march may count up to unless told otherwise.
pub const MAX_ST_ITERS: u32 = 1000;

/// How close to the surface a ray march stops unless told otherwise: the
/// encoding of one ten-thousandth.
pub const DEFAULT_ST_TOL: u32 = 0x38D1_B717;

/// A half-line: where it starts and the direction it runs in, which is
/// expected to have unit length.
#[derive(Clone, Copy, Debug, PartialEq, Eq, Structural)]
pub struct Ray {
    pub origin: Point3,
    pub direction: Vector3,
}

impl Ray {
    pub fn new(origin: Point3, direction: Vector3) -> (ray: Ray)
        ensures
            ray == (Ray { origin, direction }),
    {
        Ray { origin, direction }
    }
}

/// A successful test of a ray against one collider.
#[derive(Clone, Copy, Debug, PartialEq)]
pub struct RayHit {
    /// The collider that was hit.
    pub collider_idx: u32,
    /// Where the ray met its surface.
    pub loc: Point3,
    /// The encoded distance from the ray's origin to `loc`, or `None` where
    /// that distance is not a number. A distance is never negative, and the
    /// encodings of non-negative numbers are ordered as the numbers are.
    pub distance: Option<u32>,
}

/// What a march does after one look at the surface.
#[derive(Clone, Copy, Debug, PartialEq, Eq, Structural)]
pub enum TraceStep {
    /// The surface is reached: the march ends at the point just stepped to.
    Hit,
    /// The march gives up without reaching the surface.
    Miss,
    /// The march goes on, with the iteration count that it now has.
    Advance(u32),
}

/// The decision of a ray march at iteration count `iters`.
///
/// The march gives up once the count has reached `max_iter` (by default
/// [`MAX_ST_ITERS`]) or the point has left the range of the ray. Otherwise it
/// steps, and ends with a hit where the step was shorter than the tolerance;
/// else it goes on with the count raised by one.
pub open spec fn spec_sphere_trace_step(
    iters: u32,
    max_iter: Option<u32>,
    in_range: bool,
    converged: bool,
) -> TraceStep {
    let limit = match max_iter {
        Some(m) => m,
        None => MAX_ST_ITERS,
    };
    if !(iters < limit && in_range) {
        TraceStep::Miss
    } else if converged {
        TraceStep::Hit
    } else {
        TraceStep::Advance((iters + 1) as u32)
    }
}

/// The iteration count that a ray march starts with: zero, so that a limit
/// of `n` allows `n` steps.
pub fn sphere_trace_start() -> (iters: u32)
    ensures
        iters == 0,
{
    0
}

/// One decision of a ray march: see [`spec_sphere_trace_step`]. `in_range`
/// says whether the current point is nearer to the origin than the largest
/// distance asked for; `converged` whether the step taken from it was shorter
/// than the tolerance.
pub fn sphere_trace_step(iters: u32, max_iter: Option<u32>, in_range: bool, converged: bool) -> (r:
    TraceStep)
    ensures
        r == spec_sphere_trace_step(iters, max_iter, in_range, converged),
        r matches TraceStep::Advance(next) ==> next == iters + 1,
{
    let limit = match max_iter {
        Some(m) => m,
        None => MAX_ST_ITERS,
    };
    if !(iters < limit && in_range) {
        TraceStep::Miss
    } else if converged {
        TraceStep::Hit
    } else {
        TraceStep::Advance(iters + 1)
    }
}

/// The outcome of a march that starts at count `iters` and sees, step by
/// step, the given looks at the surface (`in_range`, `converged`): the number
/// of the step at which it hits, or `None` where it gives up or the looks
/// run out first.
pub open spec fn march_outcome(iters: u32, max_iter: Option<u32>, looks: Seq<(bool, bool)>) -> Option<
    nat,
>
    decreases looks.len(),
{
    if looks.len() == 0 {
        None
    } else {
        match spec_sphere_trace_step(iters, max_iter, looks[0].0, looks[0].1) {
            TraceStep::Hit => Some(0),
            TraceStep::Miss => None,
            TraceStep::Advance(next) => match march_outcome(next, max_iter, looks.skip(1)) {
                Some(n) => Some(n + 1),
                None => None,
            },
        }
    }
}

/// A march takes no more steps than its limit leaves it. Where it hits, it
/// hits at a step whose count is below the limit, at a look that is in range
/// and converged, after looks that were all in range and not converged. From
/// count zero the steps are numbered `0` to `limit - 1`.
pub proof fn lemma_march_bounded(iters: u32, max_iter: Option<u32>, looks: Seq<(bool, bool)>)
    ensures
        match march_outcome(iters, max_iter, looks) {
            Some(n) => {
                let limit = match max_iter {
                    Some(m) => m,
                    None => MAX_ST_ITERS,
                };
                &&& iters + n < limit
                &&& n < looks.len()
                &&& looks[n as int].0
                &&& looks[n as int].1
                &&& forall|j: int| 0 <= j < n ==> (#[trigger] looks[j]).0 && !looks[j].1
            },
            None => true,
        },
    decreases looks.len(),
{
    if looks.len() > 0 {
        match spec_sphere_trace_step(iters, max_iter, looks[0].0, looks[0].1) {
            TraceStep::Advance(next) => {
                lemma_march_bounded(next, max_iter, looks.skip(1));
                match march_outcome(next, max_iter, looks.skip(1)) {
                    Some(n) => {
                        assert(looks.skip(1)[n as int] == looks[n as int + 1]);
                        assert forall|j: int| 0 <= j < n + 1 implies (#[trigger] looks[j]).0
                            && !looks[j].1 by {
                            if j > 0 {
                                assert(looks.skip(1)[j - 1] == looks[j]);
                            }
                        }
                    },
                    None => {},
                }
            },
            _ => {},
        }
    }
}

/// A march uses every step that its limit allows. Where the look at step
/// `n` is in range and converged, every look before it was in range and not
/// converged, and the count at step `n` is still below the limit, the march
/// hits at step `n`. So with a limit of one, a march from count zero that
/// converges at its first look hits.
pub proof fn lemma_march_hits(iters: u32, max_iter: Option<u32>, looks: Seq<(bool, bool)>, n: nat)
    requires
        n < looks.len(),
        iters + n < match max_iter {
            Some(m) => m,
            None => MAX_ST_ITERS,
        },
        looks[n as int].0,
        looks[n as int].1,
        forall|j: int| 0 <= j < n ==> (#[trigger] looks[j]).0 && !looks[j].1,
    ensures
        march_outcome(iters, max_iter, looks) == Some(n),
    decreases n,
{
    if n > 0 {
        let rest = looks.skip(1);
        assert(looks[0].0 && !looks[0].1);
        assert(rest[n as int - 1] == looks[n as int]);
        assert forall|j: int| 0 <= j < n - 1 implies (#[trigger] rest[j]).0 && !rest[j].1 by {
            assert(rest[j] == looks[j + 1]);
        }
        lemma_march_hits((iters + 1) as u32, max_iter, rest, (n - 1) as nat);
    }
}

} // verus!
