//! The simulation state: circular bodies with fixed-point kinematics.
//!
//! All positions, velocities, radii and masses are held in thousandths of a
//! pixel (`SCALE` units per pixel), so the physics is exact integer
//! arithmetic. Well-formedness bounds every quantity far inside `i64`, which
//! keeps every tick free of overflow.

use vstd::prelude::*;

verus! {

/// Coordinate units per pixel.
pub const SCALE: i64 = 1000;

/// Canvas width in coordinate units.
pub const WIDTH: i64 = 1024 * SCALE;

/// Canvas height in coordinate units.
pub const HEIGHT: i64 = 800 * SCALE;

/// Size of the population sampled at startup.
pub const NUM_BALLS: usize = 8;

/// The fixed timestep is `1 / DT_DEN` seconds (5 ms).
pub const DT_DEN: i64 = 200;

/// Friction decelerates each velocity component by 25 pixels/s^2, which per
/// tick comes to `25 * SCALE / DT_DEN` coordinate units per second.
pub const FRICTION_STEP: i64 = 125;

/// Strength of the penalty-force collision response.
pub const REPULSE: i64 = 1000;

/// Largest velocity component a body can hold, in units per second.
pub const V_MAX: i64 = 1_000_000_000_000;

/// Largest distance from the origin a coordinate can hold.
pub const P_MAX: i64 = 1_000_000_000_000;

/// Largest radius a body can hold.
pub const R_MAX: i64 = 1_000_000_000;

/// Largest mass a body can hold.
pub const M_MAX: i64 = 1_000_000_000;

/// One circular body: center, velocity, mass and radius.
#[derive(Clone, Copy, Debug, PartialEq, Eq, Structural)]
pub struct Ball {
    pub vx: i64,
    pub vy: i64,
    pub m: i64,
    pub r: i64,
    pub x: i64,
    pub y: i64,
}

/// Well-formedness of a single body: strictly positive mass and radius, and
/// every kinematic quantity inside the model bounds.
pub open spec fn wf_ball(b: Ball) -> bool {
    &&& 0 < b.m <= M_MAX
    &&& 0 < b.r <= R_MAX
    &&& -P_MAX <= b.x <= P_MAX
    &&& -P_MAX <= b.y <= P_MAX
    &&& -V_MAX <= b.vx <= V_MAX
    &&& -V_MAX <= b.vy <= V_MAX
}

/// Well-formedness of a whole population.
pub open spec fn wf_balls(s: Seq<Ball>) -> bool {
    forall|i: int| 0 <= i < s.len() ==> wf_ball(#[trigger] s[i])
}

/// Runtime check of a single body's well-formedness.
pub fn check_ball(b: &Ball) -> (ok: bool)
    ensures
        ok == wf_ball(*b),
{
    b.m > 0 && b.m <= M_MAX && b.r > 0 && b.r <= R_MAX && b.x >= -P_MAX && b.x <= P_MAX
        && b.y >= -P_MAX && b.y <= P_MAX && b.vx >= -V_MAX && b.vx <= V_MAX && b.vy >= -V_MAX
        && b.vy <= V_MAX
}

/// Runtime check of a whole population's well-formedness.
pub fn check_balls(balls: &Vec<Ball>) -> (ok: bool)
    ensures
        ok == wf_balls(balls@),
{
    let mut i: usize = 0;
    while i < balls.len()
        invariant
            i <= balls@.len(),
            forall|k: int| 0 <= k < i ==> wf_ball(#[trigger] balls@[k]),
        decreases balls@.len() - i,
    {
        if !check_ball(&balls[i]) {
            return false;
        }
        i += 1;
    }
    true
}

} // verus!
