//! The stepper: one tick of the physics.
//!
//! A tick handles each body `a` in ascending order: the body is first tested
//! against every later body `a+1 .. n` and each overlapping pair gets an
//! equal-and-opposite penalty impulse and a half-penetration separation; then
//! friction decays the body's velocity toward zero, the boundary rule turns
//! the velocity back into the canvas at a wall, the continuation signal
//! tracks the running maximum of the corrected velocity components, and
//! finally the position advances by one semi-implicit Euler step.
//!
//! The whole tick is stated as a spec-level function `tick`, and the
//! executable stepper `update` is proved to compute exactly that.

use vstd::prelude::*;

use crate::body::{Ball, wf_ball, wf_balls};
use crate::body::{DT_DEN, FRICTION_STEP, HEIGHT, M_MAX, P_MAX, R_MAX, REPULSE, SCALE, V_MAX, WIDTH};
use crate::math::{
    abs64, clamp128, clamp_spec, is_isqrt, isqrt, isqrt_spec, lemma_abs_sq, lemma_isqrt_exists,
    lemma_isqrt_unique, lemma_sq_ge, lemma_sq_lt, sabs,
};
use vstd::arithmetic::div_mod::{
    lemma_div_by_multiple, lemma_div_is_ordered, lemma_div_multiples_vanish,
    lemma_div_nonincreasing, lemma_div_of0, lemma_fundamental_div_mod,
};
use vstd::arithmetic::mul::lemma_mul_inequality;

verus! {

// ---------------------------------------------------------------------------
// The mathematical model of one tick.
// ---------------------------------------------------------------------------

/// Squared distance between two centers.
pub open spec fn dist2(p: Ball, q: Ball) -> int {
    (p.x - q.x) * (p.x - q.x) + (p.y - q.y) * (p.y - q.y)
}

/// The collision gate: the circles overlap and the centers do not coincide
/// (coincident centers have no defined direction and are skipped).
pub open spec fn hits(p: Ball, q: Ball) -> bool {
    0 < dist2(p, q) && dist2(p, q) < (p.r + q.r) * (p.r + q.r)
}

/// Velocity kick on one axis from the penalty impulse: the value
/// `REPULSE * m_other * delta * SCALE / d2`, where the division is taken on
/// the magnitude so that it rounds toward zero.
pub open spec fn kick(m_other: int, delta: int, d2: int) -> int {
    let mag = (REPULSE * m_other * sabs(delta) * SCALE) / d2;
    if delta < 0 {
        -mag
    } else {
        mag
    }
}

/// Positional shove on one axis separating an overlapping pair: the value
/// `diff * delta / dist`, with the division on the magnitude.
pub open spec fn shove(diff: int, delta: int, dist: int) -> int {
    let mag = (diff * sabs(delta)) / dist;
    if delta < 0 {
        -mag
    } else {
        mag
    }
}

/// Collision response for an overlapping pair `(p, q)`: each body's velocity
/// gets the penalty kick scaled by the other body's mass, and each center
/// moves half the penetration depth along the line of centers, away from the
/// other. Velocities and positions are clamped into the model bounds.
pub open spec fn pair_response(p: Ball, q: Ball) -> (Ball, Ball) {
    let dx = p.x - q.x;
    let dy = p.y - q.y;
    let d2 = dist2(p, q);
    let dist = isqrt_spec(d2);
    let diff = (p.r + q.r - dist) / 2;
    let p2 = Ball {
        vx: clamp_spec(p.vx + kick(q.m as int, dx, d2), V_MAX as int) as i64,
        vy: clamp_spec(p.vy + kick(q.m as int, dy, d2), V_MAX as int) as i64,
        m: p.m,
        r: p.r,
        x: clamp_spec(p.x + shove(diff, dx, dist), P_MAX as int) as i64,
        y: clamp_spec(p.y + shove(diff, dy, dist), P_MAX as int) as i64,
    };
    let q2 = Ball {
        vx: clamp_spec(q.vx - kick(p.m as int, dx, d2), V_MAX as int) as i64,
        vy: clamp_spec(q.vy - kick(p.m as int, dy, d2), V_MAX as int) as i64,
        m: q.m,
        r: q.r,
        x: clamp_spec(q.x - shove(diff, dx, dist), P_MAX as int) as i64,
        y: clamp_spec(q.y - shove(diff, dy, dist), P_MAX as int) as i64,
    };
    (p2, q2)
}

/// What one pairwise check does: the response when the pair overlaps,
/// nothing otherwise.
pub open spec fn pair_update(p: Ball, q: Ball) -> (Ball, Ball) {
    if hits(p, q) {
        pair_response(p, q)
    } else {
        (p, q)
    }
}

/// One friction step on a single velocity component: decay toward zero by
/// `FRICTION_STEP`, clamped so friction alone can never cross zero.
pub open spec fn fric1(v: int) -> int {
    if v > FRICTION_STEP as int {
        v - FRICTION_STEP as int
    } else if v < -(FRICTION_STEP as int) {
        v + FRICTION_STEP as int
    } else {
        0
    }
}

/// Friction applied to both velocity components of a body.
pub open spec fn friction(b: Ball) -> Ball {
    Ball {
        vx: fric1(b.vx as int) as i64,
        vy: fric1(b.vy as int) as i64,
        m: b.m,
        r: b.r,
        x: b.x,
        y: b.y,
    }
}

/// Boundary correction of the x velocity: at or past the right wall the
/// component is forced non-positive, then at or past the left wall forced
/// non-negative (the left check runs second, so it wins when a body reaches
/// both walls at once).
pub open spec fn bounce_vx(b: Ball) -> int {
    let v1 = if b.x + b.r >= WIDTH as int {
        -sabs(b.vx as int)
    } else {
        b.vx as int
    };
    if b.x - b.r <= 0 {
        sabs(v1)
    } else {
        v1
    }
}

/// Boundary correction of the y velocity, bottom wall then top wall.
pub open spec fn bounce_vy(b: Ball) -> int {
    let v1 = if b.y + b.r >= HEIGHT as int {
        -sabs(b.vy as int)
    } else {
        b.vy as int
    };
    if b.y - b.r <= 0 {
        sabs(v1)
    } else {
        v1
    }
}

/// Boundary correction of a body: velocity only, the position is left alone.
pub open spec fn bounce(b: Ball) -> Ball {
    Ball {
        vx: bounce_vx(b) as i64,
        vy: bounce_vy(b) as i64,
        m: b.m,
        r: b.r,
        x: b.x,
        y: b.y,
    }
}

/// One axis of semi-implicit Euler integration: the position advances by
/// `v / DT_DEN` (velocity is in units per second and the timestep is
/// `1 / DT_DEN` seconds), rounding toward zero, then is clamped into the
/// model bounds.
pub open spec fn euler1(x: int, v: int) -> int {
    let step = sabs(v) / DT_DEN as int;
    clamp_spec(if v < 0 { x - step } else { x + step }, P_MAX as int)
}

/// Position integration of a body with its already-corrected velocity.
pub open spec fn integrate(b: Ball) -> Ball {
    Ball {
        vx: b.vx,
        vy: b.vy,
        m: b.m,
        r: b.r,
        x: euler1(b.x as int, b.vx as int) as i64,
        y: euler1(b.y as int, b.vy as int) as i64,
    }
}

/// Everything a body undergoes after its pairwise checks: friction, then
/// boundary correction, then integration.
pub open spec fn settle(b: Ball) -> Ball {
    integrate(bounce(friction(b)))
}

/// The pairwise check of indices `a` and `j` applied to a population.
pub open spec fn apply_pair(s: Seq<Ball>, a: int, j: int) -> Seq<Ball> {
    let pr = pair_update(s[a], s[j]);
    s.update(a, pr.0).update(j, pr.1)
}

/// The state after body `a` has been tested against bodies `a+1 .. j`.
pub open spec fn collide_upto(s: Seq<Ball>, a: int, j: int) -> Seq<Ball>
    decreases j - a,
{
    if j <= a + 1 {
        s
    } else {
        apply_pair(collide_upto(s, a, j - 1), a, j - 1)
    }
}

/// One full pass for body `a`: pairwise checks against all later bodies,
/// then friction, boundary correction and integration of body `a`.
pub open spec fn body_pass(s: Seq<Ball>, a: int) -> Seq<Ball> {
    let t = collide_upto(s, a, s.len() as int);
    t.update(a, settle(t[a]))
}

/// The state after full passes for bodies `0 .. a`.
pub open spec fn tick_upto(s: Seq<Ball>, a: int) -> Seq<Ball>
    decreases a,
{
    if a <= 0 {
        s
    } else {
        body_pass(tick_upto(s, a - 1), a - 1)
    }
}

/// One full tick of the simulation.
pub open spec fn tick(s: Seq<Ball>) -> Seq<Ball> {
    tick_upto(s, s.len() as int)
}

/// Maximum of three values.
pub open spec fn max3(a: int, b: int, c: int) -> int {
    if b > a && b >= c {
        b
    } else if c > a {
        c
    } else {
        a
    }
}

/// Running maximum, starting from zero, of the velocity components of the
/// first `a` bodies — the continuation metric of a tick.
pub open spec fn vmax_upto(s: Seq<Ball>, a: int) -> int
    decreases a,
{
    if a <= 0 {
        0
    } else {
        max3(vmax_upto(s, a - 1), s[a - 1].vx as int, s[a - 1].vy as int)
    }
}

/// Some body still has strictly positive velocity along an axis. A body
/// moving only toward negative coordinates does not count: the continuation
/// metric is the running maximum of the signed components.
pub open spec fn still_moving(s: Seq<Ball>) -> bool {
    exists|i: int| 0 <= i < s.len() && ((#[trigger] s[i]).vx > 0 || s[i].vy > 0)
}

// ---------------------------------------------------------------------------
// The executable stepper, proved equal to the model.
// ---------------------------------------------------------------------------

/// One friction step on one velocity component.
fn fric1_exec(v: i64) -> (r: i64)
    requires
        -V_MAX <= v <= V_MAX,
    ensures
        r as int == fric1(v as int),
        -V_MAX <= r <= V_MAX,
{
    if v > FRICTION_STEP {
        v - FRICTION_STEP
    } else if v < -FRICTION_STEP {
        v + FRICTION_STEP
    } else {
        0
    }
}

/// Friction on both velocity components.
pub fn step_friction(b: Ball) -> (r: Ball)
    requires
        wf_ball(b),
    ensures
        r == friction(b),
        wf_ball(r),
{
    Ball { vx: fric1_exec(b.vx), vy: fric1_exec(b.vy), m: b.m, r: b.r, x: b.x, y: b.y }
}

/// Boundary correction: velocity only, position untouched.
pub fn step_bounce(b: Ball) -> (r: Ball)
    requires
        wf_ball(b),
    ensures
        r == bounce(b),
        wf_ball(r),
{
    let mut vx = b.vx;
    let mut vy = b.vy;
    if b.x + b.r >= WIDTH {
        vx = -abs64(b.vx);
    }
    if b.x - b.r <= 0 {
        vx = abs64(vx);
    }
    if b.y + b.r >= HEIGHT {
        vy = -abs64(b.vy);
    }
    if b.y - b.r <= 0 {
        vy = abs64(vy);
    }
    Ball { vx, vy, m: b.m, r: b.r, x: b.x, y: b.y }
}

/// One semi-implicit Euler step of the position.
pub fn step_integrate(b: Ball) -> (r: Ball)
    requires
        wf_ball(b),
    ensures
        r == integrate(b),
        wf_ball(r),
{
    let sx = (abs64(b.vx) as u64 / DT_DEN as u64) as i64;
    let sy = (abs64(b.vy) as u64 / DT_DEN as u64) as i64;
    proof {
        lemma_div_is_ordered(sabs(b.vx as int), V_MAX as int, DT_DEN as int);
        lemma_div_is_ordered(sabs(b.vy as int), V_MAX as int, DT_DEN as int);
    }
    let nx = if b.vx < 0 {
        b.x - sx
    } else {
        b.x + sx
    };
    let ny = if b.vy < 0 {
        b.y - sy
    } else {
        b.y + sy
    };
    let x2 = clamp128(nx as i128, P_MAX);
    let y2 = clamp128(ny as i128, P_MAX);
    Ball { vx: b.vx, vy: b.vy, m: b.m, r: b.r, x: x2, y: y2 }
}

/// The penalty kick on one axis, computed exactly as `kick` states it.
fn kick_exec(m_other: i64, delta: i64, d2: i64) -> (k: i128)
    requires
        0 < m_other <= M_MAX,
        sabs(delta as int) <= 2 * R_MAX as int,
        0 < d2,
    ensures
        k as int == kick(m_other as int, delta as int, d2 as int),
        sabs(k as int) <= 2000000000000000000000000,
{
    let am: u64 = abs64(delta) as u64;
    proof {
        assert((REPULSE as u128) == 1000);
        assert((m_other as u128) <= 1000000000);
        assert((REPULSE as u128) * (m_other as u128) <= 1000000000000) by (nonlinear_arith)
            requires
                (REPULSE as u128) == 1000,
                (m_other as u128) <= 1000000000;
    }
    let f1: u128 = (REPULSE as u128) * (m_other as u128);
    proof {
        assert(am as u128 <= 2000000000);
        assert(f1 * (am as u128) <= 2000000000000000000000) by (nonlinear_arith)
            requires
                f1 <= 1000000000000,
                am as u128 <= 2000000000;
    }
    let f2: u128 = f1 * (am as u128);
    proof {
        assert(f2 * (SCALE as u128) <= 2000000000000000000000000) by (nonlinear_arith)
            requires
                f2 <= 2000000000000000000000,
                (SCALE as u128) == 1000;
    }
    let n: u128 = f2 * (SCALE as u128);
    let mag: u128 = n / (d2 as u128);
    proof {
        lemma_div_nonincreasing(n as int, d2 as int);
        lemma_div_is_ordered(0, n as int, d2 as int);
    }
    if delta < 0 {
        -(mag as i128)
    } else {
        mag as i128
    }
}

/// The separating shove on one axis, computed exactly as `shove` states it.
fn shove_exec(diff: i64, delta: i64, dist: i64) -> (sh: i64)
    requires
        0 <= diff <= R_MAX,
        0 < dist <= 2 * R_MAX as int,
        sabs(delta as int) <= dist as int,
    ensures
        sh as int == shove(diff as int, delta as int, dist as int),
        sabs(sh as int) <= diff as int,
{
    let am: u64 = abs64(delta) as u64;
    assert((diff as u64) * am <= 2000000000000000000) by (nonlinear_arith)
        requires
            diff as u64 <= 1000000000,
            am <= 2000000000;
    let prod: u64 = (diff as u64) * am;
    let mag: u64 = prod / (dist as u64);
    proof {
        lemma_mul_inequality(am as int, dist as int, diff as int);
        lemma_div_is_ordered((diff * am) as int, (diff as int) * (dist as int), dist as int);
        lemma_div_by_multiple(diff as int, dist as int);
        lemma_div_is_ordered(0, (diff * am) as int, dist as int);
    }
    let sh = mag as i64;
    if delta < 0 {
        -sh
    } else {
        sh
    }
}

/// One pairwise check and response, exactly `pair_update`.
pub fn collide_pair(p: Ball, q: Ball) -> (r: (Ball, Ball))
    requires
        wf_ball(p),
        wf_ball(q),
    ensures
        r == pair_update(p, q),
        wf_ball(r.0),
        wf_ball(r.1),
{
    let dx = p.x - q.x;
    let dy = p.y - q.y;
    let rsum = p.r + q.r;
    let adx = abs64(dx);
    let ady = abs64(dy);
    if adx >= rsum || ady >= rsum {
        proof {
            lemma_abs_sq(dx as int);
            lemma_abs_sq(dy as int);
            if sabs(dx as int) >= rsum as int {
                lemma_sq_ge(dx as int, rsum as int);
            } else {
                lemma_sq_ge(dy as int, rsum as int);
            }
            assert(!hits(p, q));
        }
        return (p, q);
    }
    proof {
        lemma_sq_lt(dx as int, rsum as int);
        lemma_sq_lt(dy as int, rsum as int);
        lemma_abs_sq(dx as int);
        lemma_abs_sq(dy as int);
        assert((rsum as int) * (rsum as int) <= 4000000000000000000) by (nonlinear_arith)
            requires 0 < rsum as int <= 2000000000;
    }
    let d2 = dx * dx + dy * dy;
    if d2 == 0 {
        return (p, q);
    }
    let rsum2 = rsum * rsum;
    if d2 >= rsum2 {
        return (p, q);
    }
    assert(hits(p, q));
    let dist64 = isqrt(d2 as u64);
    assert(d2 as u64 as int == d2 as int);
    assert(is_isqrt(d2 as int, dist64 as int));
    assert((dist64 as int) * (dist64 as int) <= d2 as int);
    assert(dist64 < rsum as u64) by (nonlinear_arith)
        requires
            (dist64 as int) * (dist64 as int) <= d2 as int,
            (d2 as int) < (rsum as int) * (rsum as int),
            0 <= dist64,
            0 < rsum;
    let dist = dist64 as i64;
    assert(dist >= 1) by {
        if dist64 == 0 {
            assert((d2 as int) < 1) by (nonlinear_arith)
                requires
                    (d2 as int) < ((dist64 as int) + 1) * ((dist64 as int) + 1),
                    dist64 as int == 0;
        }
    }
    let diff = ((rsum - dist) as u64 / 2) as i64;
    proof {
        lemma_div_is_ordered((rsum - dist) as int, 2 * R_MAX as int, 2);
        lemma_div_is_ordered(0, (rsum - dist) as int, 2);
    }
    assert(sabs(dx as int) <= dist as int) by (nonlinear_arith)
        requires
            sabs(dx as int) * sabs(dx as int) <= d2 as int,
            (d2 as int) < (dist as int + 1) * (dist as int + 1),
            0 <= sabs(dx as int),
            0 <= dist as int;
    assert(sabs(dy as int) <= dist as int) by (nonlinear_arith)
        requires
            sabs(dy as int) * sabs(dy as int) <= d2 as int,
            (d2 as int) < (dist as int + 1) * (dist as int + 1),
            0 <= sabs(dy as int),
            0 <= dist as int;
    let kxp = kick_exec(q.m, dx, d2);
    let kyp = kick_exec(q.m, dy, d2);
    let kxq = kick_exec(p.m, dx, d2);
    let kyq = kick_exec(p.m, dy, d2);
    let shx = shove_exec(diff, dx, dist);
    let shy = shove_exec(diff, dy, dist);
    let p2 = Ball {
        vx: clamp128(p.vx as i128 + kxp, V_MAX),
        vy: clamp128(p.vy as i128 + kyp, V_MAX),
        m: p.m,
        r: p.r,
        x: clamp128(p.x as i128 + shx as i128, P_MAX),
        y: clamp128(p.y as i128 + shy as i128, P_MAX),
    };
    let q2 = Ball {
        vx: clamp128(q.vx as i128 - kxq, V_MAX),
        vy: clamp128(q.vy as i128 - kyq, V_MAX),
        m: q.m,
        r: q.r,
        x: clamp128(q.x as i128 - shx as i128, P_MAX),
        y: clamp128(q.y as i128 - shy as i128, P_MAX),
    };
    (p2, q2)
}

// ---------------------------------------------------------------------------
// Bookkeeping lemmas about the tick model.
// ---------------------------------------------------------------------------

/// Pairwise checks keep the length and leave bodies below `a` alone.
pub proof fn lemma_collide_upto_frame(s: Seq<Ball>, a: int, j: int)
    requires
        0 <= a < s.len(),
        a < j <= s.len(),
    ensures
        collide_upto(s, a, j).len() == s.len(),
        forall|i: int| 0 <= i < a ==> collide_upto(s, a, j)[i] == s[i],
    decreases j - a,
{
    if j <= a + 1 {
    } else {
        lemma_collide_upto_frame(s, a, j - 1);
    }
}

/// The continuation maximum over a prefix depends only on that prefix.
pub proof fn lemma_vmax_prefix(s1: Seq<Ball>, s2: Seq<Ball>, a: int)
    requires
        forall|i: int| 0 <= i < a ==> s1[i] == s2[i],
    ensures
        vmax_upto(s1, a) == vmax_upto(s2, a),
    decreases a,
{
    if a > 0 {
        lemma_vmax_prefix(s1, s2, a - 1);
    }
}

/// The continuation maximum over a prefix is positive exactly when some body
/// of the prefix has a strictly positive velocity component.
pub proof fn lemma_vmax_moving(s: Seq<Ball>, a: int)
    requires
        0 <= a <= s.len(),
    ensures
        vmax_upto(s, a) > 0 <==> exists|i: int|
            0 <= i < a && ((#[trigger] s[i]).vx > 0 || s[i].vy > 0),
    decreases a,
{
    if a > 0 {
        lemma_vmax_moving(s, a - 1);
        if s[a - 1].vx > 0 || s[a - 1].vy > 0 {
            assert(0 <= a - 1 < a && (s[a - 1].vx > 0 || s[a - 1].vy > 0));
        }
        if vmax_upto(s, a) > 0 && !(s[a - 1].vx > 0 || s[a - 1].vy > 0) {
            let w = choose|i: int| 0 <= i < a - 1 && ((#[trigger] s[i]).vx > 0 || s[i].vy > 0);
            assert(0 <= w < a && (s[w].vx > 0 || s[w].vy > 0));
        }
    }
}

// ---------------------------------------------------------------------------
// Laws of the model.
// ---------------------------------------------------------------------------

/// Friction alone never increases the magnitude of a velocity component and
/// never flips its sign: the component either keeps its sign or reaches
/// exactly zero.
pub proof fn lemma_friction_monotone(v: int)
    ensures
        sabs(fric1(v)) <= sabs(v),
        v >= 0 ==> 0 <= fric1(v) <= v,
        v <= 0 ==> v <= fric1(v) <= 0,
{
}

/// Two bodies with coincident centers have no defined collision direction:
/// the pairwise check leaves both bodies exactly as they were.
pub proof fn lemma_coincident_skip(p: Ball, q: Ball)
    requires
        p.x == q.x,
        p.y == q.y,
    ensures
        pair_update(p, q) == (p, q),
{
}

/// A pairwise check keeps both bodies well-formed and never changes mass or
/// radius.
pub proof fn lemma_pair_preserves(p: Ball, q: Ball)
    requires
        wf_ball(p),
        wf_ball(q),
    ensures
        wf_ball(pair_update(p, q).0),
        wf_ball(pair_update(p, q).1),
        pair_update(p, q).0.m == p.m && pair_update(p, q).0.r == p.r,
        pair_update(p, q).1.m == q.m && pair_update(p, q).1.r == q.r,
{
}

/// Friction, boundary correction and integration keep a body well-formed and
/// never change mass or radius.
pub proof fn lemma_settle_preserves(b: Ball)
    requires
        wf_ball(b),
    ensures
        wf_ball(settle(b)),
        settle(b).m == b.m && settle(b).r == b.r,
{
}

/// All pairwise checks of one pass preserve well-formedness, length, and
/// every body's mass and radius.
pub proof fn lemma_collide_upto_preserves(s: Seq<Ball>, a: int, j: int)
    requires
        wf_balls(s),
        0 <= a < s.len(),
        a < j <= s.len(),
    ensures
        collide_upto(s, a, j).len() == s.len(),
        wf_balls(collide_upto(s, a, j)),
        forall|i: int|
            0 <= i < s.len() ==> (#[trigger] collide_upto(s, a, j)[i]).m == s[i].m
                && collide_upto(s, a, j)[i].r == s[i].r,
    decreases j - a,
{
    if j <= a + 1 {
    } else {
        lemma_collide_upto_preserves(s, a, j - 1);
        let t = collide_upto(s, a, j - 1);
        let u = collide_upto(s, a, j);
        lemma_pair_preserves(t[a], t[j - 1]);
        assert forall|i: int| 0 <= i < s.len() implies wf_ball(#[trigger] u[i]) by {
            if i != a && i != j - 1 {
                assert(u[i] == t[i]);
            }
        }
        assert forall|i: int| 0 <= i < s.len() implies (#[trigger] u[i]).m == s[i].m && u[i].r
            == s[i].r by {
            if i != a && i != j - 1 {
                assert(u[i] == t[i]);
            }
        }
    }
}

/// One full body pass preserves well-formedness, length, and every body's
/// mass and radius.
pub proof fn lemma_body_pass_preserves(s: Seq<Ball>, a: int)
    requires
        wf_balls(s),
        0 <= a < s.len(),
    ensures
        body_pass(s, a).len() == s.len(),
        wf_balls(body_pass(s, a)),
        forall|i: int|
            0 <= i < s.len() ==> (#[trigger] body_pass(s, a)[i]).m == s[i].m && body_pass(s, a)[i].r
                == s[i].r,
{
    lemma_collide_upto_preserves(s, a, s.len() as int);
    let t = collide_upto(s, a, s.len() as int);
    let u = body_pass(s, a);
    lemma_settle_preserves(t[a]);
    assert forall|i: int| 0 <= i < s.len() implies wf_ball(#[trigger] u[i]) by {
        if i != a {
            assert(u[i] == t[i]);
        }
    }
    assert forall|i: int| 0 <= i < s.len() implies (#[trigger] u[i]).m == s[i].m && u[i].r
        == s[i].r by {
        if i != a {
            assert(u[i] == t[i]);
        }
    }
}

/// The first `a` body passes preserve well-formedness, length, and every
/// body's mass and radius.
pub proof fn lemma_tick_upto_preserves(s: Seq<Ball>, a: int)
    requires
        wf_balls(s),
        0 <= a <= s.len(),
    ensures
        tick_upto(s, a).len() == s.len(),
        wf_balls(tick_upto(s, a)),
        forall|i: int|
            0 <= i < s.len() ==> (#[trigger] tick_upto(s, a)[i]).m == s[i].m && tick_upto(s, a)[i].r
                == s[i].r,
    decreases a,
{
    if a > 0 {
        lemma_tick_upto_preserves(s, a - 1);
        let t = tick_upto(s, a - 1);
        let u = tick_upto(s, a);
        lemma_body_pass_preserves(t, a - 1);
        assert forall|i: int| 0 <= i < s.len() implies (#[trigger] u[i]).m == s[i].m && u[i].r
            == s[i].r by {
            assert(u[i].m == t[i].m && u[i].r == t[i].r);
        }
    }
}

/// Mass and radius are never mutated by a tick, and every body stays
/// well-formed — in particular every velocity component stays bounded by
/// `V_MAX`. By induction the same holds after any number of ticks.
pub proof fn lemma_tick_preserves(s: Seq<Ball>)
    requires
        wf_balls(s),
    ensures
        tick(s).len() == s.len(),
        wf_balls(tick(s)),
        forall|i: int|
            0 <= i < s.len() ==> (#[trigger] tick(s)[i]).m == s[i].m && tick(s)[i].r == s[i].r,
{
    lemma_tick_upto_preserves(s, s.len() as int);
}

/// A head-on collision between two bodies of equal mass and radius whose
/// centers lie on one horizontal line, approaching with mirror-opposite
/// horizontal velocities: the vertical velocities and coordinates are
/// untouched, the horizontal velocities stay mirror-opposite (equal
/// magnitude, opposite direction), and the centers separate to at least the
/// combined radius less one unit of rounding. The position bounds in the
/// hypotheses keep the position clamp out of play.
pub proof fn lemma_head_on_symmetry(p: Ball, q: Ball)
    requires
        wf_ball(p),
        wf_ball(q),
        p.m == q.m,
        p.r == q.r,
        p.y == q.y,
        p.vx == -q.vx,
        hits(p, q),
        sabs(p.x as int) + p.r as int <= P_MAX as int,
        sabs(q.x as int) + q.r as int <= P_MAX as int,
    ensures
        pair_update(p, q).0.vy == p.vy,
        pair_update(p, q).1.vy == q.vy,
        pair_update(p, q).0.y == p.y,
        pair_update(p, q).1.y == q.y,
        pair_update(p, q).0.vx as int == -(pair_update(p, q).1.vx as int),
        sabs(pair_update(p, q).0.x - pair_update(p, q).1.x) >= p.r + q.r - 1,
{
    let dx = p.x - q.x;
    let d2 = dist2(p, q);
    let adx = sabs(dx as int);
    let rsum = p.r + q.r;
    assert(d2 == dx * dx);
    lemma_abs_sq(dx as int);
    assert(adx * adx < (adx + 1) * (adx + 1)) by (nonlinear_arith)
        requires 0 <= adx;
    assert(is_isqrt(d2, adx));
    lemma_isqrt_exists(d2);
    lemma_isqrt_unique(d2, isqrt_spec(d2), adx);
    assert(isqrt_spec(d2) == adx);
    assert(dx != 0);
    assert(adx >= 1);
    assert(adx < rsum) by (nonlinear_arith)
        requires
            adx * adx < (rsum as int) * (rsum as int),
            0 <= adx,
            0 < rsum as int;
    let diff = (rsum - adx) / 2;
    // the vertical axis: zero displacement means zero kick and zero shove
    assert(sabs(0) == 0);
    assert((REPULSE as int) * (q.m as int) * 0 * (SCALE as int) == 0) by (nonlinear_arith);
    assert((REPULSE as int) * (p.m as int) * 0 * (SCALE as int) == 0) by (nonlinear_arith);
    assert(diff * 0 == 0) by (nonlinear_arith);
    lemma_div_of0(d2);
    lemma_div_of0(adx);
    assert(kick(q.m as int, 0, d2) == 0);
    assert(kick(p.m as int, 0, d2) == 0);
    assert(shove(diff, 0, adx) == 0);
    // mirror-opposite horizontal velocities stay mirror-opposite
    let k = kick(q.m as int, dx as int, d2);
    assert(kick(p.m as int, dx as int, d2) == k);
    assert(clamp_spec(q.vx - k, V_MAX as int) == -clamp_spec(p.vx + k, V_MAX as int));
    // the shove along x is exactly half the penetration depth
    lemma_div_by_multiple(diff, adx);
    assert(shove(diff, dx as int, adx) == if dx < 0 { -diff } else { diff });
    lemma_div_is_ordered(rsum - adx, rsum as int, 2);
    lemma_div_multiples_vanish(p.r as int, 2);
    assert((2 * (p.r as int)) / 2 == p.r as int);
    assert(diff <= p.r as int);
    assert(0 <= diff);
    let sdiff = if dx < 0 { -diff } else { diff };
    assert(clamp_spec(p.x + sdiff, P_MAX as int) == p.x + sdiff);
    assert(clamp_spec(q.x - sdiff, P_MAX as int) == q.x - sdiff);
    lemma_fundamental_div_mod(rsum - adx, 2);
    assert(2 * diff >= rsum - adx - 1);
    assert(pair_update(p, q).0.x as int == p.x + sdiff);
    assert(pair_update(p, q).1.x as int == q.x - sdiff);
    assert(sabs(pair_update(p, q).0.x - pair_update(p, q).1.x) >= rsum - 1);
}

/// After the boundary-correction step the velocity points back into the
/// canvas at any wall the body has reached. When a body spans both opposite
/// walls at once, the left (or top) rule runs last and wins, so the claim at
/// the right (or bottom) wall asks the body to be clear of the opposite one.
pub proof fn lemma_bounce_inward(b: Ball)
    requires
        wf_ball(b),
    ensures
        b.x - b.r <= 0 ==> bounce(b).vx >= 0,
        b.y - b.r <= 0 ==> bounce(b).vy >= 0,
        b.x + b.r >= WIDTH as int && b.x - b.r > 0 ==> bounce(b).vx <= 0,
        b.y + b.r >= HEIGHT as int && b.y - b.r > 0 ==> bounce(b).vy <= 0,
{
}

/// A body at rest is left exactly in place by friction, boundary correction
/// and integration.
pub proof fn lemma_rest_settles_in_place(b: Ball)
    requires
        wf_ball(b),
        b.vx == 0,
        b.vy == 0,
    ensures
        settle(b) == b,
{
    lemma_div_of0(DT_DEN as int);
}

/// One body at rest alone on the canvas: a tick changes nothing and reports
/// no further motion.
pub proof fn lemma_single_rest_tick(s: Seq<Ball>)
    requires
        s.len() == 1,
        wf_ball(s[0]),
        s[0].vx == 0,
        s[0].vy == 0,
    ensures
        tick(s) == s,
        !still_moving(tick(s)),
{
    lemma_rest_settles_in_place(s[0]);
    assert(tick_upto(s, 0) == s);
    assert(collide_upto(s, 0, 1) == s);
    assert(tick(s) == s.update(0, settle(s[0])));
    assert(tick(s) =~= s);
}

/// A lone body at or past the right wall (and clear of the left wall), still
/// moving rightward faster than one friction step, turns back within one
/// tick: after the tick its horizontal velocity is strictly negative.
pub proof fn lemma_right_wall_turns_back(s: Seq<Ball>)
    requires
        s.len() == 1,
        wf_ball(s[0]),
        s[0].x + s[0].r >= WIDTH as int,
        s[0].x - s[0].r > 0,
        s[0].vx > FRICTION_STEP as int,
    ensures
        tick(s)[0].vx < 0,
{
    let b = s[0];
    assert(tick_upto(s, 0) == s);
    assert(collide_upto(s, 0, 1) == s);
    assert(tick(s) == s.update(0, settle(b)));
    assert(tick(s)[0] == settle(b));
    let bf = friction(b);
    assert(bf.vx as int == fric1(b.vx as int));
    assert(0 < bf.vx as int <= V_MAX as int);
    assert(bounce_vx(bf) == -sabs(bf.vx as int));
    assert(settle(b).vx as int == bounce_vx(bf));
}

// ---------------------------------------------------------------------------
// The tick itself.
// ---------------------------------------------------------------------------

/// Advance the whole population by one tick, exactly as `tick` states it.
/// The returned continuation signal says whether the running maximum of the
/// corrected velocity components was strictly positive this tick.
pub fn update(balls: &mut Vec<Ball>) -> (moving: bool)
    requires
        wf_balls(old(balls)@),
    ensures
        final(balls)@ == tick(old(balls)@),
        wf_balls(final(balls)@),
        moving == still_moving(final(balls)@),
        final(balls)@.len() == old(balls)@.len(),
        forall|i: int|
            0 <= i < old(balls)@.len() ==> (#[trigger] final(balls)@[i]).m == old(balls)@[i].m
                && final(balls)@[i].r == old(balls)@[i].r,
{
    let ghost s0 = balls@;
    let n = balls.len();
    let mut vmax: i64 = 0;
    let mut a: usize = 0;
    while a < n
        invariant
            a <= n,
            n == balls@.len(),
            s0.len() == n as int,
            balls@ == tick_upto(s0, a as int),
            wf_balls(balls@),
            0 <= vmax <= V_MAX,
            vmax as int == vmax_upto(balls@, a as int),
        decreases n - a,
    {
        let ghost spass = balls@;
        let mut j: usize = a + 1;
        while j < n
            invariant
                a < n,
                a + 1 <= j <= n,
                n == balls@.len(),
                spass.len() == n as int,
                balls@ == collide_upto(spass, a as int, j as int),
                wf_balls(balls@),
            decreases n - j,
        {
            let p = balls[a];
            let q = balls[j];
            let pr = collide_pair(p, q);
            balls.set(a, pr.0);
            balls.set(j, pr.1);
            proof {
                assert(balls@ == apply_pair(
                    collide_upto(spass, a as int, j as int),
                    a as int,
                    j as int,
                ));
                assert(balls@ == collide_upto(spass, a as int, j as int + 1));
                assert forall|i: int| 0 <= i < balls@.len() implies wf_ball(
                    #[trigger] balls@[i],
                ) by {
                    if i != a as int && i != j as int {
                        assert(balls@[i] == collide_upto(spass, a as int, j as int)[i]);
                    }
                }
            }
            j = j + 1;
        }
        let b = balls[a];
        let bf = step_friction(b);
        let bb = step_bounce(bf);
        if bb.vx > vmax {
            vmax = bb.vx;
        }
        if bb.vy > vmax {
            vmax = bb.vy;
        }
        let bi = step_integrate(bb);
        balls.set(a, bi);
        proof {
            assert(bi == settle(b));
            assert(balls@ == body_pass(spass, a as int));
            assert(balls@ == tick_upto(s0, a as int + 1));
            lemma_collide_upto_frame(spass, a as int, n as int);
            lemma_vmax_prefix(spass, balls@, a as int);
            assert(vmax_upto(balls@, a as int + 1) == vmax as int);
            assert forall|i: int| 0 <= i < balls@.len() implies wf_ball(
                #[trigger] balls@[i],
            ) by {
                if i != a as int {
                    assert(balls@[i] == collide_upto(spass, a as int, n as int)[i]);
                }
            }
        }
        a = a + 1;
    }
    proof {
        lemma_vmax_moving(balls@, n as int);
        lemma_tick_preserves(s0);
    }
    vmax > 0
}

} // verus!
