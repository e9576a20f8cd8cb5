//! Startup: sample the initial population from fixed uniform ranges.

use vstd::prelude::*;

use crate::body::{Ball, HEIGHT, NUM_BALLS, SCALE, WIDTH, wf_ball, wf_balls};

verus! {

/// A uniform sample in `[lo, hi)`.
///
/// Relies on `rand::random_range` with a `Range<u32>`: it returns a value of
/// the given range, drawn from the thread-local generator, and panics only
/// when the range is empty, which the precondition rules out.
#[verifier::external_body]
fn gen_rand(lo: u32, hi: u32) -> (r: u32)
    requires
        lo < hi,
    ensures
        lo <= r < hi,
{
    rand::random_range(lo..hi)
}

/// The ranges the initial population is drawn from: velocity components in
/// [-200, 200) pixels/s, mass and radius in [25, 105) pixels, centers on the
/// canvas — all in fixed-point coordinate units.
pub open spec fn init_range(b: Ball) -> bool {
    &&& -200 * SCALE as int <= b.vx < 200 * SCALE as int
    &&& -200 * SCALE as int <= b.vy < 200 * SCALE as int
    &&& 25 * SCALE as int <= b.m < 105 * SCALE as int
    &&& 25 * SCALE as int <= b.r < 105 * SCALE as int
    &&& 0 <= b.x < WIDTH as int
    &&& 0 <= b.y < HEIGHT as int
}

/// Sample one body.
fn sample_ball() -> (b: Ball)
    ensures
        wf_ball(b),
        init_range(b),
{
    let vx = (gen_rand(0, 400) as i64 - 200) * SCALE;
    let vy = (gen_rand(0, 400) as i64 - 200) * SCALE;
    let m = (gen_rand(0, 80) as i64 + 25) * SCALE;
    let r = (gen_rand(0, 80) as i64 + 25) * SCALE;
    let x = gen_rand(0, 1024) as i64 * SCALE;
    let y = gen_rand(0, 800) as i64 * SCALE;
    Ball { vx, vy, m, r, x, y }
}

/// Build the initial population of `NUM_BALLS` bodies.
pub fn init_ball() -> (balls: Vec<Ball>)
    ensures
        balls@.len() == NUM_BALLS,
        wf_balls(balls@),
        forall|i: int| 0 <= i < balls@.len() ==> init_range(#[trigger] balls@[i]),
{
    let mut balls: Vec<Ball> = Vec::new();
    let mut k: usize = 0;
    while k < NUM_BALLS
        invariant
            k == balls@.len(),
            k <= NUM_BALLS,
            forall|i: int| 0 <= i < balls@.len() ==> wf_ball(#[trigger] balls@[i]),
            forall|i: int| 0 <= i < balls@.len() ==> init_range(#[trigger] balls@[i]),
        decreases NUM_BALLS - k,
    {
        let b = sample_ball();
        balls.push(b);
        k = k + 1;
    }
    balls
}

} // verus!
