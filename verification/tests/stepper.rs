use ballsim::body::{Ball, HEIGHT, WIDTH};
use ballsim::body::{check_ball, check_balls};
use ballsim::sim::update;

fn ball(vx: i64, vy: i64, m: i64, r: i64, x: i64, y: i64) -> Ball {
    Ball { vx, vy, m, r, x, y }
}

#[test]
fn friction_decays_single_ball() {
    let mut balls = vec![ball(300000, 0, 50000, 25000, 512000, 400000)];
    let moving = update(&mut balls);
    assert!(moving);
    assert_eq!(balls[0].vx, 299875);
    assert_eq!(balls[0].vy, 0);
    assert_eq!(balls[0].x, 513499);
    assert_eq!(balls[0].y, 400000);
}

#[test]
fn friction_clamps_small_velocity_to_zero() {
    let mut balls = vec![ball(100, -100, 50000, 25000, 512000, 400000)];
    let moving = update(&mut balls);
    assert!(!moving);
    assert_eq!(balls[0].vx, 0);
    assert_eq!(balls[0].vy, 0);
    assert_eq!(balls[0].x, 512000);
    assert_eq!(balls[0].y, 400000);
}

#[test]
fn friction_keeps_sign_of_negative_velocity() {
    let mut balls = vec![ball(-300, 0, 50000, 25000, 512000, 400000)];
    let moving = update(&mut balls);
    // a leftward mover never raises the signed running maximum
    assert!(!moving);
    assert_eq!(balls[0].vx, -175);
    assert_eq!(balls[0].x, 512000);
}

#[test]
fn resting_ball_at_center_stays_put() {
    let mut balls = vec![ball(0, 0, 50000, 25000, 512000, 400000)];
    let moving = update(&mut balls);
    assert!(!moving);
    assert_eq!(balls[0].vx, 0);
    assert_eq!(balls[0].vy, 0);
    assert_eq!(balls[0].x, 512000);
    assert_eq!(balls[0].y, 400000);
}

#[test]
fn leftward_mover_gives_no_continuation() {
    let mut balls = vec![ball(-300000, 0, 50000, 25000, 512000, 400000)];
    let moving = update(&mut balls);
    assert!(!moving);
    assert_eq!(balls[0].vx, -299875);
    assert_eq!(balls[0].x, 510501);
}

#[test]
fn head_on_collision_of_equal_balls() {
    let mut balls = vec![
        ball(-100000, 0, 50000, 25000, 500000, 400000),
        ball(100000, 0, 50000, 25000, 460000, 400000),
    ];
    let moving = update(&mut balls);
    assert!(moving);
    // penalty kick 1250000 each way, then friction 125, then integration
    assert_eq!(balls[0].vx, 1149875);
    assert_eq!(balls[1].vx, -1149875);
    assert_eq!(balls[0].vy, 0);
    assert_eq!(balls[1].vy, 0);
    assert_eq!(balls[0].x, 510749);
    assert_eq!(balls[1].x, 449251);
    assert_eq!(balls[0].y, 400000);
    assert_eq!(balls[1].y, 400000);
    // separated by at least the combined radii less rounding
    assert!(balls[0].x - balls[1].x >= 50000 - 1);
}

#[test]
fn coincident_balls_do_not_collide() {
    let mut balls = vec![
        ball(10000, 0, 50000, 30000, 500000, 400000),
        ball(-10000, 0, 50000, 30000, 500000, 400000),
    ];
    let moving = update(&mut balls);
    assert!(moving);
    // only friction and integration act: the pairwise check is skipped
    assert_eq!(balls[0].vx, 9875);
    assert_eq!(balls[1].vx, -9875);
    assert_eq!(balls[0].x, 500049);
    assert_eq!(balls[1].x, 499951);
    assert!(check_balls(&balls));
}

#[test]
fn right_wall_turns_velocity_back() {
    let mut balls = vec![ball(50000, 0, 50000, 25000, 1015000, 400000)];
    let moving = update(&mut balls);
    assert_eq!(balls[0].vx, -49875);
    assert_eq!(balls[0].x, 1014751);
    // the corrected velocity is negative, so the signed maximum stays zero
    assert!(!moving);
}

#[test]
fn left_wall_turns_velocity_back() {
    let mut balls = vec![ball(-50000, 0, 50000, 25000, 20000, 400000)];
    let moving = update(&mut balls);
    assert_eq!(balls[0].vx, 49875);
    assert_eq!(balls[0].x, 20249);
    assert!(moving);
}

#[test]
fn bottom_wall_turns_vertical_velocity_back() {
    let mut balls = vec![ball(0, 60000, 50000, 25000, 512000, 780000)];
    let moving = update(&mut balls);
    assert_eq!(balls[0].vy, -59875);
    assert_eq!(balls[0].y, 780000 - 299);
    assert!(!moving);
}

#[test]
fn ball_reaches_right_wall_and_bounces_within_one_tick() {
    let mut balls = vec![ball(300000, 0, 50000, 25000, 100000, 400000)];
    let mut crossed = false;
    for _ in 0..5000 {
        update(&mut balls);
        if balls[0].x + balls[0].r >= WIDTH {
            crossed = true;
            break;
        }
    }
    assert!(crossed);
    assert!(balls[0].vx > 0);
    update(&mut balls);
    assert!(balls[0].vx < 0);
}

#[test]
fn many_ticks_keep_population_well_formed() {
    let mut balls = vec![
        ball(200000, -150000, 30000, 40000, 200000, 300000),
        ball(-120000, 90000, 90000, 60000, 240000, 320000),
        ball(0, 0, 25000, 25000, 512000, 400000),
        ball(50000, 50000, 104000, 104000, 900000, 700000),
    ];
    for _ in 0..2000 {
        update(&mut balls);
        assert!(check_balls(&balls));
    }
    for b in &balls {
        assert!(b.m > 0 && b.r > 0);
    }
    assert_eq!(balls[0].m, 30000);
    assert_eq!(balls[1].r, 60000);
}

#[test]
fn check_ball_rejects_bad_mass() {
    let good = ball(0, 0, 1, 1, 0, 0);
    assert!(check_ball(&good));
    let bad = ball(0, 0, 0, 1, 0, 0);
    assert!(!check_ball(&bad));
    let mut v = vec![good, bad];
    assert!(!check_balls(&v));
    v.pop();
    assert!(check_balls(&v));
    assert!(HEIGHT < WIDTH);
}
