use ballsim::body::{HEIGHT, NUM_BALLS, WIDTH, check_balls};
use ballsim::init::init_ball;
use ballsim::math::isqrt;
use ballsim::sim::update;

#[test]
fn isqrt_exact_values() {
    assert_eq!(isqrt(0), 0);
    assert_eq!(isqrt(1), 1);
    assert_eq!(isqrt(2), 1);
    assert_eq!(isqrt(3), 1);
    assert_eq!(isqrt(4), 2);
    assert_eq!(isqrt(99), 9);
    assert_eq!(isqrt(100), 10);
    assert_eq!(isqrt(1600000000), 40000);
    assert_eq!(isqrt(9223372036854775807), 3037000499);
}

#[test]
fn initial_population_is_sampled_in_range() {
    let balls = init_ball();
    assert_eq!(balls.len(), NUM_BALLS);
    assert!(check_balls(&balls));
    for b in &balls {
        assert!(b.vx >= -200000 && b.vx < 200000);
        assert!(b.vy >= -200000 && b.vy < 200000);
        assert!(b.m >= 25000 && b.m < 105000);
        assert!(b.r >= 25000 && b.r < 105000);
        assert!(b.x >= 0 && b.x < WIDTH);
        assert!(b.y >= 0 && b.y < HEIGHT);
    }
}

#[test]
fn sampled_population_survives_a_thousand_ticks() {
    let mut balls = init_ball();
    let masses: Vec<i64> = balls.iter().map(|b| b.m).collect();
    for _ in 0..1000 {
        update(&mut balls);
    }
    assert!(check_balls(&balls));
    for (b, m) in balls.iter().zip(masses.iter()) {
        assert_eq!(b.m, *m);
    }
}
