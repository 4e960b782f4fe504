use ink_trails::particle::random_point;
use ink_trails::particle::Particle;
use ink_trails::particle::TINT_END;
use ink_trails::particle::TINT_MIN;
use ink_trails::pixel::Pixel;
use ink_trails::point::Point;
use ink_trails::point::UNIT;

/// One world unit, squared, in squared coordinate units.
const EPS: u64 = 1_000_000_000_000;

/// Coordinate units in a world unit.
const U: i32 = 1_000_000;

fn at(x: i32, y: i32) -> Point {
    Point { x, y }
}

fn particle(position: Point, near: Point, far: Point, speed: u32) -> Particle {
    Particle {
        position,
        near_target: near,
        far_target: far,
        speed,
        radius: 9,
        color: Pixel::opaque(220, 230, 240),
    }
}

#[test]
fn distance_squared_between_points() {
    assert_eq!(UNIT, 1_000_000);
    assert_eq!(UNIT, U);
    assert_eq!(at(0, 0).distance_squared(&at(3, -4)), 25);
    assert_eq!(at(-1000, 2000).distance_squared(&at(-1000, 2000)), 0);
    assert_eq!(
        at(i32::MIN, i32::MIN).distance_squared(&at(i32::MAX, i32::MAX)),
        2 * (u32::MAX as u128) * (u32::MAX as u128)
    );
}

#[test]
fn step_toward_along_a_pythagorean_direction() {
    assert_eq!(at(0, 0).step_toward(&at(3 * U, 4 * U), 1_000_000), at(600_000, 800_000));
    assert_eq!(at(0, 0).step_toward(&at(-3 * U, -4 * U), 1_000_000), at(-600_000, -800_000));
    assert_eq!(at(100, 200).step_toward(&at(3100, -3800), 500), at(400, -200));
}

#[test]
fn step_toward_rounds_toward_zero() {
    // A step of 100 000 along a diagonal is 70 710.6... on each axis.
    assert_eq!(at(0, 0).step_toward(&at(U, U), 100_000), at(70_710, 70_710));
    assert_eq!(at(0, 0).step_toward(&at(-U, -U), 100_000), at(-70_710, -70_710));
}

#[test]
fn step_toward_keeps_its_length_along_the_shortest_way() {
    // The length of the way is taken to one part in 65536.
    assert_eq!(ink_trails::fixed::FINE, 65536);
    // Along the shortest diagonal the length of the way is 92681 parts where
    // it is 92681.9..., so the step comes out longer by one part in 92681.
    assert_eq!(at(0, 0).step_toward(&at(1, 1), 1_000_000), at(707_113, 707_113));
    assert_eq!(at(0, 0).step_toward(&at(-1, 0), 1_000_000), at(-1_000_000, 0));
    assert_eq!(at(7, 7).step_toward(&at(7, 8), 3), at(7, 10));
}

#[test]
fn step_toward_its_own_place_stays() {
    assert_eq!(at(5, -7).step_toward(&at(5, -7), 1350), at(5, -7));
    assert_eq!(at(5, -7).step_toward(&at(5, -7), u64::MAX), at(5, -7));
}

#[test]
fn step_toward_may_overshoot() {
    assert_eq!(at(0, 0).step_toward(&at(U, 0), 1_350_000), at(1_350_000, 0));
}

#[test]
fn step_toward_saturates_at_the_edge_of_the_plane() {
    assert_eq!(at(i32::MAX - 10, 0).step_toward(&at(i32::MAX, 0), 1000), at(i32::MAX, 0));
    assert_eq!(at(0, i32::MIN + 10).step_toward(&at(0, i32::MIN), u64::MAX), at(0, i32::MIN));
}

#[test]
fn particle_walks_toward_its_near_target() {
    // Speed 150 for 0.009 s: 1.35 world units along the x axis.
    let mut p = particle(at(0, 0), at(10 * U, 0), at(10 * U, 0), 150);
    let took = p.advance_with(9, EPS, at(1, 1), at(2, 2));
    assert!(!took);
    assert_eq!(p.position, at(1_350_000, 0));
    assert_eq!(p.position.x as f64, (150.0_f64 * 0.009 * 1_000_000.0).round());
    // The near target has reached the far target and has nowhere to go.
    assert_eq!(p.near_target, at(10 * U, 0));
    assert_eq!(p.far_target, at(10 * U, 0));
    assert_eq!(p.speed, 150);
    assert_eq!(p.radius, 9);
    assert_eq!(p.color, Pixel::opaque(220, 230, 240));
}

#[test]
fn near_target_walks_half_again_as_fast() {
    let mut p = particle(at(0, 0), at(10 * U, 0), at(10 * U, 20 * U), 100);
    let took = p.advance_with(10, EPS, at(1, 1), at(2, 2));
    assert!(!took);
    // The near target moves 1.5 units up, then the particle moves one unit
    // toward where the near target now stands.
    assert_eq!(p.near_target, at(10 * U, 1_500_000));
    assert_eq!(p.far_target, at(10 * U, 20 * U));
    // The way is (10, 1.5), its length 10.11187...: a step of one unit along
    // it is (0.9889364..., 0.1483404...).
    assert_eq!(p.position, at(988_936, 148_340));
}

#[test]
fn particle_chases_the_near_target_where_it_now_stands() {
    let mut p = particle(at(0, 0), at(10 * U, 0), at(10 * U, 10 * U), 150);
    let took = p.advance_with(9, EPS, at(1, 1), at(2, 2));
    assert!(!took);
    assert_eq!(p.near_target, at(10 * U, 2_025_000));
    assert_eq!(p.far_target, at(10 * U, 10 * U));
    assert_eq!(p.position, at(1_323_143, 267_936));
    let x = p.position.x as f64 / 1e6;
    let y = p.position.y as f64 / 1e6;
    assert!((x - 1.3231).abs() < 1e-3);
    assert!((y - 0.2679).abs() < 1e-3);
    // The step is as long as the speed times the time.
    assert!(((x * x + y * y).sqrt() - 150.0 * 0.009).abs() < 1e-4);
}

#[test]
fn steps_are_as_long_as_asked_in_every_direction() {
    for (tx, ty) in [(10, 10), (-3, 7), (1, -9), (-8, -1), (0, 5), (-6, 0), (2, 3), (360, -359)] {
        let to = at(0, 0).step_toward(&at(tx * U, ty * U), 1_350_000);
        let x = to.x as f64 / 1e6;
        let y = to.y as f64 / 1e6;
        assert!(((x * x + y * y).sqrt() - 1.35).abs() < 1e-5, "toward ({}, {})", tx, ty);
    }
}

#[test]
fn particle_at_its_target_takes_fresh_targets() {
    let mut p = particle(at(5 * U, 5 * U), at(5 * U, 5 * U), at(7 * U, 7 * U), 150);
    let took = p.advance_with(9, EPS, at(-30 * U, 5 * U), at(5 * U, 45 * U));
    assert!(took);
    assert_eq!(p.far_target, at(-30 * U, 5 * U));
    // The fresh near target steps 2.025 units toward the fresh far target
    // along the way (-35, -40), whose length is 53.1507...
    assert_eq!(p.near_target, at(3_666_529, 43_476_033));
    // The particle steps 1.35 units toward it.
    assert_eq!(p.position, at(4_953_241, 6_349_189));
}

#[test]
fn arrival_is_decided_by_the_squared_distance() {
    let on_the_edge = particle(at(0, 0), at(U, 0), at(0, 0), 150);
    assert!(on_the_edge.has_arrived(EPS));
    let diagonal = particle(at(0, 0), at(600_000, 800_000), at(0, 0), 150);
    assert!(diagonal.has_arrived(EPS));
    let just_outside = particle(at(0, 0), at(U + 1, 0), at(0, 0), 150);
    assert!(!just_outside.has_arrived(EPS));
    let off_diagonal = particle(at(0, 0), at(600_000, 800_001), at(0, 0), 150);
    assert!(!off_diagonal.has_arrived(EPS));
    assert!(off_diagonal.has_arrived(EPS + 1_600_001));
    assert!(!off_diagonal.has_arrived(EPS + 1_600_000));
}

#[test]
fn targets_change_exactly_when_the_particle_has_arrived() {
    let fresh_far = at(-7 * U, -8 * U);
    let fresh_near = at(-7 * U, -8 * U);
    for near_x in [0, 1, U - 1, U, U + 1, 5 * U] {
        let mut p = particle(at(0, 0), at(near_x, 0), at(near_x, 0), 0);
        let arrived = p.has_arrived(EPS);
        assert_eq!(arrived, near_x <= U);
        let took = p.advance_with(9, EPS, fresh_far, fresh_near);
        assert_eq!(took, arrived);
        if arrived {
            assert_eq!(p.far_target, fresh_far);
            assert_eq!(p.near_target, fresh_near);
        } else {
            assert_eq!(p.far_target, at(near_x, 0));
            assert_eq!(p.near_target, at(near_x, 0));
        }
    }
}

#[test]
fn new_particle_rests_at_the_origin() {
    let p = Particle::new(150, 9, Pixel::opaque(1, 2, 3));
    assert_eq!(p, particle_at_origin(Pixel::opaque(1, 2, 3)));
}

fn particle_at_origin(color: Pixel) -> Particle {
    Particle {
        position: at(0, 0),
        near_target: at(0, 0),
        far_target: at(0, 0),
        speed: 150,
        radius: 9,
        color,
    }
}

#[test]
fn spawned_particles_have_light_opaque_colors() {
    assert_eq!(TINT_MIN, 210);
    assert_eq!(TINT_END, 255);
    let mut levels = Vec::new();
    for _ in 0..300 {
        let p = Particle::spawn(150, 9);
        assert_eq!(p, particle_at_origin(p.color));
        assert_eq!(p.color.a, 255);
        for level in [p.color.r, p.color.g, p.color.b] {
            assert!(210 <= level && level < 255);
            levels.push(level);
        }
    }
    levels.sort();
    levels.dedup();
    assert!(levels.len() > 20);
}

#[test]
fn random_points_lie_inside_the_margin() {
    let mut xs = Vec::new();
    for _ in 0..300 {
        let p = random_point(720, 100);
        assert!(-359 * U <= p.x && p.x < 359 * U);
        assert!(-49 * U <= p.y && p.y < 49 * U);
        xs.push(p.x);
    }
    xs.sort();
    xs.dedup();
    assert!(xs.len() > 100);
    assert!(xs[0] < 0 && xs[xs.len() - 1] > 0);
}

#[test]
fn random_points_on_a_canvas_too_small_for_a_margin() {
    for side in 0..4 {
        let p = random_point(side, side);
        assert_eq!(p, at(0, 0));
    }
    let q = random_point(4, 5);
    assert!(-U <= q.x && q.x < U);
    assert!(-U <= q.y && q.y < U);
}

#[test]
fn random_points_on_the_widest_canvas_stay_on_the_plane() {
    for _ in 0..50 {
        let p = random_point(u32::MAX, 4_000);
        assert!(-1_999 * U <= p.y && p.y < 1_999 * U);
        assert!(p.x < i32::MAX);
    }
}

#[test]
fn advance_keeps_the_targets_of_a_particle_under_way() {
    let mut p = particle(at(0, 0), at(10 * U, 0), at(10 * U, 0), 150);
    let took = p.advance(9, EPS, 720, 720);
    assert!(!took);
    assert_eq!(p.position, at(1_350_000, 0));
    assert_eq!(p.near_target, at(10 * U, 0));
    assert_eq!(p.far_target, at(10 * U, 0));
}

#[test]
fn advance_draws_targets_for_a_particle_that_has_arrived() {
    let mut moved = 0;
    for _ in 0..50 {
        let mut p = particle(at(0, 0), at(0, 0), at(0, 0), 150);
        let took = p.advance(9, EPS, 720, 720);
        assert!(took);
        assert!(-359 * U <= p.far_target.x && p.far_target.x < 359 * U);
        assert!(-359 * U <= p.far_target.y && p.far_target.y < 359 * U);
        // The near target was drawn inside the margin and then took one step
        // of 2.025 units.
        assert!(-361_025_000 <= p.near_target.x && p.near_target.x < 361_025_000);
        assert!(-361_025_000 <= p.near_target.y && p.near_target.y < 361_025_000);
        let walked = at(0, 0).distance_squared(&p.position);
        assert!(walked <= 2 * 1_350_000 * 1_350_000);
        if walked > 0 {
            moved += 1;
        }
    }
    assert!(moved > 40);
}
