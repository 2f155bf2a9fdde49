use nbody::body::{Body, Vec2};
use nbody::{State, FORCE_COMPONENT_LIMIT};

fn body(px: i64, py: i64, vx: i64, vy: i64, mass: i64, id: u64) -> Body {
    Body::new(Vec2::new(px, py), Vec2::new(vx, vy), mass, id)
}

#[test]
fn self_force_is_zero() {
    let b = body(5000, -3000, 100, 200, 50, 1);
    let mut a = b;
    let f = a.calculate_force(&b);
    assert_eq!(f, Vec2::new(0, 0));
}

#[test]
fn coincident_distinct_bodies_exert_no_force() {
    // Same position but different velocity and mass: not "equal", yet the
    // separation is zero, so the softened force formula still gives zero.
    let mut a = body(100, 100, 0, 0, 10, 1);
    let b = body(100, 100, 5, 5, 20, 2);
    assert!(!a.equal(&b));
    let f = a.calculate_force(&b);
    assert_eq!(f, Vec2::new(0, 0));
}

#[test]
fn equal_compares_state_not_identity() {
    let a = body(1, 2, 3, 4, 5, 1);
    let b = body(1, 2, 3, 4, 5, 99);
    let c = body(1, 2, 3, 4, 6, 1);
    assert!(a.equal(&b));
    assert!(!a.equal(&c));
}

#[test]
fn force_follows_inverse_square_law() {
    // Masses 10 at 10 m apart on the x axis: G * 10 * 10 / (10 m)^2 in
    // milli-units is 6674302 * 100 / 100_000_000 = 6 (rounded down), all of
    // it along +x for the left body.
    let mut a = body(0, 0, 0, 0, 10, 1);
    let b = body(10_000, 0, 0, 0, 10, 2);
    let f = a.calculate_force(&b);
    assert_eq!(f, Vec2::new(6, 0));

    // Masses 1000 and 2000 at 2 m: 6674302 * 1000 * 2000 / 4_000_000.
    let mut c = body(0, 0, 0, 0, 1000, 3);
    let d = body(2000, 0, 0, 0, 2000, 4);
    let g = c.calculate_force(&d);
    assert_eq!(g, Vec2::new(3_337_151, 0));

    // Direction points from the acted-upon body toward the other.
    let mut e = body(2000, 0, 0, 0, 2000, 5);
    let h = e.calculate_force(&body(0, 0, 0, 0, 1000, 6));
    assert_eq!(h, Vec2::new(-3_337_151, 0));
}

#[test]
fn softening_caps_force_at_close_range() {
    // 0.1 m apart, heaviest admissible masses: the true inverse-square
    // force would be 100 times larger; the floor holds it at
    // G * m1 * m2 / MINIMUM_DISTANCE_SQUARED scaled by dx / r.
    let mut a = body(0, 0, 0, 0, 1_000_000, 1);
    let b = body(100, 0, 0, 0, 1_000_000, 2);
    let f = a.calculate_force(&b);
    assert_eq!(f, Vec2::new(667_430_200_000, 0));
    assert!(f.x <= FORCE_COMPONENT_LIMIT);

    // Even closer: still finite, still under the cap.
    let c = body(1, 0, 0, 0, 1_000_000, 3);
    let g = a.calculate_force(&c);
    assert_eq!(g, Vec2::new(6_674_302_000, 0));
    assert!(g.x <= FORCE_COMPONENT_LIMIT);
}

#[test]
fn apply_force_rounds_toward_zero() {
    let mut a = body(0, 0, 0, 0, 2, 1);
    a.apply_force(Vec2::new(-7, 7), 3);
    // -7 * 3 / 2 rounds toward zero: -10, and +10 on the other axis.
    assert_eq!(a.velocity, Vec2::new(-10, 10));
    assert_eq!(a.position, Vec2::new(0, 0));
    assert_eq!(a.mass, 2);
}

#[test]
fn pair_interaction_conserves_momentum_exactly_for_equal_masses() {
    let mut a = body(0, 0, 17, -4, 50, 1);
    let mut b = body(3000, 4000, -9, 12, 50, 2);
    let before = 50 * (a.velocity.x as i128 + b.velocity.x as i128);
    let before_y = 50 * (a.velocity.y as i128 + b.velocity.y as i128);
    let f = a.calculate_force(&b);
    a.apply_force(f, 1000);
    b.apply_force(Vec2::new(-f.x, -f.y), 1000);
    let after = 50 * (a.velocity.x as i128 + b.velocity.x as i128);
    let after_y = 50 * (a.velocity.y as i128 + b.velocity.y as i128);
    assert_eq!(before, after);
    assert_eq!(before_y, after_y);
}

#[test]
fn pair_interaction_momentum_drift_stays_under_mass_sum() {
    // Unequal masses: each impulse rounds toward zero separately, so the
    // drift in total momentum is bounded by the sum of the masses.
    let mut a = body(0, 0, 0, 0, 7, 1);
    let mut b = body(1500, -2500, 0, 0, 13, 2);
    let f = a.calculate_force(&b);
    a.apply_force(f, 1000);
    b.apply_force(Vec2::new(-f.x, -f.y), 1000);
    let drift_x = 7 * a.velocity.x as i128 + 13 * b.velocity.x as i128;
    let drift_y = 7 * a.velocity.y as i128 + 13 * b.velocity.y as i128;
    assert!(drift_x.abs() < 7 + 13);
    assert!(drift_y.abs() < 7 + 13);
}

#[test]
fn integration_step_moves_a_lone_body_by_velocity_times_dt() {
    // Velocity (2, 0) m/s, dt 0.5 s, no other bodies: position advances by
    // exactly (1, 0) m and the velocity is unchanged.
    let mut state = State::new(vec![body(0, 0, 2000, 0, 1, 1)]);
    state.step(500);
    assert_eq!(state.bodies[0].position, Vec2::new(1000, 0));
    assert_eq!(state.bodies[0].velocity, Vec2::new(2000, 0));
}

#[test]
fn two_body_scenario_velocities_first_positions_after() {
    // A at (0,0) and B at (10,0) m, both mass 10, both at rest.
    let mut state = State::new(vec![
        body(0, 0, 0, 0, 10, 1),
        body(10_000, 0, 0, 0, 10, 2),
    ]);
    // The velocity pass pulls them toward each other with equal and
    // opposite impulses and moves nothing.
    state.update_velocities(1000);
    assert!(state.bodies[0].velocity.x > 0);
    assert_eq!(state.bodies[0].velocity.x, -state.bodies[1].velocity.x);
    assert_eq!(state.bodies[0].velocity, Vec2::new(600, 0));
    assert_eq!(state.bodies[1].velocity, Vec2::new(-600, 0));
    assert_eq!(state.bodies[0].position, Vec2::new(0, 0));
    assert_eq!(state.bodies[1].position, Vec2::new(10_000, 0));
    // The position pass then uses the just-updated velocities.
    state.update_positions(1000);
    assert_eq!(state.bodies[0].position, Vec2::new(600, 0));
    assert_eq!(state.bodies[1].position, Vec2::new(9_400, 0));
}

#[test]
fn masses_and_ids_never_change() {
    let mut state = State::new(vec![
        body(0, 0, 0, 0, 11, 5),
        body(40_000, 0, 0, 0, 22, 6),
        body(0, 50_000, 0, 0, 33, 7),
    ]);
    for _ in 0..100 {
        state.step(16);
    }
    assert_eq!(state.bodies[0].mass, 11);
    assert_eq!(state.bodies[1].mass, 22);
    assert_eq!(state.bodies[2].mass, 33);
    assert_eq!(state.bodies[0].id, 5);
    assert_eq!(state.bodies[1].id, 6);
    assert_eq!(state.bodies[2].id, 7);
}

#[test]
fn net_impulse_is_independent_of_collection_order() {
    let a = body(0, 0, 0, 0, 100, 1);
    let b = body(5000, 0, 0, 0, 200, 2);
    let c = body(0, 7000, 0, 0, 300, 3);
    let mut first = State::new(vec![a, b, c]);
    let mut second = State::new(vec![c, a, b]);
    first.update_velocities(1000);
    second.update_velocities(1000);
    for id in 1..=3u64 {
        let in_first = first.bodies.iter().find(|x| x.id == id).unwrap();
        let in_second = second.bodies.iter().find(|x| x.id == id).unwrap();
        assert_eq!(in_first.velocity, in_second.velocity);
    }
}

#[test]
fn update_positions_rounds_toward_zero() {
    let mut state = State::new(vec![body(0, 0, -2500, 1, 4, 1)]);
    state.update_positions(100);
    // -2500 * 100 / 1000 = -250 exactly; 1 * 100 / 1000 rounds to zero.
    assert_eq!(state.bodies[0].position, Vec2::new(-250, 0));
    assert_eq!(state.bodies[0].velocity, Vec2::new(-2500, 1));
}

#[test]
fn body_count_reports_the_collection_size() {
    let state = State::new(vec![
        body(0, 0, 0, 0, 1, 1),
        body(1000, 0, 0, 0, 1, 2),
    ]);
    assert_eq!(state.body_count(), 2);
    assert_eq!(State::new(vec![]).body_count(), 0);
}
