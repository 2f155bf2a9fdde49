use vstd::prelude::*;

use crate::math::{iabs, is_sqrt, isqrt, lemma_sqrt_exists, lemma_sqrt_unique, sgn, sqrt_val};
use crate::{
    DELTA_T_LIMIT, FORCE_COMPONENT_LIMIT, GRAVITY_CONSTANT, MASS_LIMIT,
    MINIMUM_DISTANCE_SQUARED, PAIR_IMPULSE_LIMIT, POSITION_LIMIT,
};
use vstd::arithmetic::div_mod::{
    lemma_div_basics, lemma_div_by_multiple, lemma_div_is_ordered,
    lemma_div_is_ordered_by_denominator, lemma_div_pos_is_pos, lemma_fundamental_div_mod,
    lemma_mod_bound,
};
use vstd::arithmetic::mul::{lemma_mul_inequality, lemma_mul_inequality_converse};

verus! {

/// A two-dimensional vector with fixed-point components: each component
/// counts thousandths of a simulation unit (see `crate::SCALE`).
#[derive(Clone, Copy, Debug, PartialEq, Eq, Structural)]
pub struct Vec2 {
    pub x: i64,
    pub y: i64,
}

impl Vec2 {
    pub fn new(x: i64, y: i64) -> (v: Vec2)
        ensures
            v.x == x,
            v.y == y,
    {
        Vec2 { x, y }
    }
}

/// A point mass: identity plus kinematic state. Positions and velocities
/// are in milli-meters and milli-meters per second, masses in
/// milli-kilograms.
#[derive(Clone, Copy, Debug, PartialEq, Eq, Structural)]
pub struct Body {
    pub id: u64,
    pub position: Vec2,
    pub velocity: Vec2,
    pub mass: i64,
}

/// A mass is admissible when it is positive and below the machine limit.
pub open spec fn valid_mass(m: int) -> bool {
    1 <= m && m <= MASS_LIMIT
}

impl Body {
    /// The body's invariant: its mass is positive (and bounded).
    pub open spec fn valid(self) -> bool {
        valid_mass(self.mass as int)
    }

    /// Both position components are within the machine limit.
    pub open spec fn position_in_range(self) -> bool {
        iabs(self.position.x as int) <= POSITION_LIMIT && iabs(self.position.y as int)
            <= POSITION_LIMIT
    }

    /// Both velocity components are within `limit`.
    pub open spec fn velocity_within(self, limit: int) -> bool {
        iabs(self.velocity.x as int) <= limit && iabs(self.velocity.y as int) <= limit
    }
}

/// Squared distance between two positions.
pub open spec fn dist_squared(pa: Vec2, pb: Vec2) -> int {
    (pb.x - pa.x) * (pb.x - pa.x) + (pb.y - pa.y) * (pb.y - pa.y)
}

/// Squared distance clamped from below by the softening floor, so that it
/// never divides a force as zero.
pub open spec fn softened_dist_squared(pa: Vec2, pb: Vec2) -> int {
    if dist_squared(pa, pb) < MINIMUM_DISTANCE_SQUARED {
        MINIMUM_DISTANCE_SQUARED as int
    } else {
        dist_squared(pa, pb)
    }
}

/// Magnitude of the gravitational force between masses `ma` and `mb` at the
/// softened squared distance: `G * ma * mb / r^2`.
pub open spec fn force_magnitude(pa: Vec2, pb: Vec2, ma: int, mb: int) -> int {
    (GRAVITY_CONSTANT * ma * mb) / softened_dist_squared(pa, pb)
}

/// One component of a force of magnitude `mag` directed along a separation
/// whose component is `d` and whose softened length is `r`: the magnitude is
/// scaled by `d / r`, rounding toward zero.
pub open spec fn scaled_component(mag: int, d: int, r: int) -> int {
    sgn(d) * ((mag * iabs(d)) / r)
}

/// The force that a body of mass `mb` at `pb` exerts on a body of mass `ma`
/// at `pa`, componentwise: `G * ma * mb / r^2`, directed from `pa` toward
/// `pb`, with the squared separation softened.
pub open spec fn gravity_force(pa: Vec2, pb: Vec2, ma: int, mb: int) -> (int, int) {
    let r = sqrt_val(softened_dist_squared(pa, pb));
    (
        scaled_component(force_magnitude(pa, pb, ma, mb), pb.x - pa.x, r),
        scaled_component(force_magnitude(pa, pb, ma, mb), pb.y - pa.y, r),
    )
}

/// The change a force component `f`, acting for `dt`, makes to the velocity
/// of a body of mass `m`: `f * dt / m`, rounding toward zero.
pub open spec fn velocity_delta(f: int, dt: int, m: int) -> int {
    sgn(f) * ((iabs(f) * dt) / m)
}

impl Body {
    pub fn new(position: Vec2, velocity: Vec2, mass: i64, id: u64) -> (body: Body)
        requires
            valid_mass(mass as int),
        ensures
            body.position == position,
            body.velocity == velocity,
            body.mass == mass,
            body.id == id,
            body.valid(),
    {
        Body { id, position, velocity, mass }
    }

    /// Whether two bodies carry the same kinematic state (identity aside).
    pub fn equal(&self, other_body: &Body) -> (r: bool)
        ensures
            r == (self.position == other_body.position && self.velocity == other_body.velocity
                && self.mass == other_body.mass),
    {
        (self.position == other_body.position) && (self.velocity == other_body.velocity) && (
        self.mass == other_body.mass)
    }

    /// Computes the gravitational force that `other_body` exerts on `self`,
    /// directed from `self` toward `other_body`, with the squared
    /// separation softened by `MINIMUM_DISTANCE_SQUARED`. A body identical
    /// in state to `self` (in particular `self` itself) exerts no force.
    pub fn calculate_force(&mut self, other_body: &Body) -> (force: Vec2)
        requires
            old(self).valid(),
            other_body.valid(),
            old(self).position_in_range(),
            other_body.position_in_range(),
        ensures
            *final(self) == *old(self),
            force.x as int == gravity_force(
                old(self).position,
                other_body.position,
                old(self).mass as int,
                other_body.mass as int,
            ).0,
            force.y as int == gravity_force(
                old(self).position,
                other_body.position,
                old(self).mass as int,
                other_body.mass as int,
            ).1,
            iabs(force.x as int) <= (GRAVITY_CONSTANT * old(self).mass * other_body.mass) / (
            MINIMUM_DISTANCE_SQUARED as int),
            iabs(force.y as int) <= (GRAVITY_CONSTANT * old(self).mass * other_body.mass) / (
            MINIMUM_DISTANCE_SQUARED as int),
    {
        let ghost pa = self.position;
        let ghost pb = other_body.position;
        let ghost ma: int = self.mass as int;
        let ghost mb: int = other_body.mass as int;
        proof {
            assert(0 < GRAVITY_CONSTANT * ma * mb) by (nonlinear_arith)
                requires
                    1 <= ma,
                    1 <= mb,
            ;
            lemma_div_pos_is_pos(GRAVITY_CONSTANT * ma * mb, MINIMUM_DISTANCE_SQUARED as int);
        }
        if self.equal(other_body) {
            return Vec2::new(0, 0);
        }
        let dx: i64 = other_body.position.x - self.position.x;
        let dy: i64 = other_body.position.y - self.position.y;
        let dx_abs: u128 = if dx < 0 {
            (-dx) as u128
        } else {
            dx as u128
        };
        let dy_abs: u128 = if dy < 0 {
            (-dy) as u128
        } else {
            dy as u128
        };
        assert(dx_abs as int == iabs(dx as int) && dx_abs <= 2_000_000_000_000);
        assert(dy_abs as int == iabs(dy as int) && dy_abs <= 2_000_000_000_000);
        assert((dx_abs as int) * (dx_abs as int) == (dx as int) * (dx as int) && (dx_abs as int)
            * (dx_abs as int) <= 4_000_000_000_000_000_000_000_000) by (nonlinear_arith)
            requires
                dx_abs as int == dx as int || dx_abs as int == -(dx as int),
                dx_abs as int <= 2_000_000_000_000,
                0 <= dx_abs as int,
        ;
        assert((dy_abs as int) * (dy_abs as int) == (dy as int) * (dy as int) && (dy_abs as int)
            * (dy_abs as int) <= 4_000_000_000_000_000_000_000_000) by (nonlinear_arith)
            requires
                dy_abs as int == dy as int || dy_abs as int == -(dy as int),
                dy_abs as int <= 2_000_000_000_000,
                0 <= dy_abs as int,
        ;
        let d2: u128 = dx_abs * dx_abs + dy_abs * dy_abs;
        assert(d2 as int == dist_squared(pa, pb));
        let min_d2: u128 = MINIMUM_DISTANCE_SQUARED as u128;
        let r2: u128 = if d2 < min_d2 {
            min_d2
        } else {
            d2
        };
        assert(r2 as int == softened_dist_squared(pa, pb));
        assert(1_000_000 <= r2 && r2 <= 8_000_000_000_000_000_000_000_000);
        let r: u128 = isqrt(r2);
        proof {
            if r < 1000 {
                assert((r as int + 1) * (r as int + 1) <= 1_000_000) by (nonlinear_arith)
                    requires
                        0 <= r as int,
                        r as int + 1 <= 1000,
                ;
                assert(false);
            }
            if r > 3_000_000_000_000 {
                assert((r as int) * (r as int) > 8_000_000_000_000_000_000_000_000)
                    by (nonlinear_arith)
                    requires
                        r as int > 3_000_000_000_000,
                ;
                assert(false);
            }
        }
        assert(0 < GRAVITY_CONSTANT * ma && GRAVITY_CONSTANT * ma <= 6_674_302_000_000 && 0
            < GRAVITY_CONSTANT * ma * mb && GRAVITY_CONSTANT * ma * mb
            <= 6_674_302_000_000_000_000) by (nonlinear_arith)
            requires
                1 <= ma <= 1_000_000,
                1 <= mb <= 1_000_000,
        ;
        let gm: u128 = (GRAVITY_CONSTANT as u128) * (self.mass as u128) * (other_body.mass
            as u128);
        assert(gm as int == GRAVITY_CONSTANT * ma * mb);
        let mag: u128 = gm / r2;
        assert(mag as int == force_magnitude(pa, pb, ma, mb));
        proof {
            lemma_div_is_ordered_by_denominator(gm as int, 1_000_000, r2 as int);
            lemma_div_is_ordered(gm as int, 6_674_302_000_000_000_000, 1_000_000);
            assert(mag as int <= 6_674_302_000_000);
            lemma_div_pos_is_pos(gm as int, r2 as int);
        }
        proof {
            if dx_abs > r {
                assert((dx_abs as int) * (dx_abs as int) >= (r as int + 1) * (r as int + 1))
                    by (nonlinear_arith)
                    requires
                        0 <= r as int,
                        r as int + 1 <= dx_abs as int,
                ;
                assert(false);
            }
            if dy_abs > r {
                assert((dy_abs as int) * (dy_abs as int) >= (r as int + 1) * (r as int + 1))
                    by (nonlinear_arith)
                    requires
                        0 <= r as int,
                        r as int + 1 <= dy_abs as int,
                ;
                assert(false);
            }
        }
        assert((mag as int) * (dx_abs as int) <= (mag as int) * (r as int) && (mag as int) * (
        dx_abs as int) <= 21_000_000_000_000_000_000_000_000) by (nonlinear_arith)
            requires
                0 <= mag as int <= 6_674_302_000_000,
                0 <= dx_abs as int <= r as int,
                r as int <= 3_000_000_000_000,
        ;
        assert((mag as int) * (dy_abs as int) <= (mag as int) * (r as int) && (mag as int) * (
        dy_abs as int) <= 21_000_000_000_000_000_000_000_000) by (nonlinear_arith)
            requires
                0 <= mag as int <= 6_674_302_000_000,
                0 <= dy_abs as int <= r as int,
                r as int <= 3_000_000_000_000,
        ;
        let fx_mag: u128 = mag * dx_abs / r;
        let fy_mag: u128 = mag * dy_abs / r;
        proof {
            lemma_div_is_ordered((mag as int) * (dx_abs as int), (mag as int) * (r as int), r as int);
            lemma_div_is_ordered((mag as int) * (dy_abs as int), (mag as int) * (r as int), r as int);
            lemma_div_by_multiple(mag as int, r as int);
            assert(fx_mag as int <= mag as int);
            assert(fy_mag as int <= mag as int);
            lemma_div_pos_is_pos((mag as int) * (dx_abs as int), r as int);
            lemma_div_pos_is_pos((mag as int) * (dy_abs as int), r as int);
            if dx == 0 {
                lemma_div_basics(r as int);
                assert((mag as int) * (dx_abs as int) == 0) by (nonlinear_arith)
                    requires
                        dx_abs as int == 0,
                ;
            }
            if dy == 0 {
                lemma_div_basics(r as int);
                assert((mag as int) * (dy_abs as int) == 0) by (nonlinear_arith)
                    requires
                        dy_abs as int == 0,
                ;
            }
        }
        let fx: i64 = if dx < 0 {
            -(fx_mag as i64)
        } else {
            fx_mag as i64
        };
        let fy: i64 = if dy < 0 {
            -(fy_mag as i64)
        } else {
            fy_mag as i64
        };
        proof {
            assert(dx as int == pb.x - pa.x);
            assert(r as int == sqrt_val(softened_dist_squared(pa, pb)));
            assert(mag as int == force_magnitude(pa, pb, ma, mb));
            assert(fx_mag as int == ((mag as int) * iabs(pb.x - pa.x)) / (r as int));
            assert(fx as int == sgn(pb.x - pa.x) * ((force_magnitude(pa, pb, ma, mb) * iabs(
                pb.x - pa.x,
            )) / (r as int)));
            assert(fx as int == gravity_force(pa, pb, ma, mb).0);
            assert(fy as int == gravity_force(pa, pb, ma, mb).1);
        }
        Vec2::new(fx, fy)
    }

    /// Adds `force / mass * delta_t` to the velocity, rounding each
    /// component toward zero. Nothing else moves.
    pub fn apply_force(&mut self, force: Vec2, delta_t: i64)
        requires
            1 <= old(self).mass,
            0 <= delta_t,
            iabs(old(self).velocity.x as int) + (iabs(force.x as int) * delta_t) / (
            old(self).mass as int) <= i64::MAX,
            iabs(old(self).velocity.y as int) + (iabs(force.y as int) * delta_t) / (
            old(self).mass as int) <= i64::MAX,
        ensures
            final(self).velocity.x as int == old(self).velocity.x + velocity_delta(
                force.x as int,
                delta_t as int,
                old(self).mass as int,
            ),
            final(self).velocity.y as int == old(self).velocity.y + velocity_delta(
                force.y as int,
                delta_t as int,
                old(self).mass as int,
            ),
            final(self).position == old(self).position,
            final(self).mass == old(self).mass,
            final(self).id == old(self).id,
    {
        let dvx = impulse_component(force.x, delta_t, self.mass);
        let dvy = impulse_component(force.y, delta_t, self.mass);
        proof {
            lemma_velocity_delta_abs(force.x as int, delta_t as int, self.mass as int);
            lemma_velocity_delta_abs(force.y as int, delta_t as int, self.mass as int);
        }
        self.velocity = Vec2 { x: self.velocity.x + dvx, y: self.velocity.y + dvy };
    }
}

/// A body exerts no force on a body at the same position; in particular a
/// body's force on itself is the zero vector.
pub proof fn lemma_self_force_zero(pa: Vec2, ma: int, mb: int)
    ensures
        gravity_force(pa, pa, ma, mb).0 == 0,
        gravity_force(pa, pa, ma, mb).1 == 0,
{
}

/// Newton's third law at the level of the force formula: swapping the two
/// bodies negates both force components exactly.
pub proof fn lemma_force_antisymmetric(pa: Vec2, pb: Vec2, ma: int, mb: int)
    ensures
        gravity_force(pb, pa, mb, ma).0 == -gravity_force(pa, pb, ma, mb).0,
        gravity_force(pb, pa, mb, ma).1 == -gravity_force(pa, pb, ma, mb).1,
{
    assert((pa.x - pb.x) * (pa.x - pb.x) == (pb.x - pa.x) * (pb.x - pa.x)) by (nonlinear_arith);
    assert((pa.y - pb.y) * (pa.y - pb.y) == (pb.y - pa.y) * (pb.y - pa.y)) by (nonlinear_arith);
    assert(dist_squared(pb, pa) == dist_squared(pa, pb));
    assert(softened_dist_squared(pb, pa) == softened_dist_squared(pa, pb));
    assert(GRAVITY_CONSTANT * mb * ma == GRAVITY_CONSTANT * ma * mb) by (nonlinear_arith);
    assert(force_magnitude(pb, pa, mb, ma) == force_magnitude(pa, pb, ma, mb));
    let mag = force_magnitude(pa, pb, ma, mb);
    let r = sqrt_val(softened_dist_squared(pa, pb));
    assert forall|d: int| #[trigger] scaled_component(mag, -d, r) == -scaled_component(
        mag,
        d,
        r,
    ) by {
        assert(sgn(-d) == -sgn(d));
        assert(iabs(-d) == iabs(d));
        assert((-sgn(d)) * ((mag * iabs(d)) / r) == -(sgn(d) * ((mag * iabs(d)) / r)))
            by (nonlinear_arith);
    }
    assert(scaled_component(mag, pa.x - pb.x, r) == -scaled_component(mag, pb.x - pa.x, r));
    assert(scaled_component(mag, pa.y - pb.y, r) == -scaled_component(mag, pb.y - pa.y, r));
}

/// The inverse-square law, exact on an axis-aligned pair: when the bodies
/// share a `y` coordinate and their separation is at or above the softening
/// floor, the force is exactly `G * ma * mb / r^2` along `x`, pointing from
/// the acted-upon body toward the other.
pub proof fn lemma_force_on_axis(pa: Vec2, pb: Vec2, ma: int, mb: int)
    requires
        pa.y == pb.y,
        valid_mass(ma),
        valid_mass(mb),
        dist_squared(pa, pb) >= MINIMUM_DISTANCE_SQUARED,
    ensures
        gravity_force(pa, pb, ma, mb).0 == sgn(pb.x - pa.x) * ((GRAVITY_CONSTANT * ma * mb)
            / dist_squared(pa, pb)),
        gravity_force(pa, pb, ma, mb).1 == 0,
{
    let d = pb.x - pa.x;
    let a = iabs(d);
    assert(dist_squared(pa, pb) == d * d);
    assert(softened_dist_squared(pa, pb) == d * d);
    assert(a * a == d * d && d * d < (a + 1) * (a + 1) && 1 <= a) by (nonlinear_arith)
        requires
            a == d || a == -d,
            0 <= a,
            d * d >= 1_000_000,
    ;
    assert(is_sqrt(d * d, a));
    lemma_sqrt_unique(d * d, a);
    let mag = force_magnitude(pa, pb, ma, mb);
    assert(0 < GRAVITY_CONSTANT * ma * mb) by (nonlinear_arith)
        requires
            1 <= ma,
            1 <= mb,
    ;
    lemma_div_pos_is_pos(GRAVITY_CONSTANT * ma * mb, d * d);
    lemma_div_by_multiple(mag, a);
    assert(scaled_component(mag, d, a) == sgn(d) * mag);
    assert(scaled_component(mag, pb.y - pa.y, a) == 0);
}

/// The force never pushes a body away from its partner: each component of
/// the force has the sign of the matching component of the separation (or
/// rounds to zero).
pub proof fn lemma_force_direction(pa: Vec2, pb: Vec2, ma: int, mb: int)
    requires
        valid_mass(ma),
        valid_mass(mb),
    ensures
        gravity_force(pa, pb, ma, mb).0 * (pb.x - pa.x) >= 0,
        gravity_force(pa, pb, ma, mb).1 * (pb.y - pa.y) >= 0,
{
    let s2 = softened_dist_squared(pa, pb);
    lemma_softened_dist_positive(pa, pb);
    lemma_sqrt_exists(s2);
    let r = sqrt_val(s2);
    if r < 1 {
        assert((r + 1) * (r + 1) <= 1) by (nonlinear_arith)
            requires
                0 <= r,
                r + 1 <= 1,
        ;
        assert(false);
    }
    assert(0 < GRAVITY_CONSTANT * ma * mb) by (nonlinear_arith)
        requires
            1 <= ma,
            1 <= mb,
    ;
    lemma_div_pos_is_pos(GRAVITY_CONSTANT * ma * mb, s2);
    let mag = force_magnitude(pa, pb, ma, mb);
    assert forall|d: int| #[trigger] (scaled_component(mag, d, r) * d) >= 0 by {
        assert(0 <= mag * iabs(d)) by (nonlinear_arith)
            requires
                0 <= mag,
                0 <= iabs(d),
        ;
        lemma_div_pos_is_pos(mag * iabs(d), r);
        assert((sgn(d) * ((mag * iabs(d)) / r)) * d >= 0) by (nonlinear_arith)
            requires
                0 <= (mag * iabs(d)) / r,
                sgn(d) == if d > 0 {
                    1int
                } else if d < 0 {
                    -1int
                } else {
                    0int
                },
        ;
    }
}

/// The squared separation, once softened, is at least the floor.
pub proof fn lemma_softened_dist_positive(pa: Vec2, pb: Vec2)
    ensures
        softened_dist_squared(pa, pb) >= MINIMUM_DISTANCE_SQUARED,
{
    assert(0 <= (pb.x - pa.x) * (pb.x - pa.x)) by (nonlinear_arith);
    assert(0 <= (pb.y - pa.y) * (pb.y - pa.y)) by (nonlinear_arith);
}

/// The softening clamp keeps every force finite: however close two bodies
/// come, each force component stays within `G * ma * mb` over the floor,
/// itself at most `FORCE_COMPONENT_LIMIT` for admissible masses.
pub proof fn lemma_force_softening_bound(pa: Vec2, pb: Vec2, ma: int, mb: int)
    requires
        valid_mass(ma),
        valid_mass(mb),
    ensures
        iabs(gravity_force(pa, pb, ma, mb).0) <= (GRAVITY_CONSTANT * ma * mb) / (
        MINIMUM_DISTANCE_SQUARED as int),
        iabs(gravity_force(pa, pb, ma, mb).1) <= (GRAVITY_CONSTANT * ma * mb) / (
        MINIMUM_DISTANCE_SQUARED as int),
        (GRAVITY_CONSTANT * ma * mb) / (MINIMUM_DISTANCE_SQUARED as int)
            <= FORCE_COMPONENT_LIMIT,
{
    let s2 = softened_dist_squared(pa, pb);
    lemma_softened_dist_positive(pa, pb);
    lemma_sqrt_exists(s2);
    let r = sqrt_val(s2);
    if r < 1 {
        assert((r + 1) * (r + 1) <= 1) by (nonlinear_arith)
            requires
                0 <= r,
                r + 1 <= 1,
        ;
        assert(false);
    }
    let gm = GRAVITY_CONSTANT * ma * mb;
    assert(0 < gm && gm <= 6_674_302_000_000_000_000) by (nonlinear_arith)
        requires
            gm == GRAVITY_CONSTANT * ma * mb,
            GRAVITY_CONSTANT == 6_674_302,
            1 <= ma <= 1_000_000,
            1 <= mb <= 1_000_000,
    ;
    lemma_div_pos_is_pos(gm, s2);
    lemma_div_is_ordered_by_denominator(gm, 1_000_000, s2);
    lemma_div_is_ordered(gm, 6_674_302_000_000_000_000, 1_000_000);
    let mag = force_magnitude(pa, pb, ma, mb);
    let dx = pb.x - pa.x;
    let dy = pb.y - pa.y;
    assert(iabs(dx) * iabs(dx) <= s2 && iabs(dy) * iabs(dy) <= s2) by (nonlinear_arith)
        requires
            s2 >= dx * dx + dy * dy || s2 == MINIMUM_DISTANCE_SQUARED as int,
            s2 >= dx * dx + dy * dy || (dx * dx + dy * dy) < MINIMUM_DISTANCE_SQUARED as int,
            iabs(dx) == dx || iabs(dx) == -dx,
            iabs(dy) == dy || iabs(dy) == -dy,
    ;
    assert forall|d: int|
        iabs(d) * iabs(d) <= s2 implies iabs(#[trigger] scaled_component(mag, d, r)) <= (
    GRAVITY_CONSTANT * ma * mb) / (MINIMUM_DISTANCE_SQUARED as int) by {
        let a = iabs(d);
        if a > r {
            assert(a * a >= (r + 1) * (r + 1)) by (nonlinear_arith)
                requires
                    0 <= r,
                    r + 1 <= a,
            ;
            assert(false);
        }
        assert(mag * a <= mag * r) by (nonlinear_arith)
            requires
                0 <= mag,
                a <= r,
        ;
        lemma_div_is_ordered(mag * a, mag * r, r);
        lemma_div_by_multiple(mag, r);
        assert(0 <= mag * a) by (nonlinear_arith)
            requires
                0 <= mag,
                0 <= a,
        ;
        lemma_div_pos_is_pos(mag * a, r);
        assert(iabs(sgn(d) * ((mag * a) / r)) <= (mag * a) / r) by (nonlinear_arith)
            requires
                0 <= (mag * a) / r,
                sgn(d) == 1 || sgn(d) == -1 || sgn(d) == 0,
        ;
    }
}

/// Total momentum is conserved by one pair interaction, up to the rounding
/// of each impulse: the change in `ma * va + mb * vb` from applying a force
/// component `f` to the first body and `-f` to the second stays strictly
/// below `ma + mb`, and vanishes exactly when the masses are equal.
pub proof fn lemma_pair_momentum_conservation(ma: int, mb: int, f: int, dt: int)
    requires
        1 <= ma,
        1 <= mb,
        0 <= dt,
    ensures
        iabs(ma * velocity_delta(f, dt, ma) + mb * velocity_delta(-f, dt, mb)) < ma + mb,
        ma == mb ==> ma * velocity_delta(f, dt, ma) + mb * velocity_delta(-f, dt, mb) == 0,
{
    let x = iabs(f) * dt;
    assert(0 <= x) by (nonlinear_arith)
        requires
            x == iabs(f) * dt,
            0 <= iabs(f),
            0 <= dt,
    ;
    lemma_fundamental_div_mod(x, ma);
    lemma_mod_bound(x, ma);
    lemma_fundamental_div_mod(x, mb);
    lemma_mod_bound(x, mb);
    let qa = x / ma;
    let qb = x / mb;
    let ra = x % ma;
    let rb = x % mb;
    assert(iabs(-f) == iabs(f));
    let s = sgn(f);
    assert(sgn(-f) == -s);
    assert(velocity_delta(f, dt, ma) == s * qa);
    assert(velocity_delta(-f, dt, mb) == (-s) * qb);
    assert(ma * (s * qa) + mb * ((-s) * qb) == s * (rb - ra)) by (nonlinear_arith)
        requires
            x == ma * qa + ra,
            x == mb * qb + rb,
    ;
    assert(iabs(s * (rb - ra)) < ma + mb) by (nonlinear_arith)
        requires
            s == 1 || s == 0 || s == -1,
            0 <= ra < ma,
            0 <= rb < mb,
            iabs(s * (rb - ra)) == if s * (rb - ra) < 0 {
                -(s * (rb - ra))
            } else {
                s * (rb - ra)
            },
    ;
    if ma == mb {
        assert(ma * (s * qa) + mb * ((-s) * qb) == 0) by (nonlinear_arith)
            requires
                qa == qb,
                ma == mb,
        ;
    }
}

/// Bound on the impulse one pair interaction gives one body: the partner's
/// mass is capped, so `f * dt / m_self` is capped by `PAIR_IMPULSE_LIMIT`
/// whenever `f` respects the softened force bound for the two masses.
pub proof fn lemma_velocity_delta_bound(f: int, dt: int, m_self: int, m_other: int)
    requires
        valid_mass(m_self),
        valid_mass(m_other),
        0 <= dt <= DELTA_T_LIMIT,
        iabs(f) <= (GRAVITY_CONSTANT * m_self * m_other) / (MINIMUM_DISTANCE_SQUARED as int),
    ensures
        0 <= (iabs(f) * dt) / m_self <= PAIR_IMPULSE_LIMIT,
        iabs(velocity_delta(f, dt, m_self)) <= PAIR_IMPULSE_LIMIT,
{
    lemma_velocity_delta_abs(f, dt, m_self);
    let a = iabs(f);
    let min = MINIMUM_DISTANCE_SQUARED as int;
    let gm = GRAVITY_CONSTANT * m_self * m_other;
    let k = gm / min;
    assert(0 <= gm) by (nonlinear_arith)
        requires
            gm == GRAVITY_CONSTANT * m_self * m_other,
            GRAVITY_CONSTANT == 6_674_302,
            1 <= m_self,
            1 <= m_other,
    ;
    lemma_div_pos_is_pos(gm, min);
    lemma_mul_inequality(a, k, dt);
    lemma_div_is_ordered(a * dt, k * dt, m_self);
    let q2 = (k * dt) / m_self;
    lemma_fundamental_div_mod(gm, min);
    lemma_mod_bound(gm, min);
    assert(k * min <= gm) by (nonlinear_arith)
        requires
            gm == min * k + gm % min,
            0 <= gm % min,
    ;
    assert(0 <= k * dt) by (nonlinear_arith)
        requires
            0 <= k,
            0 <= dt,
    ;
    lemma_fundamental_div_mod(k * dt, m_self);
    lemma_mod_bound(k * dt, m_self);
    assert(q2 * m_self <= k * dt) by (nonlinear_arith)
        requires
            k * dt == m_self * q2 + (k * dt) % m_self,
            0 <= (k * dt) % m_self,
    ;
    lemma_div_pos_is_pos(k * dt, m_self);
    assert((q2 * min) * m_self <= (PAIR_IMPULSE_LIMIT * min) * m_self) by (nonlinear_arith)
        requires
            q2 * m_self <= k * dt,
            k * min <= gm,
            gm == GRAVITY_CONSTANT * m_self * m_other,
            1 <= m_self <= 1_000_000,
            1 <= m_other <= 1_000_000,
            0 <= dt <= 10_000,
            min == 1_000_000,
            0 <= k,
            0 <= q2,
            GRAVITY_CONSTANT == 6_674_302,
            PAIR_IMPULSE_LIMIT == 66_743_020_000,
    ;
    lemma_mul_inequality_converse(q2 * min, PAIR_IMPULSE_LIMIT * min, m_self);
    lemma_mul_inequality_converse(q2, PAIR_IMPULSE_LIMIT as int, min);
}

/// The magnitude of a velocity change is the magnitude of `f * dt / m`.
pub proof fn lemma_velocity_delta_abs(f: int, dt: int, m: int)
    requires
        1 <= m,
        0 <= dt,
    ensures
        iabs(velocity_delta(f, dt, m)) == (iabs(f) * dt) / m,
        0 <= (iabs(f) * dt) / m,
{
    let a = iabs(f);
    assert(0 <= a * dt) by (nonlinear_arith)
        requires
            0 <= a,
            0 <= dt,
    ;
    lemma_div_pos_is_pos(a * dt, m);
    if f == 0 {
        lemma_div_basics(m);
        assert((0 * dt) == 0);
    }
}

/// One velocity component's change: `f * dt / m` rounded toward zero.
pub(crate) fn impulse_component(f: i64, delta_t: i64, m: i64) -> (dv: i64)
    requires
        1 <= m,
        0 <= delta_t,
        (iabs(f as int) * delta_t) / (m as int) <= i64::MAX,
    ensures
        dv as int == velocity_delta(f as int, delta_t as int, m as int),
{
    let f_abs: u128 = if f < 0 {
        (-(f as i128)) as u128
    } else {
        f as u128
    };
    assert(f_abs as int == iabs(f as int));
    assert((f_abs as int) * (delta_t as int) < u128::MAX) by (nonlinear_arith)
        requires
            0 <= f_abs as int <= 0x8000_0000_0000_0000,
            0 <= delta_t as int <= 0x7FFF_FFFF_FFFF_FFFF,
    ;
    let dv_mag: u128 = f_abs * (delta_t as u128) / (m as u128);
    proof {
        lemma_div_pos_is_pos((f_abs as int) * (delta_t as int), m as int);
    }
    assert(dv_mag as int == (iabs(f as int) * delta_t) / (m as int));
    if f < 0 {
        proof {
            lemma_velocity_delta_abs(f as int, delta_t as int, m as int);
        }
        -(dv_mag as i64)
    } else {
        if f == 0 {
            proof {
                lemma_div_basics(m as int);
                assert((0 * delta_t as int) == 0);
            }
        }
        dv_mag as i64
    }
}

} // verus!
