use vstd::prelude::*;

pub mod body;
pub mod math;

use crate::body::{
    gravity_force, impulse_component, lemma_force_antisymmetric, lemma_force_softening_bound,
    lemma_velocity_delta_abs, lemma_velocity_delta_bound, velocity_delta, Body, Vec2,
};
use crate::math::iabs;
use vstd::arithmetic::div_mod::lemma_div_is_ordered;
use vstd::arithmetic::mul::lemma_mul_inequality;

verus! {

/// Gravitational constant, an illustrative value tuned for visible motion,
/// stored in milli-units (the physical value 6.6743015e3 times 1000).
pub const GRAVITY_CONSTANT: i64 = 6_674_302;

/// Number of stored units per simulation meter (and per kilogram, per
/// second): all state is kept in thousandths.
pub const SCALE: i64 = 1000;

/// Softening floor: the squared separation (in milli-meters squared) is
/// never taken smaller than this before it divides the force, so the force
/// stays finite at near-zero range.
pub const MINIMUM_DISTANCE_SQUARED: i64 = 1_000_000;

/// Machine limit on the magnitude of each stored position component.
pub const POSITION_LIMIT: i64 = 1_000_000_000_000;

/// Machine limit on the magnitude of each stored velocity component when a
/// frame begins.
pub const VELOCITY_LIMIT: i64 = 1_000_000_000_000;

/// Machine limit on a body's mass (in milli-kilograms).
pub const MASS_LIMIT: i64 = 1_000_000;

/// Machine limit on one frame's elapsed time (in milli-seconds).
pub const DELTA_T_LIMIT: i64 = 10_000;

/// Machine limit on how many bodies one world holds.
pub const MAX_BODIES: usize = 1000;

/// Largest magnitude a force component can take: the softening floor caps
/// the magnitude at `G * m1 * m2 / MINIMUM_DISTANCE_SQUARED`, maximized over
/// admissible masses.
/// (`MASS_LIMIT` and the floor cancel to one factor of `MASS_LIMIT`.)
pub const FORCE_COMPONENT_LIMIT: i64 = GRAVITY_CONSTANT * MASS_LIMIT;

/// Largest velocity change one pair interaction can give one body: the
/// acceleration cap `G * m_other / MINIMUM_DISTANCE_SQUARED` times the
/// longest frame, maximized over admissible masses.
/// (`MASS_LIMIT` and the floor cancel to a factor of `DELTA_T_LIMIT`.)
pub const PAIR_IMPULSE_LIMIT: i64 = GRAVITY_CONSTANT * DELTA_T_LIMIT;

/// Largest velocity component magnitude right after a velocity pass: the
/// starting limit plus one pair impulse for every slot of the pair sweep
/// (`MAX_BODIES` squared of them).
pub const STEPPED_VELOCITY_LIMIT: i64 = VELOCITY_LIMIT + 1_000_000 * PAIR_IMPULSE_LIMIT;

/// Every body in the sequence has an admissible mass.
pub open spec fn all_valid(s: Seq<Body>) -> bool {
    forall|k: int| 0 <= k < s.len() ==> (#[trigger] s[k]).valid()
}

/// Every body's position components are within the machine limit.
pub open spec fn all_positions_in_range(s: Seq<Body>) -> bool {
    forall|k: int| 0 <= k < s.len() ==> (#[trigger] s[k]).position_in_range()
}

/// Every body's velocity components are within `limit`.
pub open spec fn all_velocities_within(s: Seq<Body>, limit: int) -> bool {
    forall|k: int| 0 <= k < s.len() ==> (#[trigger] s[k]).velocity_within(limit)
}

/// The velocity change body `k` receives when the sweep handles the pair
/// `(i, j)` of the initial sequence `s`: the pair's force scaled into an
/// impulse for body `i`, its exact negation scaled for body `j`, nothing
/// for anyone else. Forces read positions and masses only, which the
/// velocity pass never changes, so `s` is the sequence at the start of the
/// pass.
pub open spec fn pair_delta(s: Seq<Body>, dt: int, i: int, j: int, k: int) -> (int, int) {
    let f = gravity_force(s[i].position, s[j].position, s[i].mass as int, s[j].mass as int);
    if k == i {
        (velocity_delta(f.0, dt, s[i].mass as int), velocity_delta(f.1, dt, s[i].mass as int))
    } else if k == j {
        (velocity_delta(-f.0, dt, s[j].mass as int), velocity_delta(-f.1, dt, s[j].mass as int))
    } else {
        (0, 0)
    }
}

/// Accumulated velocity change of body `k` from the pairs `(i, i+1)` up to
/// `(i, j)` exclusive: one row of the sweep, partially done.
pub open spec fn inner_delta(s: Seq<Body>, dt: int, i: int, j: int, k: int) -> (int, int)
    decreases j - i,
{
    if j <= i + 1 {
        (0, 0)
    } else {
        let p = inner_delta(s, dt, i, j - 1, k);
        let q = pair_delta(s, dt, i, j - 1, k);
        (p.0 + q.0, p.1 + q.1)
    }
}

/// Accumulated velocity change of body `k` from all rows of the sweep
/// before row `i`: rows `0` to `i` exclusive, each row taken in full.
pub open spec fn outer_delta(s: Seq<Body>, dt: int, i: int, k: int) -> (int, int)
    decreases i,
{
    if i <= 0 {
        (0, 0)
    } else {
        let p = outer_delta(s, dt, i - 1, k);
        let q = inner_delta(s, dt, i - 1, s.len() as int, k);
        (p.0 + q.0, p.1 + q.1)
    }
}

/// The net velocity change of body `k` over one full velocity pass.
pub open spec fn net_delta(s: Seq<Body>, dt: int, k: int) -> (int, int) {
    outer_delta(s, dt, s.len() as int, k)
}

/// The impulse body `k` receives from partner `j` alone: the partner's
/// force on `k`, scaled by the frame time and `k`'s mass.
pub open spec fn partner_delta(s: Seq<Body>, dt: int, k: int, j: int) -> (int, int) {
    let f = gravity_force(s[k].position, s[j].position, s[k].mass as int, s[j].mass as int);
    (velocity_delta(f.0, dt, s[k].mass as int), velocity_delta(f.1, dt, s[k].mass as int))
}

/// Sum of body `k`'s per-partner impulses over the partners `lo` to `hi`
/// exclusive, skipping `k` itself, taken in index order.
pub open spec fn partner_sum(s: Seq<Body>, dt: int, k: int, lo: int, hi: int) -> (int, int)
    decreases hi - lo,
{
    if hi <= lo {
        (0, 0)
    } else {
        let p = partner_sum(s, dt, k, lo, hi - 1);
        if hi - 1 == k {
            p
        } else {
            let q = partner_delta(s, dt, k, hi - 1);
            (p.0 + q.0, p.1 + q.1)
        }
    }
}

/// A partner sum splits at any midpoint.
proof fn lemma_partner_sum_split(s: Seq<Body>, dt: int, k: int, lo: int, mid: int, hi: int)
    requires
        lo <= mid <= hi,
    ensures
        partner_sum(s, dt, k, lo, hi) == (
            partner_sum(s, dt, k, lo, mid).0 + partner_sum(s, dt, k, mid, hi).0,
            partner_sum(s, dt, k, lo, mid).1 + partner_sum(s, dt, k, mid, hi).1,
        ),
    decreases hi - mid,
{
    if hi <= mid {
        assert(partner_sum(s, dt, k, mid, hi) == (0int, 0int));
    } else {
        lemma_partner_sum_split(s, dt, k, lo, mid, hi - 1);
    }
}

/// A row of the sweep whose first body is not `k` hands `k` exactly one
/// pair's impulse — the pair `(i, k)` — or nothing at all.
proof fn lemma_inner_row_other(s: Seq<Body>, dt: int, i: int, j: int, k: int)
    requires
        0 <= i,
        i + 1 <= j,
        i != k,
    ensures
        i < k < j ==> inner_delta(s, dt, i, j, k) == pair_delta(s, dt, i, k, k),
        !(i < k < j) ==> inner_delta(s, dt, i, j, k) == ((0int, 0int)),
    decreases j,
{
    if j == i + 1 {
    } else {
        lemma_inner_row_other(s, dt, i, j - 1, k);
    }
}

/// The row of the sweep whose first body is `k` hands `k` its per-partner
/// impulses for every later partner, in index order.
proof fn lemma_inner_row_self(s: Seq<Body>, dt: int, j: int, k: int)
    requires
        0 <= k,
        k + 1 <= j,
    ensures
        inner_delta(s, dt, k, j, k) == partner_sum(s, dt, k, k + 1, j),
    decreases j,
{
    if j == k + 1 {
    } else {
        lemma_inner_row_self(s, dt, j - 1, k);
    }
}

/// The impulse the pair `(i, k)` hands its second body `k` is exactly
/// `k`'s per-partner impulse for `i`: Newton's third law turns the negated
/// force around.
proof fn lemma_pair_delta_second(s: Seq<Body>, dt: int, i: int, k: int)
    requires
        i != k,
    ensures
        pair_delta(s, dt, i, k, k) == partner_delta(s, dt, k, i),
{
    lemma_force_antisymmetric(
        s[i].position,
        s[k].position,
        s[i].mass as int,
        s[k].mass as int,
    );
}

/// Closed form of the sweep's first `i` rows, as seen by body `k`.
proof fn lemma_outer_partner(s: Seq<Body>, dt: int, i: int, k: int)
    requires
        0 <= i <= s.len(),
        0 <= k < s.len(),
    ensures
        i <= k ==> outer_delta(s, dt, i, k) == partner_sum(s, dt, k, 0, i),
        i > k ==> outer_delta(s, dt, i, k) == (
            partner_sum(s, dt, k, 0, k).0 + partner_sum(s, dt, k, k + 1, s.len() as int).0,
            partner_sum(s, dt, k, 0, k).1 + partner_sum(s, dt, k, k + 1, s.len() as int).1,
        ),
    decreases i,
{
    let n = s.len() as int;
    if i == 0 {
    } else {
        lemma_outer_partner(s, dt, i - 1, k);
        if i - 1 < k {
            lemma_inner_row_other(s, dt, i - 1, n, k);
            lemma_pair_delta_second(s, dt, i - 1, k);
        } else if i - 1 == k {
            lemma_inner_row_self(s, dt, n, k);
        } else {
            lemma_inner_row_other(s, dt, i - 1, n, k);
        }
    }
}

/// Order independence of the pair sweep: the net velocity change body `k`
/// receives over one velocity pass equals the plain sum of its per-partner
/// impulses, one partner at a time in index order. Which traversal order
/// the sweep uses to visit the pairs contributes nothing; each partner's
/// impulse is counted exactly once, whether the pair handed it to `k` as
/// its first or its second member.
pub proof fn lemma_net_delta_order_independent(s: Seq<Body>, dt: int, k: int)
    requires
        0 <= k < s.len(),
    ensures
        net_delta(s, dt, k) == partner_sum(s, dt, k, 0, s.len() as int),
{
    let n = s.len() as int;
    lemma_outer_partner(s, dt, n, k);
    lemma_partner_sum_split(s, dt, k, 0, k, n);
    lemma_partner_sum_split(s, dt, k, k, k + 1, n);
    assert(partner_sum(s, dt, k, k, k) == (0int, 0int));
    assert(partner_sum(s, dt, k, k, k + 1) == (0int, 0int));
}

/// How far a position component moves in one frame: `v * dt / SCALE`,
/// rounded toward zero (`dt` counts milli-seconds, so the product is scaled
/// back into milli-meters).
pub open spec fn position_shift(v: int, dt: int) -> int {
    velocity_delta(v, dt, SCALE as int)
}

/// The simulation state: the ordered collection of bodies. Order is
/// insertion order and has no physical meaning.
pub struct State {
    pub bodies: Vec<Body>,
}

impl State {
    /// All of `step`'s machine limits at once: how large the world, the
    /// state and the frame time may be for one frame to be computed.
    pub open spec fn can_step(self, delta_t: int) -> bool {
        self.bodies@.len() <= MAX_BODIES && all_valid(self.bodies@) && all_positions_in_range(
            self.bodies@,
        ) && all_velocities_within(self.bodies@, VELOCITY_LIMIT as int) && 0 <= delta_t
            <= DELTA_T_LIMIT
    }

    /// Builds a simulation over the given bodies. Whoever builds the list
    /// (typically with random placement) must have given every body a
    /// positive mass; the physics never changes a mass afterwards.
    pub fn new(bodies: Vec<Body>) -> (state: State)
        requires
            all_valid(bodies@),
        ensures
            state.bodies@ == bodies@,
    {
        State { bodies }
    }

    /// How many bodies the simulation holds.
    pub fn body_count(&self) -> (n: usize)
        ensures
            n == self.bodies@.len(),
    {
        self.bodies.len()
    }

    /// The velocity pass: for every unordered pair, computes the pair's
    /// force once and applies it to the first body and its exact negation
    /// to the second. Positions and masses are untouched; every new
    /// velocity is the old one plus the net of all the body's pair
    /// impulses, each computed from the frozen positions.
    pub fn update_velocities(&mut self, delta_t: i64)
        requires
            old(self).can_step(delta_t as int),
        ensures
            final(self).bodies@.len() == old(self).bodies@.len(),
            forall|k: int|
                0 <= k < old(self).bodies@.len() ==> (#[trigger] final(self).bodies@[k]).position
                    == old(self).bodies@[k].position && final(self).bodies@[k].mass == old(self).bodies@[k].mass && final(self).bodies@[k].id == old(self).bodies@[k].id,
            forall|k: int|
                0 <= k < old(self).bodies@.len() ==> (#[trigger] final(self).bodies@[k]).velocity.x as int == old(self).bodies@[k].velocity.x + net_delta(
                    old(self).bodies@,
                    delta_t as int,
                    k,
                ).0 && final(self).bodies@[k].velocity.y as int == old(self).bodies@[k].velocity.y
                    + net_delta(old(self).bodies@, delta_t as int, k).1,
            all_valid(final(self).bodies@),
            all_positions_in_range(final(self).bodies@),
            all_velocities_within(final(self).bodies@, STEPPED_VELOCITY_LIMIT as int),
    {
        let ghost s0 = self.bodies@;
        let n = self.bodies.len();
        let mut i: usize = 0;
        while i < n
            invariant
                self.bodies@.len() == n,
                s0.len() == n,
                n <= MAX_BODIES,
                i <= n,
                0 <= delta_t <= DELTA_T_LIMIT,
                all_valid(s0),
                all_positions_in_range(s0),
                all_velocities_within(s0, VELOCITY_LIMIT as int),
                forall|k: int|
                    0 <= k < n ==> (#[trigger] self.bodies@[k]).position == s0[k].position
                        && self.bodies@[k].mass == s0[k].mass && self.bodies@[k].id == s0[k].id,
                forall|k: int|
                    0 <= k < n ==> (#[trigger] self.bodies@[k]).velocity.x as int
                        == s0[k].velocity.x + outer_delta(s0, delta_t as int, i as int, k).0
                        && self.bodies@[k].velocity.y as int == s0[k].velocity.y + outer_delta(
                        s0,
                        delta_t as int,
                        i as int,
                        k,
                    ).1,
                forall|k: int|
                    0 <= k < n ==> iabs((#[trigger] self.bodies@[k]).velocity.x as int)
                        <= VELOCITY_LIMIT + ((i as int) * (n as int)) * PAIR_IMPULSE_LIMIT && iabs(
                        self.bodies@[k].velocity.y as int,
                    ) <= VELOCITY_LIMIT + ((i as int) * (n as int)) * PAIR_IMPULSE_LIMIT,
            decreases n - i,
        {
            let mut j: usize = i + 1;
            while j < n
                invariant
                    self.bodies@.len() == n,
                    s0.len() == n,
                    n <= MAX_BODIES,
                    i < n,
                    i + 1 <= j <= n,
                    0 <= delta_t <= DELTA_T_LIMIT,
                    all_valid(s0),
                    all_positions_in_range(s0),
                    all_velocities_within(s0, VELOCITY_LIMIT as int),
                    forall|k: int|
                        0 <= k < n ==> (#[trigger] self.bodies@[k]).position == s0[k].position
                            && self.bodies@[k].mass == s0[k].mass && self.bodies@[k].id
                            == s0[k].id,
                    forall|k: int|
                        0 <= k < n ==> (#[trigger] self.bodies@[k]).velocity.x as int
                            == s0[k].velocity.x + outer_delta(s0, delta_t as int, i as int, k).0
                            + inner_delta(s0, delta_t as int, i as int, j as int, k).0
                            && self.bodies@[k].velocity.y as int == s0[k].velocity.y
                            + outer_delta(s0, delta_t as int, i as int, k).1 + inner_delta(
                            s0,
                            delta_t as int,
                            i as int,
                            j as int,
                            k,
                        ).1,
                    forall|k: int|
                        0 <= k < n ==> iabs((#[trigger] self.bodies@[k]).velocity.x as int)
                            <= VELOCITY_LIMIT + ((i as int) * (n as int) + (j as int))
                            * PAIR_IMPULSE_LIMIT && iabs(self.bodies@[k].velocity.y as int)
                            <= VELOCITY_LIMIT + ((i as int) * (n as int) + (j as int))
                            * PAIR_IMPULSE_LIMIT,
                decreases n - j,
            {
                let ghost dt = delta_t as int;
                let ghost mi = s0[i as int].mass as int;
                let ghost mj = s0[j as int].mass as int;
                let ghost f = gravity_force(
                    s0[i as int].position,
                    s0[j as int].position,
                    mi,
                    mj,
                );
                proof {
                    assert(s0[i as int].valid() && s0[j as int].valid());
                    assert(s0[i as int].position_in_range() && s0[j as int].position_in_range());
                    assert((i as int) * (n as int) + (j as int) <= 1_000_000) by (nonlinear_arith)
                        requires
                            0 <= i as int,
                            i as int + 1 <= n as int,
                            j as int <= n as int,
                            n as int <= 1000,
                    ;
                    lemma_mul_inequality(
                        (i as int) * (n as int) + (j as int),
                        1_000_000,
                        PAIR_IMPULSE_LIMIT as int,
                    );
                }
                let mut body_i = self.bodies[i];
                let body_j = self.bodies[j];
                let gravity = body_i.calculate_force(&body_j);
                proof {
                    assert(gravity.x as int == f.0 && gravity.y as int == f.1);
                    lemma_velocity_delta_bound(gravity.x as int, dt, mi, mj);
                    lemma_velocity_delta_bound(gravity.y as int, dt, mi, mj);
                    assert(GRAVITY_CONSTANT * mj * mi == GRAVITY_CONSTANT * mi * mj)
                        by (nonlinear_arith);
                    lemma_velocity_delta_bound(-(gravity.x as int), dt, mj, mi);
                    lemma_velocity_delta_bound(-(gravity.y as int), dt, mj, mi);
                    lemma_force_softening_bound(
                        s0[i as int].position,
                        s0[j as int].position,
                        mi,
                        mj,
                    );
                }
                body_i.apply_force(gravity, delta_t);
                self.bodies.set(i, body_i);
                let negated = Vec2::new(-gravity.x, -gravity.y);
                let mut body_j_new = body_j;
                body_j_new.apply_force(negated, delta_t);
                self.bodies.set(j, body_j_new);
                proof {
                    let jj = j as int;
                    assert forall|k: int| 0 <= k < n implies inner_delta(s0, dt, i as int, jj + 1, k)
                        == (
                        inner_delta(s0, dt, i as int, jj, k).0 + pair_delta(s0, dt, i as int, jj, k).0,
                        inner_delta(s0, dt, i as int, jj, k).1 + pair_delta(s0, dt, i as int, jj, k).1,
                    ) by {
                        assert(jj + 1 > i as int + 1);
                    }
                }
                j = j + 1;
            }
            proof {
                let ii = i as int;
                let nn = n as int;
                assert forall|k: int| 0 <= k < n implies outer_delta(s0, delta_t as int, ii + 1, k)
                    == (
                    outer_delta(s0, delta_t as int, ii, k).0 + inner_delta(
                        s0,
                        delta_t as int,
                        ii,
                        nn,
                        k,
                    ).0,
                    outer_delta(s0, delta_t as int, ii, k).1 + inner_delta(
                        s0,
                        delta_t as int,
                        ii,
                        nn,
                        k,
                    ).1,
                ) by {
                    assert(ii + 1 > 0);
                }
                assert((ii + 1) * nn == ii * nn + nn) by (nonlinear_arith);
            }
            i = i + 1;
        }
        proof {
            assert((n as int) * (n as int) <= 1_000_000) by (nonlinear_arith)
                requires
                    0 <= n as int <= 1000,
            ;
            lemma_mul_inequality((n as int) * (n as int), 1_000_000, PAIR_IMPULSE_LIMIT as int);
        }
    }

    /// The position pass: every body moves by its current velocity times
    /// the frame time. Velocities, masses and identities are untouched.
    pub fn update_positions(&mut self, delta_t: i64)
        requires
            0 <= delta_t <= DELTA_T_LIMIT,
            all_positions_in_range(old(self).bodies@),
            all_velocities_within(old(self).bodies@, STEPPED_VELOCITY_LIMIT as int),
        ensures
            final(self).bodies@.len() == old(self).bodies@.len(),
            forall|k: int|
                0 <= k < old(self).bodies@.len() ==> (#[trigger] final(self).bodies@[k]).velocity
                    == old(self).bodies@[k].velocity && final(self).bodies@[k].mass == old(self).bodies@[k].mass && final(self).bodies@[k].id == old(self).bodies@[k].id,
            forall|k: int|
                0 <= k < old(self).bodies@.len() ==> (#[trigger] final(self).bodies@[k]).position.x as int == old(self).bodies@[k].position.x
                    + position_shift(old(self).bodies@[k].velocity.x as int, delta_t as int)
                    && final(self).bodies@[k].position.y as int == old(self).bodies@[k].position.y
                    + position_shift(old(self).bodies@[k].velocity.y as int, delta_t as int),
    {
        let ghost s0 = self.bodies@;
        let n = self.bodies.len();
        let mut idx: usize = 0;
        while idx < n
            invariant
                self.bodies@.len() == n,
                s0.len() == n,
                idx <= n,
                0 <= delta_t <= DELTA_T_LIMIT,
                all_positions_in_range(s0),
                all_velocities_within(s0, STEPPED_VELOCITY_LIMIT as int),
                forall|k: int| idx <= k < n ==> (#[trigger] self.bodies@[k]) == s0[k],
                forall|k: int|
                    0 <= k < idx ==> (#[trigger] self.bodies@[k]).velocity == s0[k].velocity
                        && self.bodies@[k].mass == s0[k].mass && self.bodies@[k].id == s0[k].id,
                forall|k: int|
                    0 <= k < idx ==> (#[trigger] self.bodies@[k]).position.x as int
                        == s0[k].position.x + position_shift(
                        s0[k].velocity.x as int,
                        delta_t as int,
                    ) && self.bodies@[k].position.y as int == s0[k].position.y + position_shift(
                        s0[k].velocity.y as int,
                        delta_t as int,
                    ),
            decreases n - idx,
        {
            let body = self.bodies[idx];
            proof {
                assert(s0[idx as int].position_in_range());
                assert(s0[idx as int].velocity_within(STEPPED_VELOCITY_LIMIT as int));
                lemma_shift_bounded(body.velocity.x as int, delta_t as int);
                lemma_shift_bounded(body.velocity.y as int, delta_t as int);
            }
            let sx = impulse_component(body.velocity.x, delta_t, SCALE);
            let sy = impulse_component(body.velocity.y, delta_t, SCALE);
            let mut moved = body;
            moved.position = Vec2 { x: body.position.x + sx, y: body.position.y + sy };
            self.bodies.set(idx, moved);
            idx = idx + 1;
        }
    }

    /// One frame: the velocity pass over all pairs, then the position
    /// pass, using the velocities the first pass just produced
    /// (semi-implicit Euler). Masses and identities never change.
    pub fn step(&mut self, delta_t: i64)
        requires
            old(self).can_step(delta_t as int),
        ensures
            final(self).bodies@.len() == old(self).bodies@.len(),
            forall|k: int|
                0 <= k < old(self).bodies@.len() ==> (#[trigger] final(self).bodies@[k]).mass
                    == old(self).bodies@[k].mass && final(self).bodies@[k].id == old(self).bodies@[k].id,
            forall|k: int|
                0 <= k < old(self).bodies@.len() ==> (#[trigger] final(self).bodies@[k]).velocity.x as int == old(self).bodies@[k].velocity.x + net_delta(
                    old(self).bodies@,
                    delta_t as int,
                    k,
                ).0 && final(self).bodies@[k].velocity.y as int == old(self).bodies@[k].velocity.y
                    + net_delta(old(self).bodies@, delta_t as int, k).1,
            forall|k: int|
                0 <= k < old(self).bodies@.len() ==> (#[trigger] final(self).bodies@[k]).position.x as int == old(self).bodies@[k].position.x
                    + position_shift(
                    old(self).bodies@[k].velocity.x + net_delta(
                        old(self).bodies@,
                        delta_t as int,
                        k,
                    ).0,
                    delta_t as int,
                ) && final(self).bodies@[k].position.y as int == old(self).bodies@[k].position.y
                    + position_shift(
                    old(self).bodies@[k].velocity.y + net_delta(
                        old(self).bodies@,
                        delta_t as int,
                        k,
                    ).1,
                    delta_t as int,
                ),
    {
        let ghost s0 = self.bodies@;
        self.update_velocities(delta_t);
        proof {
            assert forall|k: int| 0 <= k < self.bodies@.len() implies (#[trigger] self.bodies@[k]).position_in_range() by {
                assert(s0[k].position_in_range());
            }
        }
        self.update_positions(delta_t);
    }
}

/// A position shift computed from an admissible velocity and frame time is
/// small enough to add to an in-range position component.
pub proof fn lemma_shift_bounded(v: int, dt: int)
    requires
        iabs(v) <= STEPPED_VELOCITY_LIMIT,
        0 <= dt <= DELTA_T_LIMIT,
    ensures
        0 <= (iabs(v) * dt) / (SCALE as int) <= 667_440_200_000_000_000,
        iabs(position_shift(v, dt)) <= 667_440_200_000_000_000,
{
    lemma_velocity_delta_abs(v, dt, SCALE as int);
    lemma_mul_inequality(iabs(v), STEPPED_VELOCITY_LIMIT as int, dt);
    assert((STEPPED_VELOCITY_LIMIT as int) * dt <= (STEPPED_VELOCITY_LIMIT as int) * (
    DELTA_T_LIMIT as int)) by (nonlinear_arith)
        requires
            0 <= dt <= DELTA_T_LIMIT as int,
            0 <= STEPPED_VELOCITY_LIMIT as int,
    ;
    lemma_div_is_ordered(
        iabs(v) * dt,
        (STEPPED_VELOCITY_LIMIT as int) * (DELTA_T_LIMIT as int),
        SCALE as int,
    );
}

} // verus!
