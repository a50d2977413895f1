//! The simulation core: bodies, the gravitational constant table, pairwise
//! force computation, integration, and spawning.

pub mod collisions;

use crate::components::{Acceleration, Force, Mass, Radius, Time, V3, Vec3, Velocity};
use crate::planet::collisions::{
    find_largest, has_largest, is_member, CollisionGroups, GroupModel, InfoModel, PlanetInfo,
};
use crate::math::{
    abs1, cbrt_floor, div_tz, div_tz_i128, div_tz_i64, icbrt_u64, isqrt_u64,
    lemma_cbrt_floor_bounds, lemma_div_tz_bounds, lemma_div_tz_neg, lemma_sqrt_floor_bounds,
    lemma_sqrt_floor_dominates, sqrt_floor,
};
use vstd::arithmetic::mul::{lemma_mul_inequality, lemma_mul_strictly_positive};
use vstd::pervasive::VecAdditionalExecFns;
use vstd::prelude::*;

verus! {

/// Mass of the sun spawned at the origin.
pub const SUN_MASS: i64 = 1000;

/// Most bodies a simulation may hold.
pub const MAX_BODIES: usize = 1024;

/// Bound on the total mass in a simulation.
pub const MASS_LIMIT: i64 = 8192;

/// Bound on the gravitational constant.
pub const G_LIMIT: i64 = 64;

/// Bound on the softening distance.
pub const EPS_LIMIT: i64 = 0x10_0000;

/// Bound on one timestep.
pub const DT_LIMIT: i64 = 8;

/// Bound on position components at the start of a step.
pub const POS_LIMIT: i64 = 0x400_0000;

/// Bound on velocity components at the start of a step.
pub const VEL_LIMIT: i64 = 0x4_0000;

/// Bound on net-force components at the start of a step.
pub const FORCE_LIMIT: i64 = 0x20_0000;

/// Bound on position components during the pairwise scan.
pub const POS_SCAN_LIMIT: i64 = 0x2000_0000;

/// Bound on velocity components during the pairwise scan.
pub const VEL_SCAN_LIMIT: i64 = 0x200_0000;

/// Process-wide tunable constants, read by the force pass every step and
/// written only by user-facing configuration.
#[derive(Clone, Copy, Debug, PartialEq, Eq, Structural)]
pub struct Constants {
    /// Effective mass of the user-controlled attractor point.
    pub mouse_spring_strength: i64,
    /// The gravitational constant G.
    pub grav_const: i64,
    /// Softening distance: force saturates below this separation instead of
    /// diverging.
    pub min_attraction_dist: i64,
}

impl Constants {
    /// Ranges under which every step of the engine is free of overflow.
    pub open spec fn wf(self) -> bool {
        &&& 0 <= self.grav_const <= G_LIMIT
        &&& 0 <= self.min_attraction_dist <= EPS_LIMIT
        &&& 0 <= self.mouse_spring_strength <= MASS_LIMIT
    }
}

impl Constants {
    /// Apply user edits: each value is clamped into the range the engine's
    /// overflow-freedom proofs cover.
    pub fn clamped(grav_const: i64, min_attraction_dist: i64, mouse_spring_strength: i64) -> (r:
        Constants)
        ensures
            r.wf(),
            r.grav_const == if grav_const < 0 {
                0
            } else if grav_const > G_LIMIT {
                G_LIMIT as int
            } else {
                grav_const as int
            },
            r.min_attraction_dist == if min_attraction_dist < 0 {
                0
            } else if min_attraction_dist > EPS_LIMIT {
                EPS_LIMIT as int
            } else {
                min_attraction_dist as int
            },
            r.mouse_spring_strength == if mouse_spring_strength < 0 {
                0
            } else if mouse_spring_strength > MASS_LIMIT {
                MASS_LIMIT as int
            } else {
                mouse_spring_strength as int
            },
    {
        let g = if grav_const < 0 {
            0
        } else if grav_const > G_LIMIT {
            G_LIMIT
        } else {
            grav_const
        };
        let e = if min_attraction_dist < 0 {
            0
        } else if min_attraction_dist > EPS_LIMIT {
            EPS_LIMIT
        } else {
            min_attraction_dist
        };
        let m = if mouse_spring_strength < 0 {
            0
        } else if mouse_spring_strength > MASS_LIMIT {
            MASS_LIMIT
        } else {
            mouse_spring_strength
        };
        Constants { mouse_spring_strength: m, grav_const: g, min_attraction_dist: e }
    }
}

impl Default for Constants {
    fn default() -> (r: Constants)
        ensures
            r.mouse_spring_strength == 100,
            r.grav_const == 20,
            r.min_attraction_dist == 1,
            r.wf(),
    {
        Constants { mouse_spring_strength: 100, grav_const: 20, min_attraction_dist: 1 }
    }
}

/// Mathematical model of one body.
pub ghost struct BodyModel {
    pub id: int,
    pub position: V3,
    pub velocity: V3,
    pub mass: int,
    pub radius: int,
    pub net_force: V3,
}

/// One simulated body. Its `radius` is never set independently: it always
/// equals `radius_from_mass(mass)`.
#[derive(Clone, Copy, Debug)]
pub struct Body {
    /// Stable identity, unique for the body's lifetime.
    pub id: u64,
    pub position: Vec3,
    pub velocity: Velocity,
    pub mass: Mass,
    pub radius: Radius,
    /// Transient accumulator: zero at the start and end of every integration.
    pub net_force: Force,
}

impl View for Body {
    type V = BodyModel;

    open spec fn view(&self) -> BodyModel {
        BodyModel {
            id: self.id as int,
            position: self.position@,
            velocity: self.velocity@,
            mass: self.mass@,
            radius: self.radius@,
            net_force: self.net_force@,
        }
    }
}

/// The radius a body of mass `m` must carry: `3 * floor(cbrt(m))`.
pub open spec fn radius_of_mass(m: int) -> int {
    3 * cbrt_floor(m)
}

/// The mass a sphere of radius `r` stands for: `(r / 3)^3`.
pub open spec fn mass_of_radius(r: int) -> int {
    let q = r / 3;
    q * q * q
}

/// A body is well formed when its mass is positive and bounded and its radius
/// is exactly the one its mass dictates.
pub open spec fn wf_body(b: BodyModel) -> bool {
    &&& 1 <= b.mass <= MASS_LIMIT
    &&& b.radius == radius_of_mass(b.mass)
}

/// Model of a body sequence.
pub open spec fn bodies_model(s: Seq<Body>) -> Seq<BodyModel> {
    s.map_values(|b: Body| b@)
}

/// Radius of a body from its mass.
pub fn radius_from_mass(mass: Mass) -> (r: Radius)
    requires
        0 <= mass@ < 0x8000_0000_0000_0000,
    ensures
        r@ == radius_of_mass(mass@),
        mass@ >= 1 ==> r@ >= 3,
{
    let c = icbrt_u64(mass.0 as u64);
    proof {
        lemma_cbrt_floor_bounds(mass@);
        if mass@ >= 1 {
            assert(cbrt_floor(mass@) >= 1) by {
                let c0 = cbrt_floor(mass@);
                if c0 == 0 {
                    assert(mass@ < (c0 + 1) * (c0 + 1) * (c0 + 1));
                    assert(mass@ < 1) by (nonlinear_arith)
                        requires
                            c0 == 0,
                            mass@ < (c0 + 1) * (c0 + 1) * (c0 + 1),
                    ;
                }
            }
        }
        assert(cbrt_floor(mass@) < 0x20_0000int) by {
            if cbrt_floor(mass@) >= 0x20_0000 {
                let c0 = cbrt_floor(mass@);
                assert(c0 * c0 * c0 >= 0x20_0000int * 0x20_0000int * 0x20_0000int)
                    by (nonlinear_arith)
                    requires
                        c0 >= 0x20_0000int,
                ;
            }
        }
    }
    Radius(3 * (c as i64))
}

/// Mass a sphere of the given radius stands for; inverse of
/// `radius_from_mass` up to cube-root truncation.
pub fn mass_from_radius(radius: Radius) -> (m: Mass)
    requires
        0 <= radius@ <= 0x30_0000,
    ensures
        m@ == mass_of_radius(radius@),
{
    let q: i64 = ((radius.0 as u64) / 3) as i64;
    proof {
        vstd::arithmetic::div_mod::lemma_div_nonincreasing(radius@, 3);
        vstd::arithmetic::div_mod::lemma_div_pos_is_pos(radius@, 3);
        assert(0 <= q * q <= 0x10_0000int * 0x10_0000int && 0 <= (q * q) * q <= 0x10_0000int
            * 0x10_0000int * 0x10_0000int) by (nonlinear_arith)
            requires
                0 <= q <= 0x10_0000int,
        ;
    }
    Mass(q * q * q)
}

/// Mapping a mass to its radius and back loses at most the cube-root
/// truncation: the round trip lands at `floor(cbrt(m))^3`, never above `m`.
pub proof fn lemma_radius_mass_round_trip(m: int)
    requires
        m >= 0,
    ensures
        mass_of_radius(radius_of_mass(m)) == cbrt_floor(m) * cbrt_floor(m) * cbrt_floor(m),
        mass_of_radius(radius_of_mass(m)) <= m,
        m < (cbrt_floor(m) + 1) * (cbrt_floor(m) + 1) * (cbrt_floor(m) + 1),
{
    lemma_cbrt_floor_bounds(m);
    let c = cbrt_floor(m);
    assert((3 * c) / 3 == c) by {
        vstd::arithmetic::div_mod::lemma_div_multiples_vanish(c, 3);
    }
}

/// The effective squared separation the force law divides by: the true
/// squared distance, or the squared softening distance if that is larger.
pub open spec fn eff_dist_sq(r_sq: int, eps: int) -> int {
    if eps * eps > r_sq {
        eps * eps
    } else {
        r_sq
    }
}

/// The gravitational force on a body of mass `m1` at `p1` toward a body of
/// mass `m2` at `p2`: magnitude `g * m1 * m2 / max(r^2, eps^2)` along the unit
/// separation vector, all in truncating integer arithmetic; zero at exactly
/// zero separation (normalize-or-zero).
pub open spec fn pair_force(g: int, eps: int, m1: int, p1: V3, m2: int, p2: V3) -> V3 {
    let d = p2.sub(p1);
    let r_sq = d.norm_sq();
    if r_sq == 0 {
        V3::zero()
    } else {
        let r = sqrt_floor(r_sq);
        let den = r * eff_dist_sq(r_sq, eps);
        d.scale(g * m1 * m2).div_all(den)
    }
}

/// A body exerts no force on itself: at zero separation the direction
/// degenerates and the force is the zero vector.
pub proof fn lemma_no_self_force(g: int, eps: int, m: int, p: V3)
    ensures
        pair_force(g, eps, m, p, m, p) == V3::zero(),
{
    let d = p.sub(p);
    assert(d.norm_sq() == 0);
}

proof fn lemma_square_nonneg(a: int)
    ensures
        a * a >= 0,
        a * a == abs1(a) * abs1(a),
{
    assert(a * a >= 0 && a * a == abs1(a) * abs1(a)) by (nonlinear_arith);
}

/// Separation flips sign when the pair is viewed from the other side, and the
/// squared distance is unchanged.
proof fn lemma_sub_antisymmetric(p1: V3, p2: V3)
    ensures
        p1.sub(p2) == p2.sub(p1).neg(),
        p1.sub(p2).norm_sq() == p2.sub(p1).norm_sq(),
{
    let d = p2.sub(p1);
    assert((-d.x) * (-d.x) == d.x * d.x) by (nonlinear_arith);
    assert((-d.y) * (-d.y) == d.y * d.y) by (nonlinear_arith);
    assert((-d.z) * (-d.z) == d.z * d.z) by (nonlinear_arith);
}

/// Newton's third law, exactly: the force on B toward A is the exact negation
/// of the force on A toward B, with no rounding asymmetry.
pub proof fn lemma_newtons_third_law(g: int, eps: int, m1: int, p1: V3, m2: int, p2: V3)
    ensures
        pair_force(g, eps, m2, p2, m1, p1) == pair_force(g, eps, m1, p1, m2, p2).neg(),
{
    lemma_sub_antisymmetric(p1, p2);
    let d = p2.sub(p1);
    let r_sq = d.norm_sq();
    if r_sq == 0 {
        assert(V3::zero().neg() == V3::zero());
    } else {
        lemma_den_positive(d, eps);
        let r = sqrt_floor(r_sq);
        let den = r * eff_dist_sq(r_sq, eps);
        let k = g * m1 * m2;
        assert(g * m2 * m1 == g * m1 * m2) by (nonlinear_arith);
        assert(k * (-d.x) == -(k * d.x)) by (nonlinear_arith);
        assert(k * (-d.y) == -(k * d.y)) by (nonlinear_arith);
        assert(k * (-d.z) == -(k * d.z)) by (nonlinear_arith);
        lemma_div_tz_neg(k * d.x, den);
        lemma_div_tz_neg(k * d.y, den);
        lemma_div_tz_neg(k * d.z, den);
    }
}

/// The squared separation is at least 1 whenever the positions differ, and
/// then the force denominator is positive.
proof fn lemma_den_positive(d: V3, eps: int)
    requires
        d.norm_sq() != 0,
    ensures
        d.norm_sq() >= 1,
        sqrt_floor(d.norm_sq()) >= 1,
        eff_dist_sq(d.norm_sq(), eps) >= d.norm_sq(),
        eff_dist_sq(d.norm_sq(), eps) >= 1,
        sqrt_floor(d.norm_sq()) * eff_dist_sq(d.norm_sq(), eps) >= 1,
{
    lemma_square_nonneg(d.x);
    lemma_square_nonneg(d.y);
    lemma_square_nonneg(d.z);
    let r_sq = d.norm_sq();
    assert(r_sq >= 1);
    lemma_sqrt_floor_bounds(r_sq);
    let r = sqrt_floor(r_sq);
    if r == 0 {
        assert((r + 1) * (r + 1) == 1) by (nonlinear_arith)
            requires
                r == 0,
        ;
    }
    lemma_square_nonneg(eps);
    lemma_mul_strictly_positive(r, eff_dist_sq(r_sq, eps));
}

/// Every component of the separation vector is bounded by the floor root of
/// the squared distance.
proof fn lemma_component_le_root(d: V3)
    requires
        d.norm_sq() >= 0,
    ensures
        abs1(d.x) <= sqrt_floor(d.norm_sq()),
        abs1(d.y) <= sqrt_floor(d.norm_sq()),
        abs1(d.z) <= sqrt_floor(d.norm_sq()),
{
    lemma_square_nonneg(d.x);
    lemma_square_nonneg(d.y);
    lemma_square_nonneg(d.z);
    lemma_sqrt_floor_dominates(d.norm_sq(), abs1(d.x));
    lemma_sqrt_floor_dominates(d.norm_sq(), abs1(d.y));
    lemma_sqrt_floor_dominates(d.norm_sq(), abs1(d.z));
}

/// One truncated force component is bounded: scaled by the effective squared
/// distance it stays within `g * m1 * m2`, so in particular it never exceeds
/// `g * m1 * m2` itself.
proof fn lemma_force_component_bound(k: int, dc: int, r: int, eff: int)
    requires
        k >= 0,
        r >= 1,
        eff >= 1,
        abs1(dc) <= r,
    ensures
        abs1(div_tz(k * dc, r * eff)) * eff <= k,
        abs1(div_tz(k * dc, r * eff)) <= k,
{
    let den = r * eff;
    lemma_mul_strictly_positive(r, eff);
    let q = div_tz(k * dc, den);
    let aq = abs1(q);
    let adc = abs1(dc);
    lemma_div_tz_bounds(k * dc, den);
    assert(den * aq <= abs1(k * dc));
    assert(abs1(k * dc) == k * adc) by (nonlinear_arith)
        requires
            k >= 0,
            adc == abs1(dc),
            (dc >= 0 ==> adc == dc) && (dc < 0 ==> adc == -dc),
    ;
    lemma_mul_inequality(adc, r, k);
    assert(adc * k == k * adc) by (nonlinear_arith);
    assert(r * k == k * r) by (nonlinear_arith);
    // den * |q| <= |k * dc| = k * |dc| <= k * r
    assert(den * aq <= k * r);
    // (r * eff) * |q| == r * (eff * |q|)
    assert(den * aq == r * (eff * aq)) by (nonlinear_arith)
        requires
            den == r * eff,
    ;
    assert(eff * aq >= 0) by (nonlinear_arith)
        requires
            eff >= 1,
            aq >= 0,
    ;
    // cancel r: eff * |q| <= k
    assert(eff * aq <= k) by (nonlinear_arith)
        requires
            r * (eff * aq) <= k * r,
            r >= 1,
            eff * aq >= 0,
    ;
    assert(aq <= k) by (nonlinear_arith)
        requires
            eff * aq <= k,
            eff >= 1,
            aq >= 0,
    ;
    assert(aq * eff == eff * aq) by (nonlinear_arith);
}

/// The pair force never exceeds `g * m1 * m2` in any component.
pub proof fn lemma_pair_force_bound(g: int, eps: int, m1: int, p1: V3, m2: int, p2: V3)
    requires
        g >= 0,
        m1 >= 0,
        m2 >= 0,
    ensures
        pair_force(g, eps, m1, p1, m2, p2).in_bounds(g * m1 * m2),
        g * m1 * m2 >= 0,
{
    let d = p2.sub(p1);
    let r_sq = d.norm_sq();
    let k = g * m1 * m2;
    assert(g * m1 * m2 >= 0) by (nonlinear_arith)
        requires
            g >= 0,
            m1 >= 0,
            m2 >= 0,
    ;
    if r_sq == 0 {
    } else {
        lemma_den_positive(d, eps);
        lemma_component_le_root(d);
        let r = sqrt_floor(r_sq);
        let eff = eff_dist_sq(r_sq, eps);
        lemma_force_component_bound(k, d.x, r, eff);
        lemma_force_component_bound(k, d.y, r, eff);
        lemma_force_component_bound(k, d.z, r, eff);
    }
}

/// The softening bound: with a softening distance of at least 1, every force
/// component obeys `|f| * eps^2 <= g * m1 * m2`, so the force stays finite
/// and bounded however small the separation becomes.
pub proof fn lemma_softening_bound(g: int, eps: int, m1: int, p1: V3, m2: int, p2: V3)
    requires
        g >= 0,
        m1 >= 0,
        m2 >= 0,
        eps >= 1,
    ensures
        abs1(pair_force(g, eps, m1, p1, m2, p2).x) * (eps * eps) <= g * m1 * m2,
        abs1(pair_force(g, eps, m1, p1, m2, p2).y) * (eps * eps) <= g * m1 * m2,
        abs1(pair_force(g, eps, m1, p1, m2, p2).z) * (eps * eps) <= g * m1 * m2,
{
    let d = p2.sub(p1);
    let r_sq = d.norm_sq();
    let k = g * m1 * m2;
    assert(g * m1 * m2 >= 0) by (nonlinear_arith)
        requires
            g >= 0,
            m1 >= 0,
            m2 >= 0,
    ;
    assert(eps * eps >= 1) by (nonlinear_arith)
        requires
            eps >= 1,
    ;
    if r_sq == 0 {
    } else {
        lemma_den_positive(d, eps);
        lemma_component_le_root(d);
        let r = sqrt_floor(r_sq);
        let eff = eff_dist_sq(r_sq, eps);
        assert(eff >= eps * eps);
        lemma_force_component_bound(k, d.x, r, eff);
        lemma_force_component_bound(k, d.y, r, eff);
        lemma_force_component_bound(k, d.z, r, eff);
        let f = pair_force(g, eps, m1, p1, m2, p2);
        assert(abs1(f.x) * (eps * eps) <= abs1(f.x) * eff) by (nonlinear_arith)
            requires
                abs1(f.x) >= 0,
                1 <= eps * eps <= eff,
        ;
        assert(abs1(f.y) * (eps * eps) <= abs1(f.y) * eff) by (nonlinear_arith)
            requires
                abs1(f.y) >= 0,
                1 <= eps * eps <= eff,
        ;
        assert(abs1(f.z) * (eps * eps) <= abs1(f.z) * eff) by (nonlinear_arith)
            requires
                abs1(f.z) >= 0,
                1 <= eps * eps <= eff,
        ;
    }
}

/// Compute the gravitational force on the body at `p1` toward the body at
/// `p2`, exactly as `pair_force` states it.
pub fn compute_pair_force(g: i64, eps: i64, m1: Mass, p1: Vec3, m2: Mass, p2: Vec3) -> (f: Force)
    requires
        0 <= g <= G_LIMIT,
        0 <= eps <= EPS_LIMIT,
        0 <= m1@ <= MASS_LIMIT,
        0 <= m2@ <= MASS_LIMIT,
        p1@.in_bounds(POS_SCAN_LIMIT as int),
        p2@.in_bounds(POS_SCAN_LIMIT as int),
    ensures
        f@ == pair_force(g as int, eps as int, m1@, p1@, m2@, p2@),
        f@.in_bounds((g as int) * m1@ * m2@),
        0 <= (g as int) * m1@ * m2@ <= 0x4000_0000_0000,
{
    proof {
        lemma_pair_force_bound(g as int, eps as int, m1@, p1@, m2@, p2@);
        assert(0 <= (g as int) * m1@ * m2@ <= 0x4000_0000_0000int && (g as int) * m1@ * m2@
            == (g as int) * (m1@ * m2@) && 0 <= (g as int) * m1@ <= 0x1_0000_0000_0000int)
            by (nonlinear_arith)
            requires
                0 <= g <= 64,
                0 <= m1@ <= 8192,
                0 <= m2@ <= 8192,
        ;
    }
    let d = p2.sub(p1);
    let ghost dd = p2@.sub(p1@);
    proof {
        assert(dd.x * dd.x <= 0x4000_0000int * 0x4000_0000int && dd.x * dd.x >= 0)
            by (nonlinear_arith)
            requires
                -0x4000_0000int <= dd.x <= 0x4000_0000int,
        ;
        assert(dd.y * dd.y <= 0x4000_0000int * 0x4000_0000int && dd.y * dd.y >= 0)
            by (nonlinear_arith)
            requires
                -0x4000_0000int <= dd.y <= 0x4000_0000int,
        ;
        assert(dd.z * dd.z <= 0x4000_0000int * 0x4000_0000int && dd.z * dd.z >= 0)
            by (nonlinear_arith)
            requires
                -0x4000_0000int <= dd.z <= 0x4000_0000int,
        ;
    }
    let r_sq: i64 = d.norm_sq();
    assert(r_sq <= 0x3000_0000_0000_0000);
    if r_sq == 0 {
        return Force::zero();
    }
    let r: i64 = isqrt_u64(r_sq as u64) as i64;
    proof {
        lemma_den_positive(dd, eps as int);
        lemma_component_le_root(dd);
        assert(sqrt_floor(r_sq as int) <= 0x8000_0000int) by {
            lemma_sqrt_floor_bounds(r_sq as int);
            let s = sqrt_floor(r_sq as int);
            if s > 0x8000_0000 {
                assert(s * s > 0x8000_0000int * 0x8000_0000int) by (nonlinear_arith)
                    requires
                        s > 0x8000_0000int,
                ;
            }
        }
    }
    proof {
        assert(0 <= (eps as int) * (eps as int) <= 0x100_0000_0000int) by (nonlinear_arith)
            requires
                0 <= eps <= 0x10_0000,
        ;
    }
    let eps_sq: i64 = eps * eps;
    let eff: i64 = if eps_sq > r_sq {
        eps_sq
    } else {
        r_sq
    };
    proof {
        assert(1 <= (r as int) * (eff as int) <= 0x8000_0000int * 0x4000_0000_0000_0000int)
            by (nonlinear_arith)
            requires
                1 <= r as int <= 0x8000_0000int,
                1 <= eff as int <= 0x4000_0000_0000_0000int,
        ;
        assert((r as int) * (eff as int) >= (r as int) * 1) by (nonlinear_arith)
            requires
                r as int >= 1,
                eff as int >= 1,
        ;
    }
    let den: i128 = (r as i128) * (eff as i128);
    let k: i64 = g * m1.0 * m2.0;
    let fx = force_component(k, d.x, den);
    let fy = force_component(k, d.y, den);
    let fz = force_component(k, d.z, den);
    proof {
        let kk = (g as int) * m1@ * m2@;
        assert(kk * dd.x == dd.scale(kk).x);
        assert(kk * dd.y == dd.scale(kk).y);
        assert(kk * dd.z == dd.scale(kk).z);
    }
    Force(Vec3 { x: fx, y: fy, z: fz })
}

/// The static data of a body that the pairwise scan snapshots.
pub open spec fn info_of(b: BodyModel) -> InfoModel {
    InfoModel { entity: b.id, mass: b.mass, vel: b.velocity, pos: b.position }
}

/// Two bodies overlap when their squared separation is below the square of
/// the sum of their radii.
pub open spec fn colliding(a: BodyModel, b: BodyModel) -> bool {
    b.position.sub(a.position).norm_sq() < (a.radius + b.radius) * (a.radius + b.radius)
}

/// The per-scan accumulator: one net-force slot per body, plus the merge
/// groups built so far.
pub ghost struct ScanState {
    pub forces: Seq<V3>,
    pub groups: Seq<GroupModel>,
}

/// Route a detected collision into the group table: the heavier body of the
/// pair survives (the second on a tie), the lighter is recorded as a member
/// of the survivor's group, creating the group if it is new.
pub open spec fn insert_collision(
    groups: Seq<GroupModel>,
    larger: InfoModel,
    smaller: InfoModel,
) -> Seq<GroupModel> {
    let gi = find_largest(groups, larger.entity);
    if gi >= 0 {
        groups.update(
            gi,
            GroupModel { largest: groups[gi].largest, members: groups[gi].members.push(smaller) },
        )
    } else {
        groups.push(GroupModel { largest: larger, members: seq![smaller] })
    }
}

/// Process one unordered pair: a colliding pair is routed to the group table,
/// a separated pair exchanges equal and opposite gravitational forces.
///
/// A body already claimed by a group this step — as a member, or, for the
/// lighter body of the pair, as a survivor — takes no further part in
/// grouping: the pair is left for the next step's scan. This deliberate rule
/// keeps every body in at most one group per step, so the resolver never
/// reads a destroyed body and mass is conserved exactly; the cost is that a
/// chain of three mutually overlapping bodies may take two steps to collapse.
pub open spec fn scan_pair(
    bodies: Seq<BodyModel>,
    g: int,
    eps: int,
    st: ScanState,
    i: int,
    j: int,
) -> ScanState {
    let a = bodies[i];
    let b = bodies[j];
    if colliding(a, b) {
        let larger = if a.mass > b.mass {
            a
        } else {
            b
        };
        let smaller = if a.mass > b.mass {
            b
        } else {
            a
        };
        if is_member(st.groups, a.id) || is_member(st.groups, b.id) || has_largest(
            st.groups,
            smaller.id,
        ) {
            st
        } else {
            ScanState {
                forces: st.forces,
                groups: insert_collision(st.groups, info_of(larger), info_of(smaller)),
            }
        }
    } else {
        let f = pair_force(g, eps, a.mass, a.position, b.mass, b.position);
        ScanState {
            forces: st.forces.update(i, st.forces[i].add(f)).update(j, st.forces[j].sub(f)),
            groups: st.groups,
        }
    }
}

/// Fold `scan_pair` over a whole pair list, front to back.
pub open spec fn scan_pairs(
    bodies: Seq<BodyModel>,
    g: int,
    eps: int,
    st: ScanState,
    pairs: Seq<(int, int)>,
) -> ScanState
    decreases pairs.len(),
{
    if pairs.len() == 0 {
        st
    } else {
        scan_pairs(
            bodies,
            g,
            eps,
            scan_pair(bodies, g, eps, st, pairs[0].0, pairs[0].1),
            pairs.drop_first(),
        )
    }
}

/// Folding over a list with one more pair at the end processes that pair
/// last.
pub proof fn lemma_scan_pairs_snoc(
    bodies: Seq<BodyModel>,
    g: int,
    eps: int,
    st: ScanState,
    pairs: Seq<(int, int)>,
    p: (int, int),
)
    ensures
        scan_pairs(bodies, g, eps, st, pairs.push(p)) == scan_pair(
            bodies,
            g,
            eps,
            scan_pairs(bodies, g, eps, st, pairs),
            p.0,
            p.1,
        ),
    decreases pairs.len(),
{
    if pairs.len() == 0 {
        assert(pairs.push(p)[0] == p);
        assert(pairs.push(p).drop_first() =~= Seq::<(int, int)>::empty());
        let st1 = scan_pair(bodies, g, eps, st, p.0, p.1);
        assert(scan_pairs(bodies, g, eps, st, pairs.push(p)) == scan_pairs(
            bodies,
            g,
            eps,
            st1,
            pairs.push(p).drop_first(),
        ));
        assert(scan_pairs(bodies, g, eps, st1, Seq::<(int, int)>::empty()) == st1);
        assert(scan_pairs(bodies, g, eps, st, pairs) == st);
    } else {
        assert(pairs.push(p)[0] == pairs[0]);
        assert(pairs.push(p).drop_first() =~= pairs.drop_first().push(p));
        let st1 = scan_pair(bodies, g, eps, st, pairs[0].0, pairs[0].1);
        lemma_scan_pairs_snoc(bodies, g, eps, st1, pairs.drop_first(), p);
        assert(scan_pairs(bodies, g, eps, st, pairs.push(p)) == scan_pairs(
            bodies,
            g,
            eps,
            st1,
            pairs.drop_first().push(p),
        ));
        assert(scan_pairs(bodies, g, eps, st, pairs) == scan_pairs(
            bodies,
            g,
            eps,
            st1,
            pairs.drop_first(),
        ));
    }
}

/// The pairs `(i, i+1) .. (i, j-1)` of one row of the triangular pair
/// enumeration.
pub open spec fn row_pairs(i: int, j: int) -> Seq<(int, int)>
    decreases j - i,
{
    if j <= i + 1 {
        Seq::empty()
    } else {
        row_pairs(i, j - 1).push((i, j - 1))
    }
}

/// All pairs of the first `i` rows, each row running to `n`.
pub open spec fn rows_done(i: int, n: int) -> Seq<(int, int)>
    decreases i,
{
    if i <= 0 {
        Seq::empty()
    } else {
        rows_done(i - 1, n) + row_pairs(i - 1, n)
    }
}

/// Every unordered pair of `n` bodies, each exactly once, in row order.
pub open spec fn all_pairs(n: int) -> Seq<(int, int)> {
    rows_done(n, n)
}

/// Shape of one row: `j - i - 1` pairs, the `idx`-th being `(i, i+1+idx)`.
pub proof fn lemma_row_pairs_shape(i: int, j: int)
    requires
        j >= i,
    ensures
        row_pairs(i, j).len() == if j <= i + 1 {
            0
        } else {
            j - i - 1
        },
        forall|idx: int|
            0 <= idx < row_pairs(i, j).len() ==> #[trigger] row_pairs(i, j)[idx] == (i, i + 1
                + idx),
    decreases j - i,
{
    if j > i + 1 {
        lemma_row_pairs_shape(i, j - 1);
    }
}

/// Shape of the done rows: every pair is ordered, within bounds, with first
/// component under `i`; and no pair repeats.
pub proof fn lemma_rows_done_shape(i: int, n: int)
    requires
        0 <= i <= n,
    ensures
        forall|idx: int|
            0 <= idx < rows_done(i, n).len() ==> {
                let p = #[trigger] rows_done(i, n)[idx];
                0 <= p.0 < i && p.0 < p.1 < n
            },
        forall|k1: int, k2: int|
            0 <= k1 < k2 < rows_done(i, n).len() ==> #[trigger] rows_done(i, n)[k1]
                != #[trigger] rows_done(i, n)[k2],
        rows_done(i, n).len() <= i * n,
    decreases i,
{
    if i > 0 {
        lemma_rows_done_shape(i - 1, n);
        lemma_row_pairs_shape(i - 1, n);
        let prev = rows_done(i - 1, n);
        let row = row_pairs(i - 1, n);
        assert(forall|idx: int|
            0 <= idx < prev.len() ==> rows_done(i, n)[idx] == prev[idx]);
        assert(forall|idx: int|
            prev.len() <= idx < rows_done(i, n).len() ==> rows_done(i, n)[idx] == row[idx
                - prev.len()]);
        assert((i - 1) * n + n == i * n) by (nonlinear_arith);
        assert(row.len() <= n);
    }
}

/// No unordered pair is visited twice, and no body is ever paired with
/// itself: the full enumeration lists strictly ordered index pairs without
/// repetition.
pub proof fn lemma_all_pairs_distinct(n: int)
    requires
        n >= 0,
    ensures
        forall|idx: int|
            0 <= idx < all_pairs(n).len() ==> {
                let p = #[trigger] all_pairs(n)[idx];
                0 <= p.0 < p.1 < n
            },
        forall|k1: int, k2: int|
            0 <= k1 < k2 < all_pairs(n).len() ==> #[trigger] all_pairs(n)[k1]
                != #[trigger] all_pairs(n)[k2],
{
    lemma_rows_done_shape(n, n);
}

/// Bound on the force one pair exchange can add to one body's accumulator:
/// `G_LIMIT * MASS_LIMIT * MASS_LIMIT`.
pub const FORCE_PAIR_BOUND: i64 = 0x1_0000_0000;

/// Bound on net-force components the scan keeps its accumulators within.
pub const SCAN_FORCE_LIMIT: i64 = 0x20_0000_0000_0000;

/// A well-formed body's radius lies between 3 (mass 1) and 60 (the mass
/// bound).
pub proof fn lemma_wf_radius_bounds(b: BodyModel)
    requires
        wf_body(b),
    ensures
        3 <= b.radius <= 60,
{
    lemma_cbrt_floor_bounds(b.mass);
    let c = cbrt_floor(b.mass);
    if c == 0 {
        assert(b.mass < (c + 1) * (c + 1) * (c + 1));
        assert(b.mass < 1) by (nonlinear_arith)
            requires
                c == 0,
                b.mass < (c + 1) * (c + 1) * (c + 1),
        ;
    }
    if c > 20 {
        assert(c * c * c >= 21 * 21 * 21) by (nonlinear_arith)
            requires
                c >= 21,
        ;
    }
}

/// Net forces per body of a body sequence.
pub open spec fn forces_model(s: Seq<Body>) -> Seq<V3> {
    s.map_values(|b: Body| b.net_force@)
}

/// Two body-model sequences that agree on everything but the net-force
/// accumulators.
pub open spec fn same_static(a: Seq<BodyModel>, b: Seq<BodyModel>) -> bool {
    &&& a.len() == b.len()
    &&& forall|k: int|
        0 <= k < a.len() ==> {
            &&& (#[trigger] b[k]).id == a[k].id
            &&& b[k].position == a[k].position
            &&& b[k].velocity == a[k].velocity
            &&& b[k].mass == a[k].mass
            &&& b[k].radius == a[k].radius
        }
}

/// One pair exchange moves each accumulator by at most `FORCE_PAIR_BOUND` per
/// component, and touches nothing else in the scan state but the groups.
pub proof fn lemma_scan_pair_force_delta(
    bodies: Seq<BodyModel>,
    g: int,
    eps: int,
    st: ScanState,
    i: int,
    j: int,
)
    requires
        0 <= i < j < bodies.len(),
        st.forces.len() == bodies.len(),
        forall|k: int| 0 <= k < bodies.len() ==> wf_body(#[trigger] bodies[k]),
        0 <= g <= G_LIMIT,
    ensures
        scan_pair(bodies, g, eps, st, i, j).forces.len() == st.forces.len(),
        forall|k: int|
            0 <= k < st.forces.len() ==> {
                let nf = (#[trigger] scan_pair(bodies, g, eps, st, i, j).forces[k]);
                let of = st.forces[k];
                abs1(nf.x - of.x) <= FORCE_PAIR_BOUND && abs1(nf.y - of.y) <= FORCE_PAIR_BOUND
                    && abs1(nf.z - of.z) <= FORCE_PAIR_BOUND
            },
{
    let a = bodies[i];
    let b = bodies[j];
    if !colliding(a, b) {
        lemma_pair_force_bound(g, eps, a.mass, a.position, b.mass, b.position);
        assert(g * a.mass * b.mass <= FORCE_PAIR_BOUND) by (nonlinear_arith)
            requires
                0 <= g <= 64,
                1 <= a.mass <= 8192,
                1 <= b.mass <= 8192,
        ;
    }
}

/// The persistent simulation state: the body arena, the tunable constants,
/// and the step-transient collision table.
pub struct SimulationState {
    pub bodies: Vec<Body>,
    pub constants: Constants,
    pub collision_groups: CollisionGroups,
    /// Identity for the next body admitted; ids are never reused.
    pub next_id: u64,
}

/// Total mass held by a body sequence.
pub open spec fn sum_masses(s: Seq<BodyModel>) -> int
    decreases s.len(),
{
    if s.len() == 0 {
        0
    } else {
        s[0].mass + sum_masses(s.drop_first())
    }
}

impl SimulationState {
    /// Models of the live bodies.
    pub open spec fn models(self) -> Seq<BodyModel> {
        bodies_model(self.bodies@)
    }

    /// The scan-state view: the net-force accumulators and the group table.
    pub open spec fn scan_view(self) -> ScanState {
        ScanState { forces: forces_model(self.bodies@), groups: self.collision_groups@ }
    }

    /// Structural well-formedness: every body is well formed, total mass is
    /// bounded, identities are unique and below the id counter, and the arena
    /// is within capacity.
    pub open spec fn wf(self) -> bool {
        &&& self.bodies@.len() <= MAX_BODIES
        &&& forall|k: int| 0 <= k < self.models().len() ==> wf_body(#[trigger] self.models()[k])
        &&& sum_masses(self.models()) <= MASS_LIMIT
        &&& forall|k1: int, k2: int|
            0 <= k1 < k2 < self.models().len() ==> (#[trigger] self.models()[k1]).id
                != (#[trigger] self.models()[k2]).id
        &&& forall|k: int|
            0 <= k < self.models().len() ==> (#[trigger] self.models()[k]).id < self.next_id
        &&& self.constants.wf()
    }

    /// Process one unordered pair of the scan, exactly as `scan_pair` says.
    fn scan_one_pair(&mut self, i: usize, j: usize, Ghost(bodies0): Ghost<Seq<BodyModel>>)
        requires
            old(self).constants.wf(),
            i < j,
            (j as int) < old(self).bodies@.len(),
            bodies0.len() == old(self).bodies@.len(),
            same_static(bodies0, old(self).models()),
            forall|k: int| 0 <= k < bodies0.len() ==> wf_body(#[trigger] bodies0[k]),
            forall|k: int|
                0 <= k < bodies0.len() ==> (#[trigger] bodies0[k]).position.in_bounds(
                    POS_SCAN_LIMIT as int,
                ),
            forall|k: int|
                0 <= k < old(self).models().len() ==> (#[trigger] old(
                    self,
                ).models()[k]).net_force.in_bounds(SCAN_FORCE_LIMIT as int),
        ensures
            final(self).scan_view() == scan_pair(
                bodies0,
                old(self).constants.grav_const as int,
                old(self).constants.min_attraction_dist as int,
                old(self).scan_view(),
                i as int,
                j as int,
            ),
            same_static(bodies0, final(self).models()),
            final(self).bodies@.len() == old(self).bodies@.len(),
            final(self).constants == old(self).constants,
            final(self).next_id == old(self).next_id,
    {
        let ghost ii = i as int;
        let ghost jj = j as int;
        let ghost st0 = old(self).scan_view();
        let a = self.bodies[i];
        let b = self.bodies[j];
        proof {
            assert(old(self).models()[ii] == a@);
            assert(old(self).models()[jj] == b@);
            assert(bodies0[ii].position == a@.position && bodies0[ii].mass == a@.mass
                && bodies0[ii].radius == a@.radius && bodies0[ii].id == a@.id
                && bodies0[ii].velocity == a@.velocity);
            assert(bodies0[jj].position == b@.position && bodies0[jj].mass == b@.mass
                && bodies0[jj].radius == b@.radius && bodies0[jj].id == b@.id
                && bodies0[jj].velocity == b@.velocity);
            lemma_wf_radius_bounds(bodies0[ii]);
            lemma_wf_radius_bounds(bodies0[jj]);
        }
        let d = b.position.sub(a.position);
        let r_sq = d.norm_sq();
        let radii_sum = a.radius.0 + b.radius.0;
        proof {
            assert((radii_sum as int) * (radii_sum as int) <= 14400) by (nonlinear_arith)
                requires
                    0 <= radii_sum <= 120,
            ;
        }
        if r_sq < radii_sum * radii_sum {
            assert(colliding(bodies0[ii], bodies0[jj]));
            let larger = if a.mass.0 > b.mass.0 {
                a
            } else {
                b
            };
            let smaller = if a.mass.0 > b.mass.0 {
                b
            } else {
                a
            };
            if self.collision_groups.contains_member(a.id) || self.collision_groups.contains_member(
                b.id,
            ) {
                // One of the two is already claimed by a group this step:
                // leave the pair for the next step's scan.
                return ;
            }
            let found = self.collision_groups.find_group(smaller.id);
            proof {
                crate::planet::collisions::lemma_find_largest(st0.groups, smaller@.id);
            }
            if found.is_some() {
                // The lighter body already survives a group of its own: do
                // not chain groups within one step.
                return ;
            }
            let larger_info = PlanetInfo {
                entity: larger.id,
                mass: larger.mass,
                vel: larger.velocity,
                pos: larger.position,
            };
            let smaller_info = PlanetInfo {
                entity: smaller.id,
                mass: smaller.mass,
                vel: smaller.velocity,
                pos: smaller.position,
            };
            self.collision_groups.insert_colliding(larger_info, smaller_info);
            proof {
                let lm = if bodies0[ii].mass > bodies0[jj].mass {
                    bodies0[ii]
                } else {
                    bodies0[jj]
                };
                let sm = if bodies0[ii].mass > bodies0[jj].mass {
                    bodies0[jj]
                } else {
                    bodies0[ii]
                };
                assert(larger_info@ == info_of(lm));
                assert(smaller_info@ == info_of(sm));
                assert(self.scan_view().forces =~= st0.forces);
            }
        } else {
            assert(!colliding(bodies0[ii], bodies0[jj]));
            let g = self.constants.grav_const;
            let eps = self.constants.min_attraction_dist;
            proof {
                assert(bodies0[ii].mass * bodies0[jj].mass <= MASS_LIMIT * MASS_LIMIT)
                    by (nonlinear_arith)
                    requires
                        1 <= bodies0[ii].mass <= MASS_LIMIT,
                        1 <= bodies0[jj].mass <= MASS_LIMIT,
                ;
            }
            let f = compute_pair_force(g, eps, a.mass, a.position, b.mass, b.position);
            proof {
                assert((g as int) * a.mass@ * b.mass@ <= FORCE_PAIR_BOUND) by (nonlinear_arith)
                    requires
                        0 <= g <= 64,
                        1 <= a.mass@ <= 8192,
                        1 <= b.mass@ <= 8192,
                ;
            }
            let mut bi = a;
            bi.net_force = bi.net_force.add(f);
            self.bodies.set(i, bi);
            let mut bj = b;
            bj.net_force = bj.net_force.sub(f);
            self.bodies.set(j, bj);
            proof {
                let ff = pair_force(
                    g as int,
                    eps as int,
                    bodies0[ii].mass,
                    bodies0[ii].position,
                    bodies0[jj].mass,
                    bodies0[jj].position,
                );
                assert(self.scan_view().forces =~= st0.forces.update(
                    ii,
                    st0.forces[ii].add(ff),
                ).update(jj, st0.forces[jj].sub(ff)));
                assert(self.scan_view().groups =~= st0.groups);
                assert forall|k: int| 0 <= k < bodies0.len() implies {
                    &&& (#[trigger] self.models()[k]).id == bodies0[k].id
                    &&& self.models()[k].position == bodies0[k].position
                    &&& self.models()[k].velocity == bodies0[k].velocity
                    &&& self.models()[k].mass == bodies0[k].mass
                    &&& self.models()[k].radius == bodies0[k].radius
                } by {
                    assert(self.models()[k] == self.bodies@[k]@);
                    if k != ii && k != jj {
                        assert(self.bodies@[k] == old(self).bodies@[k]);
                        assert(old(self).models()[k] == old(self).bodies@[k]@);
                    }
                }
                assert(same_static(bodies0, self.models()));
            }
        }
    }
}

/// Accumulators drifted by at most `cnt` pair exchanges.
pub open spec fn forces_delta_le(f0: Seq<V3>, f1: Seq<V3>, cnt: int) -> bool {
    &&& f1.len() == f0.len()
    &&& forall|k: int|
        0 <= k < f0.len() ==> {
            &&& abs1((#[trigger] f1[k]).x - f0[k].x) <= cnt * (FORCE_PAIR_BOUND as int)
            &&& abs1(f1[k].y - f0[k].y) <= cnt * (FORCE_PAIR_BOUND as int)
            &&& abs1(f1[k].z - f0[k].z) <= cnt * (FORCE_PAIR_BOUND as int)
        }
}

/// Pointwise equal masses give equal totals.
pub proof fn lemma_sum_masses_pointwise(a: Seq<BodyModel>, b: Seq<BodyModel>)
    requires
        a.len() == b.len(),
        forall|k: int| 0 <= k < a.len() ==> (#[trigger] a[k]).mass == b[k].mass,
    ensures
        sum_masses(a) == sum_masses(b),
    decreases a.len(),
{
    if a.len() > 0 {
        assert(forall|k: int|
            0 <= k < a.len() - 1 ==> #[trigger] a.drop_first()[k] == a[k + 1]
                && b.drop_first()[k] == b[k + 1]);
        lemma_sum_masses_pointwise(a.drop_first(), b.drop_first());
    }
}

/// Pointwise equal masses give equal totals when only forces differ.
pub proof fn lemma_sum_masses_same_static(a: Seq<BodyModel>, b: Seq<BodyModel>)
    requires
        same_static(a, b),
    ensures
        sum_masses(a) == sum_masses(b),
{
    lemma_sum_masses_pointwise(a, b);
}

impl SimulationState {
    /// The N-body pass: visit every unordered pair of bodies exactly once;
    /// a separated pair exchanges equal and opposite gravitational forces, an
    /// overlapping pair is routed into the collision-group table. Positions,
    /// velocities, masses and identities are untouched.
    pub fn nbody_system(&mut self)
        requires
            old(self).wf(),
            old(self).collision_groups@ == Seq::<GroupModel>::empty(),
            forall|k: int|
                0 <= k < old(self).models().len() ==> (#[trigger] old(
                    self,
                ).models()[k]).position.in_bounds(POS_SCAN_LIMIT as int),
            forall|k: int|
                0 <= k < old(self).models().len() ==> (#[trigger] old(
                    self,
                ).models()[k]).net_force.in_bounds(FORCE_LIMIT as int),
        ensures
            final(self).scan_view() == scan_pairs(
                old(self).models(),
                old(self).constants.grav_const as int,
                old(self).constants.min_attraction_dist as int,
                old(self).scan_view(),
                all_pairs(old(self).bodies@.len() as int),
            ),
            same_static(old(self).models(), final(self).models()),
            final(self).bodies@.len() == old(self).bodies@.len(),
            final(self).constants == old(self).constants,
            final(self).next_id == old(self).next_id,
            forall|k: int|
                0 <= k < final(self).models().len() ==> (#[trigger] final(self).models()[k])
                    .net_force.in_bounds(SCAN_FORCE_LIMIT as int),
            final(self).wf(),
    {
        let ghost bodies0 = old(self).models();
        let ghost g = old(self).constants.grav_const as int;
        let ghost eps = old(self).constants.min_attraction_dist as int;
        let ghost st0 = old(self).scan_view();
        let n = self.bodies.len();
        let ghost nn = n as int;
        proof {
            assert(rows_done(0, nn) =~= Seq::<(int, int)>::empty());
            assert(self.scan_view() == scan_pairs(bodies0, g, eps, st0, rows_done(0, nn)));
            assert forall|k: int| 0 <= k < st0.forces.len() implies (#[trigger] st0.forces[k])
                .in_bounds(FORCE_LIMIT as int) by {
                assert(st0.forces[k] == old(self).models()[k].net_force);
            }
        }
        let mut i: usize = 0;
        while i < n
            invariant
                i <= n,
                n == self.bodies@.len(),
                nn == n as int,
                nn <= MAX_BODIES,
                old(self).wf(),
                bodies0 == old(self).models(),
                st0 == old(self).scan_view(),
                g == old(self).constants.grav_const as int,
                eps == old(self).constants.min_attraction_dist as int,
                bodies0.len() == nn,
                st0.forces.len() == nn,
                forall|k: int| 0 <= k < bodies0.len() ==> wf_body(#[trigger] bodies0[k]),
                forall|k: int|
                    0 <= k < bodies0.len() ==> (#[trigger] bodies0[k]).position.in_bounds(
                        POS_SCAN_LIMIT as int,
                    ),
                forall|k: int|
                    0 <= k < st0.forces.len() ==> (#[trigger] st0.forces[k]).in_bounds(
                        FORCE_LIMIT as int,
                    ),
                self.constants == old(self).constants,
                self.next_id == old(self).next_id,
                same_static(bodies0, self.models()),
                self.scan_view() == scan_pairs(bodies0, g, eps, st0, rows_done(i as int, nn)),
                forces_delta_le(st0.forces, forces_model(self.bodies@), (i as int) * nn),
                0 <= (i as int) * nn <= nn * nn,
            decreases n - i,
        {
            let ghost ii = i as int;
            let mut j = i + 1;
            proof {
                assert(row_pairs(ii, ii + 1) =~= Seq::<(int, int)>::empty());
                assert(rows_done(ii, nn) + row_pairs(ii, ii + 1) =~= rows_done(ii, nn));
                assert(ii * nn + (ii + 1) <= nn * nn + nn) by (nonlinear_arith)
                    requires
                        0 <= ii < nn,
                ;
                assert(forces_delta_le(
                    st0.forces,
                    forces_model(self.bodies@),
                    ii * nn + (ii + 1),
                ));
            }
            while j < n
                invariant
                    i < j <= n,
                    i < n,
                    n == self.bodies@.len(),
                    nn == n as int,
                    ii == i as int,
                    nn <= MAX_BODIES,
                    old(self).wf(),
                    bodies0 == old(self).models(),
                    st0 == old(self).scan_view(),
                    g == old(self).constants.grav_const as int,
                    eps == old(self).constants.min_attraction_dist as int,
                    bodies0.len() == nn,
                    st0.forces.len() == nn,
                    forall|k: int| 0 <= k < bodies0.len() ==> wf_body(#[trigger] bodies0[k]),
                    forall|k: int|
                        0 <= k < bodies0.len() ==> (#[trigger] bodies0[k]).position.in_bounds(
                            POS_SCAN_LIMIT as int,
                        ),
                    forall|k: int|
                        0 <= k < st0.forces.len() ==> (#[trigger] st0.forces[k]).in_bounds(
                            FORCE_LIMIT as int,
                        ),
                    self.constants == old(self).constants,
                    self.next_id == old(self).next_id,
                    same_static(bodies0, self.models()),
                    self.scan_view() == scan_pairs(
                        bodies0,
                        g,
                        eps,
                        st0,
                        rows_done(ii, nn) + row_pairs(ii, j as int),
                    ),
                    forces_delta_le(st0.forces, forces_model(self.bodies@), ii * nn + (j as int)),
                    0 <= ii * nn + (j as int) <= nn * nn + nn,
                decreases n - j,
            {
                let ghost jj = j as int;
                let ghost pre = self.scan_view();
                let ghost prefix = rows_done(ii, nn) + row_pairs(ii, jj);
                proof {
                    // Current accumulators are still well within range.
                    assert forall|k: int| 0 <= k < self.models().len() implies (
                    #[trigger] self.models()[k]).net_force.in_bounds(SCAN_FORCE_LIMIT as int) by {
                        assert((ii * nn + jj) * (FORCE_PAIR_BOUND as int) <= (nn * nn + nn) * (
                        FORCE_PAIR_BOUND as int)) by (nonlinear_arith)
                            requires
                                0 <= ii * nn + jj <= nn * nn + nn,
                        ;
                        assert((nn * nn + nn) * (FORCE_PAIR_BOUND as int) <= 0x10_0400_0000_0000int)
                            by (nonlinear_arith)
                            requires
                                0 <= nn <= 1024,
                        ;
                        assert(self.models()[k].net_force == forces_model(self.bodies@)[k]);
                        assert(st0.forces[k].in_bounds(FORCE_LIMIT as int));
                    }
                }
                self.scan_one_pair(i, j, Ghost(bodies0));
                proof {
                    lemma_scan_pairs_snoc(bodies0, g, eps, st0, prefix, (ii, jj));
                    assert(prefix.push((ii, jj)) =~= rows_done(ii, nn) + row_pairs(ii, jj + 1));
                    assert(self.scan_view() == scan_pairs(
                        bodies0,
                        g,
                        eps,
                        st0,
                        rows_done(ii, nn) + row_pairs(ii, jj + 1),
                    ));
                    lemma_scan_pair_force_delta(bodies0, g, eps, pre, ii, jj);
                    assert(forces_delta_le(
                        st0.forces,
                        forces_model(self.bodies@),
                        ii * nn + jj + 1,
                    )) by {
                        assert(forall|k: int|
                            0 <= k < nn ==> (#[trigger] forces_model(self.bodies@)[k])
                                == scan_pair(bodies0, g, eps, pre, ii, jj).forces[k]);
                    }
                    assert(ii * nn + jj + 1 <= nn * nn + nn) by (nonlinear_arith)
                        requires
                            0 <= ii < nn,
                            ii < jj < nn,
                    ;
                }
                j += 1;
            }
            proof {
                assert(rows_done(ii, nn) + row_pairs(ii, nn) == rows_done(ii + 1, nn));
                assert((ii + 1) * nn == ii * nn + nn) by (nonlinear_arith);
                assert((ii + 1) * nn <= nn * nn) by (nonlinear_arith)
                    requires
                        0 <= ii < nn,
                ;
                assert(forces_delta_le(st0.forces, forces_model(self.bodies@), (ii + 1) * nn));
            }
            i += 1;
        }
        proof {
            // Final accumulators are within the scan bound, and the state is
            // still well formed.
            assert forall|k: int| 0 <= k < self.models().len() implies (
            #[trigger] self.models()[k]).net_force.in_bounds(SCAN_FORCE_LIMIT as int) by {
                assert((nn * nn) * (FORCE_PAIR_BOUND as int) <= 0x10_0000_0000_0000int)
                    by (nonlinear_arith)
                    requires
                        0 <= nn <= 1024,
                ;
                assert(self.models()[k].net_force == forces_model(self.bodies@)[k]);
                assert(st0.forces[k].in_bounds(FORCE_LIMIT as int));
            }
            lemma_sum_masses_same_static(bodies0, self.models());
            assert forall|k: int| 0 <= k < self.models().len() implies wf_body(
                #[trigger] self.models()[k],
            ) by {
                assert(wf_body(bodies0[k]));
            }
        }
    }
}

/// Forward-Euler integration of one body over a timestep `dt`: acceleration
/// is the accumulated net force over the mass, velocity picks up the
/// acceleration, position picks up the updated velocity, and the force
/// accumulator is reset to zero.
pub open spec fn integrate_body(b: BodyModel, dt: int) -> BodyModel {
    let acc = b.net_force.div_all(b.mass);
    let v = b.velocity.add(acc.scale(dt));
    let p = b.position.add(v.scale(dt));
    BodyModel {
        id: b.id,
        position: p,
        velocity: v,
        mass: b.mass,
        radius: b.radius,
        net_force: V3::zero(),
    }
}

/// Forward-Euler integration of every body.
pub open spec fn integrate_bodies(s: Seq<BodyModel>, dt: int) -> Seq<BodyModel> {
    s.map_values(|b: BodyModel| integrate_body(b, dt))
}

/// Integrate one body, exactly as `integrate_body` states it; the returned
/// body stays within the scan bounds.
fn integrate_one(b: Body, dt: Time) -> (r: Body)
    requires
        wf_body(b@),
        0 <= dt@ <= DT_LIMIT,
        b@.position.in_bounds(POS_LIMIT as int),
        b@.velocity.in_bounds(VEL_LIMIT as int),
        b@.net_force.in_bounds(FORCE_LIMIT as int),
    ensures
        r@ == integrate_body(b@, dt@),
        r@.position.in_bounds(POS_SCAN_LIMIT as int),
        r@.velocity.in_bounds(VEL_SCAN_LIMIT as int),
        r@.net_force == V3::zero(),
        wf_body(r@),
{
    proof {
        lemma_div_tz_bounds(b@.net_force.x, b@.mass);
        lemma_div_tz_bounds(b@.net_force.y, b@.mass);
        lemma_div_tz_bounds(b@.net_force.z, b@.mass);
    }
    let acc = b.net_force.div_mass(b.mass);
    proof {
        let av = acc@;
        assert(abs1(dt@ * av.x) <= 0x100_0000int && abs1(dt@ * av.y) <= 0x100_0000int && abs1(
            dt@ * av.z,
        ) <= 0x100_0000int) by (nonlinear_arith)
            requires
                0 <= dt@ <= 8,
                abs1(av.x) <= 0x20_0000int,
                abs1(av.y) <= 0x20_0000int,
                abs1(av.z) <= 0x20_0000int,
                (av.x >= 0 ==> abs1(av.x) == av.x) && (av.x < 0 ==> abs1(av.x) == -av.x),
                (av.y >= 0 ==> abs1(av.y) == av.y) && (av.y < 0 ==> abs1(av.y) == -av.y),
                (av.z >= 0 ==> abs1(av.z) == av.z) && (av.z < 0 ==> abs1(av.z) == -av.z),
                (dt@ * av.x >= 0 ==> abs1(dt@ * av.x) == dt@ * av.x) && (dt@ * av.x < 0 ==> abs1(
                    dt@ * av.x,
                ) == -(dt@ * av.x)),
                (dt@ * av.y >= 0 ==> abs1(dt@ * av.y) == dt@ * av.y) && (dt@ * av.y < 0 ==> abs1(
                    dt@ * av.y,
                ) == -(dt@ * av.y)),
                (dt@ * av.z >= 0 ==> abs1(dt@ * av.z) == dt@ * av.z) && (dt@ * av.z < 0 ==> abs1(
                    dt@ * av.z,
                ) == -(dt@ * av.z)),
        ;
    }
    let dv = acc.times_time(dt);
    let v = b.velocity.add(dv);
    proof {
        let vv = v@;
        assert(abs1(dt@ * vv.x) <= 0x1000_0000int && abs1(dt@ * vv.y) <= 0x1000_0000int && abs1(
            dt@ * vv.z,
        ) <= 0x1000_0000int) by (nonlinear_arith)
            requires
                0 <= dt@ <= 8,
                -0x140_0000 <= vv.x <= 0x140_0000int,
                -0x140_0000 <= vv.y <= 0x140_0000int,
                -0x140_0000 <= vv.z <= 0x140_0000int,
                (dt@ * vv.x >= 0 ==> abs1(dt@ * vv.x) == dt@ * vv.x) && (dt@ * vv.x < 0 ==> abs1(
                    dt@ * vv.x,
                ) == -(dt@ * vv.x)),
                (dt@ * vv.y >= 0 ==> abs1(dt@ * vv.y) == dt@ * vv.y) && (dt@ * vv.y < 0 ==> abs1(
                    dt@ * vv.y,
                ) == -(dt@ * vv.y)),
                (dt@ * vv.z >= 0 ==> abs1(dt@ * vv.z) == dt@ * vv.z) && (dt@ * vv.z < 0 ==> abs1(
                    dt@ * vv.z,
                ) == -(dt@ * vv.z)),
        ;
    }
    let dp = v.times_time(dt);
    let p = b.position.add(dp);
    let mut nb = b;
    nb.velocity = v;
    nb.position = p;
    nb.net_force = Force::zero();
    nb
}

impl SimulationState {
    /// The Integrator: advance every body's velocity and position from its
    /// accumulated net force over the timestep, then reset the accumulator to
    /// exactly zero.
    pub fn physics_system(&mut self, dt: Time)
        requires
            old(self).wf(),
            0 <= dt@ <= DT_LIMIT,
            forall|k: int|
                0 <= k < old(self).models().len() ==> (#[trigger] old(
                    self,
                ).models()[k]).position.in_bounds(POS_LIMIT as int),
            forall|k: int|
                0 <= k < old(self).models().len() ==> (#[trigger] old(
                    self,
                ).models()[k]).velocity.in_bounds(VEL_LIMIT as int),
            forall|k: int|
                0 <= k < old(self).models().len() ==> (#[trigger] old(
                    self,
                ).models()[k]).net_force.in_bounds(FORCE_LIMIT as int),
        ensures
            final(self).models() == integrate_bodies(old(self).models(), dt@),
            forall|k: int|
                0 <= k < final(self).models().len() ==> (#[trigger] final(self).models()[k])
                    .net_force == V3::zero(),
            forall|k: int|
                0 <= k < final(self).models().len() ==> (#[trigger] final(self).models()[k])
                    .position.in_bounds(POS_SCAN_LIMIT as int),
            forall|k: int|
                0 <= k < final(self).models().len() ==> (#[trigger] final(self).models()[k])
                    .velocity.in_bounds(VEL_SCAN_LIMIT as int),
            final(self).wf(),
            final(self).bodies@.len() == old(self).bodies@.len(),
            final(self).constants == old(self).constants,
            final(self).collision_groups == old(self).collision_groups,
            final(self).next_id == old(self).next_id,
    {
        let ghost models0 = old(self).models();
        let n = self.bodies.len();
        let ghost nn = n as int;
        let mut out: Vec<Body> = Vec::new();
        let mut k: usize = 0;
        while k < n
            invariant
                k <= n,
                n == self.bodies@.len(),
                nn == n as int,
                models0 == old(self).models(),
                models0.len() == nn,
                0 <= dt@ <= DT_LIMIT,
                forall|i: int|
                    0 <= i < nn ==> (#[trigger] models0[i]).position.in_bounds(POS_LIMIT as int),
                forall|i: int|
                    0 <= i < nn ==> (#[trigger] models0[i]).velocity.in_bounds(VEL_LIMIT as int),
                forall|i: int|
                    0 <= i < nn ==> (#[trigger] models0[i]).net_force.in_bounds(FORCE_LIMIT as int),
                forall|i: int| 0 <= i < nn ==> wf_body(#[trigger] models0[i]),
                self == old(self),
                out@.len() == k,
                forall|i: int|
                    0 <= i < k ==> (#[trigger] out@[i])@ == integrate_body(models0[i], dt@),
                forall|i: int|
                    0 <= i < k ==> (#[trigger] out@[i])@.position.in_bounds(POS_SCAN_LIMIT as int)
                        && out@[i]@.velocity.in_bounds(VEL_SCAN_LIMIT as int),
            decreases n - k,
        {
            let b = self.bodies[k];
            proof {
                assert(b@ == models0[k as int]);
            }
            let nb = integrate_one(b, dt);
            out.push(nb);
            k += 1;
        }
        self.bodies = out;
        proof {
            assert(self.models() =~= integrate_bodies(models0, dt@));
            lemma_sum_masses_pointwise(models0, self.models());
        }
    }
}

/// The user-controlled attractor: a point the bodies are pulled toward while
/// an external condition (a held button) makes it active.
#[derive(Clone, Copy, Debug, PartialEq, Eq, Structural)]
pub struct AttractorState {
    pub active: bool,
    pub position: Vec3,
}

/// One body pulled toward the attractor point with the same pairwise force
/// law as body-to-body gravity; the attractor itself accumulates nothing.
pub open spec fn attract_body(g: int, eps: int, am: int, ap: V3, b: BodyModel) -> BodyModel {
    BodyModel {
        id: b.id,
        position: b.position,
        velocity: b.velocity,
        mass: b.mass,
        radius: b.radius,
        net_force: b.net_force.add(pair_force(g, eps, b.mass, b.position, am, ap)),
    }
}

/// The attractor coupling applied to every body.
pub open spec fn attract_bodies(g: int, eps: int, am: int, ap: V3, s: Seq<BodyModel>) -> Seq<
    BodyModel,
> {
    s.map_values(|b: BodyModel| attract_body(g, eps, am, ap, b))
}

impl SimulationState {
    /// The external attractor coupling: while the attractor is active, add
    /// the same pairwise attraction as the N-body pass between every body and
    /// the attractor point, whose effective mass is the configured spring
    /// strength. An inactive attractor contributes exactly nothing.
    pub fn attractor_system(&mut self, attractor: AttractorState)
        requires
            old(self).wf(),
            attractor.position@.in_bounds(POS_SCAN_LIMIT as int),
            forall|k: int|
                0 <= k < old(self).models().len() ==> (#[trigger] old(
                    self,
                ).models()[k]).position.in_bounds(POS_SCAN_LIMIT as int),
            forall|k: int|
                0 <= k < old(self).models().len() ==> (#[trigger] old(
                    self,
                ).models()[k]).net_force.in_bounds(SCAN_FORCE_LIMIT as int),
        ensures
            attractor.active ==> final(self).models() == attract_bodies(
                old(self).constants.grav_const as int,
                old(self).constants.min_attraction_dist as int,
                old(self).constants.mouse_spring_strength as int,
                attractor.position@,
                old(self).models(),
            ),
            !attractor.active ==> *final(self) == *old(self),
            same_static(old(self).models(), final(self).models()),
            forall|k: int|
                0 <= k < final(self).models().len() ==> (#[trigger] final(self).models()[k])
                    .net_force.in_bounds(SCAN_FORCE_LIMIT as int + FORCE_PAIR_BOUND as int),
            final(self).wf(),
            final(self).bodies@.len() == old(self).bodies@.len(),
            final(self).constants == old(self).constants,
            final(self).collision_groups == old(self).collision_groups,
            final(self).next_id == old(self).next_id,
    {
        if !attractor.active {
            return ;
        }
        let ghost models0 = old(self).models();
        let g = self.constants.grav_const;
        let eps = self.constants.min_attraction_dist;
        let am = Mass(self.constants.mouse_spring_strength);
        let ap = attractor.position;
        let n = self.bodies.len();
        let ghost nn = n as int;
        let mut out: Vec<Body> = Vec::new();
        let mut k: usize = 0;
        while k < n
            invariant
                k <= n,
                n == self.bodies@.len(),
                nn == n as int,
                models0 == old(self).models(),
                models0.len() == nn,
                old(self).wf(),
                g == old(self).constants.grav_const,
                eps == old(self).constants.min_attraction_dist,
                am@ == old(self).constants.mouse_spring_strength as int,
                ap == attractor.position,
                ap@.in_bounds(POS_SCAN_LIMIT as int),
                forall|i: int|
                    0 <= i < nn ==> (#[trigger] models0[i]).position.in_bounds(
                        POS_SCAN_LIMIT as int,
                    ),
                forall|i: int|
                    0 <= i < nn ==> (#[trigger] models0[i]).net_force.in_bounds(
                        SCAN_FORCE_LIMIT as int,
                    ),
                forall|i: int| 0 <= i < nn ==> wf_body(#[trigger] models0[i]),
                self == old(self),
                out@.len() == k,
                forall|i: int|
                    0 <= i < k ==> (#[trigger] out@[i])@ == attract_body(
                        g as int,
                        eps as int,
                        am@,
                        ap@,
                        models0[i],
                    ),
                forall|i: int|
                    0 <= i < k ==> (#[trigger] out@[i])@.net_force.in_bounds(
                        SCAN_FORCE_LIMIT as int + FORCE_PAIR_BOUND as int,
                    ),
            decreases n - k,
        {
            let b = self.bodies[k];
            proof {
                assert(b@ == models0[k as int]);
                assert((g as int) * b.mass@ * am@ <= FORCE_PAIR_BOUND) by (nonlinear_arith)
                    requires
                        0 <= g <= 64,
                        0 <= b.mass@ <= 8192,
                        0 <= am@ <= 8192,
                ;
            }
            let f = compute_pair_force(g, eps, b.mass, b.position, am, ap);
            let mut nb = b;
            nb.net_force = nb.net_force.add(f);
            out.push(nb);
            k += 1;
        }
        self.bodies = out;
        proof {
            assert(self.models() =~= attract_bodies(g as int, eps as int, am@, ap@, models0));
            lemma_sum_masses_pointwise(models0, self.models());
        }
    }
}

/// `p` is the scan-time snapshot of some body in `bodies`.
pub open spec fn snapshot_of(bodies: Seq<BodyModel>, p: InfoModel) -> bool {
    exists|bi: int|
        0 <= bi < bodies.len() && (#[trigger] bodies[bi]).id == p.entity && p == info_of(
            bodies[bi],
        )
}

/// What the pairwise scan guarantees of its group table: every recorded
/// snapshot belongs to a live body; no body is recorded as a member twice,
/// nor as a member of two groups, nor both as a member and as a survivor;
/// and no two groups share a survivor.
pub open spec fn scan_inv(bodies: Seq<BodyModel>, groups: Seq<GroupModel>) -> bool {
    &&& forall|gi: int|
        0 <= gi < groups.len() ==> snapshot_of(bodies, (#[trigger] groups[gi]).largest)
    &&& forall|gi: int, k: int|
        0 <= gi < groups.len() && 0 <= k < groups[gi].members.len() ==> snapshot_of(
            bodies,
            #[trigger] groups[gi].members[k],
        )
    &&& forall|gi: int, k1: int, k2: int|
        0 <= gi < groups.len() && 0 <= k1 < k2 < groups[gi].members.len() ==> (
        #[trigger] groups[gi].members[k1]).entity != (#[trigger] groups[gi].members[k2]).entity
    &&& forall|g1: int, k1: int, g2: int, k2: int|
        0 <= g1 < groups.len() && 0 <= g2 < groups.len() && g1 != g2 && 0 <= k1
            < groups[g1].members.len() && 0 <= k2 < groups[g2].members.len() ==> (
        #[trigger] groups[g1].members[k1]).entity != (#[trigger] groups[g2].members[k2]).entity
    &&& forall|g1: int, g2: int|
        0 <= g1 < g2 < groups.len() ==> (#[trigger] groups[g1]).largest.entity != (
        #[trigger] groups[g2]).largest.entity
    &&& forall|g1: int, g2: int, k: int|
        0 <= g1 < groups.len() && 0 <= g2 < groups.len() && 0 <= k < groups[g2].members.len()
            ==> (#[trigger] groups[g1]).largest.entity != (#[trigger] groups[g2].members[k]).entity
}

/// Removing one body removes exactly its mass from the total.
pub proof fn lemma_sum_masses_remove(bodies: Seq<BodyModel>, i: int)
    requires
        0 <= i < bodies.len(),
    ensures
        sum_masses(bodies.remove(i)) == sum_masses(bodies) - bodies[i].mass,
    decreases bodies.len(),
{
    if i == 0 {
        assert(bodies.remove(0) =~= bodies.drop_first());
    } else {
        assert(bodies.remove(i).drop_first() =~= bodies.drop_first().remove(i - 1));
        assert(bodies.remove(i)[0] == bodies[0]);
        lemma_sum_masses_remove(bodies.drop_first(), i - 1);
    }
}

/// Snapshots of distinct live bodies cannot outweigh or outnumber the body
/// set they were taken from.
pub proof fn lemma_snapshots_sum_bound(bodies: Seq<BodyModel>, infos: Seq<InfoModel>)
    requires
        forall|k: int| 0 <= k < infos.len() ==> snapshot_of(bodies, #[trigger] infos[k]),
        forall|k1: int, k2: int|
            0 <= k1 < k2 < infos.len() ==> (#[trigger] infos[k1]).entity != (
            #[trigger] infos[k2]).entity,
        forall|k1: int, k2: int|
            0 <= k1 < k2 < bodies.len() ==> (#[trigger] bodies[k1]).id != (
            #[trigger] bodies[k2]).id,
        forall|k: int| 0 <= k < bodies.len() ==> (#[trigger] bodies[k]).mass >= 0,
    ensures
        crate::planet::collisions::sum_mass(infos) <= sum_masses(bodies),
        infos.len() <= bodies.len(),
        sum_masses(bodies) >= 0,
    decreases infos.len(),
{
    if infos.len() == 0 {
        lemma_sum_masses_nonneg(bodies);
    } else {
        let p = infos[0];
        let bi = choose|bi: int|
            0 <= bi < bodies.len() && (#[trigger] bodies[bi]).id == p.entity && p == info_of(
                bodies[bi],
            );
        let bodies2 = bodies.remove(bi);
        lemma_sum_masses_remove(bodies, bi);
        assert(forall|k: int|
            0 <= k < bodies2.len() ==> #[trigger] bodies2[k] == if k < bi {
                bodies[k]
            } else {
                bodies[k + 1]
            });
        let rest = infos.drop_first();
        assert(forall|k: int| 0 <= k < rest.len() ==> #[trigger] rest[k] == infos[k + 1]);
        assert forall|k: int| 0 <= k < rest.len() implies snapshot_of(
            bodies2,
            #[trigger] rest[k],
        ) by {
            assert(snapshot_of(bodies, rest[k]));
            let bj = choose|bj: int|
                0 <= bj < bodies.len() && (#[trigger] bodies[bj]).id == rest[k].entity && rest[k]
                    == info_of(bodies[bj]);
            assert(rest[k].entity != p.entity);
            assert(bj != bi);
            if bj < bi {
                assert(bodies2[bj] == bodies[bj]);
            } else {
                assert(bodies2[bj - 1] == bodies[bj]);
            }
        }
        lemma_snapshots_sum_bound(bodies2, rest);
        assert(p.mass == bodies[bi].mass);
        lemma_sum_masses_nonneg(bodies);
    }
}

/// A body set of nonnegative masses weighs a nonnegative total.
pub proof fn lemma_sum_masses_nonneg(bodies: Seq<BodyModel>)
    requires
        forall|k: int| 0 <= k < bodies.len() ==> (#[trigger] bodies[k]).mass >= 0,
    ensures
        sum_masses(bodies) >= 0,
    decreases bodies.len(),
{
    if bodies.len() > 0 {
        assert(forall|k: int|
            0 <= k < bodies.len() - 1 ==> #[trigger] bodies.drop_first()[k] == bodies[k + 1]);
        lemma_sum_masses_nonneg(bodies.drop_first());
    }
}

/// Processing one pair keeps the group table's scan invariant.
pub proof fn lemma_scan_pair_inv(
    bodies: Seq<BodyModel>,
    g: int,
    eps: int,
    st: ScanState,
    i: int,
    j: int,
)
    requires
        scan_inv(bodies, st.groups),
        0 <= i < j < bodies.len(),
        forall|k1: int, k2: int|
            0 <= k1 < k2 < bodies.len() ==> (#[trigger] bodies[k1]).id != (
            #[trigger] bodies[k2]).id,
    ensures
        scan_inv(bodies, scan_pair(bodies, g, eps, st, i, j).groups),
{
    let a = bodies[i];
    let b = bodies[j];
    if colliding(a, b) {
        let larger = if a.mass > b.mass {
            a
        } else {
            b
        };
        let smaller = if a.mass > b.mass {
            b
        } else {
            a
        };
        if is_member(st.groups, a.id) || is_member(st.groups, b.id) || has_largest(
            st.groups,
            smaller.id,
        ) {
        } else {
            let groups = st.groups;
            let li = info_of(larger);
            let sm = info_of(smaller);
            assert(a.id != b.id);
            assert(li.entity != sm.entity);
            assert(snapshot_of(bodies, li)) by {
                if a.mass > b.mass {
                    assert(bodies[i].id == li.entity && li == info_of(bodies[i]));
                } else {
                    assert(bodies[j].id == li.entity && li == info_of(bodies[j]));
                }
            }
            assert(snapshot_of(bodies, sm)) by {
                if a.mass > b.mass {
                    assert(bodies[j].id == sm.entity && sm == info_of(bodies[j]));
                } else {
                    assert(bodies[i].id == sm.entity && sm == info_of(bodies[i]));
                }
            }
            // The new member is nowhere in the table yet.
            assert(forall|gi: int, k: int|
                0 <= gi < groups.len() && 0 <= k < groups[gi].members.len() ==> (
                #[trigger] groups[gi].members[k]).entity != sm.entity);
            assert(forall|gi: int|
                0 <= gi < groups.len() ==> (#[trigger] groups[gi]).largest.entity != sm.entity);
            crate::planet::collisions::lemma_find_largest(groups, li.entity);
            let fi = find_largest(groups, li.entity);
            let gs = insert_collision(groups, li, sm);
            if fi >= 0 {
                let gnew = GroupModel {
                    largest: groups[fi].largest,
                    members: groups[fi].members.push(sm),
                };
                assert(gs == groups.update(fi, gnew));
                assert(gs.len() == groups.len());
                assert(forall|gi: int|
                    0 <= gi < gs.len() && gi != fi ==> #[trigger] gs[gi] == groups[gi]);
                assert(gs[fi] == gnew);
                assert(forall|k: int|
                    0 <= k < groups[fi].members.len() ==> #[trigger] gnew.members[k]
                        == groups[fi].members[k]);
                assert(gnew.members[groups[fi].members.len() as int] == sm);
                assert(scan_inv(bodies, gs));
            } else {
                let gnew = GroupModel { largest: li, members: seq![sm] };
                assert(gs == groups.push(gnew));
                assert(forall|gi: int|
                    0 <= gi < groups.len() ==> #[trigger] gs[gi] == groups[gi]);
                assert(gs[groups.len() as int] == gnew);
                assert(gnew.members.len() == 1 && gnew.members[0] == sm);
                // The new survivor is no member and no survivor anywhere.
                assert(forall|gi: int, k: int|
                    0 <= gi < groups.len() && 0 <= k < groups[gi].members.len() ==> (
                    #[trigger] groups[gi].members[k]).entity != li.entity);
                assert(forall|gi: int|
                    0 <= gi < groups.len() ==> (#[trigger] groups[gi]).largest.entity
                        != li.entity);
                assert(scan_inv(bodies, gs));
            }
        }
    }
}

/// The whole scan keeps the group table's scan invariant.
pub proof fn lemma_scan_pairs_inv(
    bodies: Seq<BodyModel>,
    g: int,
    eps: int,
    st: ScanState,
    pairs: Seq<(int, int)>,
)
    requires
        scan_inv(bodies, st.groups),
        forall|k: int|
            0 <= k < pairs.len() ==> {
                let p = #[trigger] pairs[k];
                0 <= p.0 < p.1 < bodies.len()
            },
        forall|k1: int, k2: int|
            0 <= k1 < k2 < bodies.len() ==> (#[trigger] bodies[k1]).id != (
            #[trigger] bodies[k2]).id,
    ensures
        scan_inv(bodies, scan_pairs(bodies, g, eps, st, pairs).groups),
    decreases pairs.len(),
{
    if pairs.len() > 0 {
        lemma_scan_pair_inv(bodies, g, eps, st, pairs[0].0, pairs[0].1);
        let st1 = scan_pair(bodies, g, eps, st, pairs[0].0, pairs[0].1);
        assert(forall|k: int|
            0 <= k < pairs.len() - 1 ==> #[trigger] pairs.drop_first()[k] == pairs[k + 1]);
        lemma_scan_pairs_inv(bodies, g, eps, st1, pairs.drop_first());
    }
}

/// Under the scan invariant, a well-formed bounded body set yields a group
/// table the resolver accepts: every snapshot is bounded and every group's
/// conserved total mass stays within the global mass bound.
pub proof fn lemma_scan_inv_groups_ok(bodies: Seq<BodyModel>, groups: Seq<GroupModel>)
    requires
        scan_inv(bodies, groups),
        bodies.len() <= MAX_BODIES,
        sum_masses(bodies) <= MASS_LIMIT,
        forall|k: int| 0 <= k < bodies.len() ==> wf_body(#[trigger] bodies[k]),
        forall|k: int|
            0 <= k < bodies.len() ==> (#[trigger] bodies[k]).position.in_bounds(
                POS_SCAN_LIMIT as int,
            ),
        forall|k: int|
            0 <= k < bodies.len() ==> (#[trigger] bodies[k]).velocity.in_bounds(
                VEL_SCAN_LIMIT as int,
            ),
        forall|k1: int, k2: int|
            0 <= k1 < k2 < bodies.len() ==> (#[trigger] bodies[k1]).id != (
            #[trigger] bodies[k2]).id,
    ensures
        crate::planet::collisions::groups_ok(groups),
{
    assert forall|gi: int| 0 <= gi < groups.len() implies crate::planet::collisions::group_ok(
        #[trigger] groups[gi],
    ) by {
        let gr = groups[gi];
        let infos = seq![gr.largest] + gr.members;
        assert(infos[0] == gr.largest);
        assert(forall|k: int|
            1 <= k < infos.len() ==> #[trigger] infos[k] == gr.members[k - 1]);
        assert(infos.drop_first() =~= gr.members);
        assert(crate::planet::collisions::sum_mass(infos) == gr.largest.mass
            + crate::planet::collisions::sum_mass(gr.members));
        assert forall|k: int| 0 <= k < infos.len() implies snapshot_of(
            bodies,
            #[trigger] infos[k],
        ) by {
            if k >= 1 {
                assert(infos[k] == gr.members[k - 1]);
            }
        }
        assert forall|k1: int, k2: int| 0 <= k1 < k2 < infos.len() implies (
        #[trigger] infos[k1]).entity != (#[trigger] infos[k2]).entity by {
            if k1 == 0 {
                assert(infos[k2] == gr.members[k2 - 1]);
                assert(gr.largest.entity != gr.members[k2 - 1].entity);
            } else {
                assert(infos[k1] == gr.members[k1 - 1] && infos[k2] == gr.members[k2 - 1]);
            }
        }
        lemma_snapshots_sum_bound(bodies, infos);
        assert(crate::planet::collisions::group_total_mass(gr) <= MASS_LIMIT);
        assert(gr.members.len() <= MAX_BODIES);
        assert forall|k: int| 0 <= k < gr.members.len() implies crate::planet::collisions::info_ok(
            #[trigger] gr.members[k],
        ) by {
            assert(snapshot_of(bodies, gr.members[k]));
            let bi = choose|bi: int|
                0 <= bi < bodies.len() && (#[trigger] bodies[bi]).id == gr.members[k].entity
                    && gr.members[k] == info_of(bodies[bi]);
            assert(wf_body(bodies[bi]));
        }
        assert(crate::planet::collisions::info_ok(gr.largest)) by {
            let bi = choose|bi: int|
                0 <= bi < bodies.len() && (#[trigger] bodies[bi]).id == gr.largest.entity
                    && gr.largest == info_of(bodies[bi]);
            assert(wf_body(bodies[bi]));
        }
    }
}

/// The scan invariant only reads the static fields of the bodies, so it
/// transfers across any change that touches the force accumulators alone.
pub proof fn lemma_scan_inv_same_static(
    a: Seq<BodyModel>,
    b: Seq<BodyModel>,
    groups: Seq<GroupModel>,
)
    requires
        scan_inv(a, groups),
        same_static(a, b),
    ensures
        scan_inv(b, groups),
{
    assert forall|gi: int| 0 <= gi < groups.len() implies snapshot_of(
        b,
        (#[trigger] groups[gi]).largest,
    ) by {
        assert(snapshot_of(a, groups[gi].largest));
        let bi = choose|bi: int|
            0 <= bi < a.len() && (#[trigger] a[bi]).id == groups[gi].largest.entity
                && groups[gi].largest == info_of(a[bi]);
        assert(info_of(b[bi]) == info_of(a[bi]));
    }
    assert forall|gi: int, k: int|
        0 <= gi < groups.len() && 0 <= k < groups[gi].members.len() implies snapshot_of(
        b,
        #[trigger] groups[gi].members[k],
    ) by {
        assert(snapshot_of(a, groups[gi].members[k]));
        let bi = choose|bi: int|
            0 <= bi < a.len() && (#[trigger] a[bi]).id == groups[gi].members[k].entity
                && groups[gi].members[k] == info_of(a[bi]);
        assert(info_of(b[bi]) == info_of(a[bi]));
    }
}

/// Net forces of a model sequence.
pub open spec fn model_forces(s: Seq<BodyModel>) -> Seq<V3> {
    s.map_values(|b: BodyModel| b.net_force)
}

/// The same bodies carrying freshly accumulated net forces.
pub open spec fn with_forces(s: Seq<BodyModel>, forces: Seq<V3>) -> Seq<BodyModel> {
    Seq::new(
        s.len(),
        |k: int|
            BodyModel {
                id: s[k].id,
                position: s[k].position,
                velocity: s[k].velocity,
                mass: s[k].mass,
                radius: s[k].radius,
                net_force: forces[k],
            },
    )
}

/// One full simulation step over a body set: integrate the previous step's
/// residual forces, run the pairwise scan (accumulating fresh forces and
/// gathering collision groups), couple the attractor, and resolve the merges.
pub open spec fn step_spec(
    bodies: Seq<BodyModel>,
    cst: Constants,
    dt: int,
    att_active: bool,
    att_pos: V3,
) -> Seq<BodyModel> {
    let g = cst.grav_const as int;
    let eps = cst.min_attraction_dist as int;
    let b1 = integrate_bodies(bodies, dt);
    let st = scan_pairs(
        b1,
        g,
        eps,
        ScanState { forces: model_forces(b1), groups: Seq::empty() },
        all_pairs(b1.len() as int),
    );
    let b2 = with_forces(b1, st.forces);
    let b3 = if att_active {
        attract_bodies(g, eps, cst.mouse_spring_strength as int, att_pos, b2)
    } else {
        b2
    };
    crate::planet::collisions::resolve_bodies(st.groups, b3)
}

impl SimulationState {
    /// Whether every body lies within the entry bounds one `step` is proved
    /// free of overflow under; a driver checks this before stepping.
    pub fn within_step_bounds(&self) -> (r: bool)
        ensures
            r == (forall|k: int|
                0 <= k < self.models().len() ==> {
                    let b = #[trigger] self.models()[k];
                    &&& b.position.in_bounds(POS_LIMIT as int)
                    &&& b.velocity.in_bounds(VEL_LIMIT as int)
                    &&& b.net_force.in_bounds(FORCE_LIMIT as int)
                }),
    {
        let n = self.bodies.len();
        let mut k: usize = 0;
        while k < n
            invariant
                k <= n,
                n == self.bodies@.len(),
                forall|i: int|
                    0 <= i < k ==> {
                        let b = #[trigger] self.models()[i];
                        &&& b.position.in_bounds(POS_LIMIT as int)
                        &&& b.velocity.in_bounds(VEL_LIMIT as int)
                        &&& b.net_force.in_bounds(FORCE_LIMIT as int)
                    },
            decreases n - k,
        {
            let b = self.bodies[k];
            proof {
                assert(b@ == self.models()[k as int]);
            }
            if b.position.x < -POS_LIMIT || b.position.x > POS_LIMIT || b.position.y < -POS_LIMIT
                || b.position.y > POS_LIMIT || b.position.z < -POS_LIMIT || b.position.z
                > POS_LIMIT {
                return false;
            }
            if b.velocity.0.x < -VEL_LIMIT || b.velocity.0.x > VEL_LIMIT || b.velocity.0.y
                < -VEL_LIMIT || b.velocity.0.y > VEL_LIMIT || b.velocity.0.z < -VEL_LIMIT
                || b.velocity.0.z > VEL_LIMIT {
                return false;
            }
            if b.net_force.0.x < -FORCE_LIMIT || b.net_force.0.x > FORCE_LIMIT || b.net_force.0.y
                < -FORCE_LIMIT || b.net_force.0.y > FORCE_LIMIT || b.net_force.0.z < -FORCE_LIMIT
                || b.net_force.0.z > FORCE_LIMIT {
                return false;
            }
            k += 1;
        }
        true
    }

    /// A copy of every live body, for the render layer to consume.
    pub fn snapshot(&self) -> (r: Vec<Body>)
        ensures
            r@ == self.bodies@,
    {
        let n = self.bodies.len();
        let mut out: Vec<Body> = Vec::new();
        let mut k: usize = 0;
        while k < n
            invariant
                k <= n,
                n == self.bodies@.len(),
                out@ =~= self.bodies@.take(k as int),
            decreases n - k,
        {
            out.push(self.bodies[k]);
            proof {
                assert(out@ =~= self.bodies@.take(k as int + 1));
            }
            k += 1;
        }
        proof {
            assert(self.bodies@.take(n as int) =~= self.bodies@);
        }
        out
    }

    /// One full simulation step: Integrator, then the pairwise Force
    /// Accumulator together with Collision Grouping, then the external
    /// Attractor Coupling, then the Collision Resolver; exactly as
    /// `step_spec` states it. The group table starts and ends empty, and the
    /// surviving bodies are handed back for the render layer to consume.
    pub fn step(&mut self, dt: Time, attractor: AttractorState) -> (snap: Vec<Body>)
        requires
            old(self).wf(),
            old(self).collision_groups@ == Seq::<GroupModel>::empty(),
            0 <= dt@ <= DT_LIMIT,
            attractor.position@.in_bounds(POS_SCAN_LIMIT as int),
            forall|k: int|
                0 <= k < old(self).models().len() ==> (#[trigger] old(
                    self,
                ).models()[k]).position.in_bounds(POS_LIMIT as int),
            forall|k: int|
                0 <= k < old(self).models().len() ==> (#[trigger] old(
                    self,
                ).models()[k]).velocity.in_bounds(VEL_LIMIT as int),
            forall|k: int|
                0 <= k < old(self).models().len() ==> (#[trigger] old(
                    self,
                ).models()[k]).net_force.in_bounds(FORCE_LIMIT as int),
        ensures
            final(self).models() == step_spec(
                old(self).models(),
                old(self).constants,
                dt@,
                attractor.active,
                attractor.position@,
            ),
            final(self).collision_groups@ == Seq::<GroupModel>::empty(),
            final(self).constants == old(self).constants,
            final(self).next_id == old(self).next_id,
            final(self).bodies@.len() <= old(self).bodies@.len(),
            final(self).wf(),
            sum_masses(final(self).models()) == sum_masses(old(self).models()),
            snap@ == final(self).bodies@,
    {
        let ghost models0 = old(self).models();
        let ghost cst = old(self).constants;
        let ghost g = cst.grav_const as int;
        let ghost eps = cst.min_attraction_dist as int;
        self.physics_system(dt);
        let ghost models1 = self.models();
        proof {
            assert(forces_model(self.bodies@) =~= model_forces(models1));
        }
        let ghost st0 = ScanState { forces: model_forces(models1), groups: Seq::empty() };
        proof {
            assert(self.scan_view() == st0);
            assert forall|k: int| 0 <= k < models1.len() implies (#[trigger] models1[k])
                .net_force.in_bounds(FORCE_LIMIT as int) by {
                assert(models1[k].net_force == V3::zero());
            }
        }
        self.nbody_system();
        let ghost st = scan_pairs(models1, g, eps, st0, all_pairs(models1.len() as int));
        let ghost models2 = self.models();
        proof {
            assert(self.scan_view() == st);
            assert(models2 =~= with_forces(models1, st.forces)) by {
                assert(forall|k: int|
                    0 <= k < models2.len() ==> (#[trigger] forces_model(self.bodies@)[k])
                        == models2[k].net_force);
            }
            lemma_all_pairs_distinct(models1.len() as int);
            lemma_scan_pairs_inv(models1, g, eps, st0, all_pairs(models1.len() as int));
            lemma_scan_inv_groups_ok(models1, st.groups);
            assert forall|k: int| 0 <= k < models2.len() implies (#[trigger] models2[k])
                .position.in_bounds(POS_SCAN_LIMIT as int) by {
                assert(models2[k].position == models1[k].position);
            }
        }
        self.attractor_system(attractor);
        let ghost models3 = self.models();
        proof {
            assert(self.collision_groups@ == st.groups);
            assert(crate::planet::collisions::groups_ok(self.collision_groups@));
            if !attractor.active {
                assert(models3 == models2);
            }
        }
        self.collision_resolution_system();
        proof {
            assert(self.models() == crate::planet::collisions::resolve_bodies(st.groups, models3));
            // Total mass is conserved through every phase: integration and
            // the force passes leave masses untouched, and resolution only
            // moves member masses onto their survivors.
            assert(forall|k: int|
                0 <= k < models0.len() ==> (#[trigger] models0[k]).mass == models1[k].mass);
            lemma_sum_masses_pointwise(models0, models1);
            lemma_sum_masses_same_static(models1, models2);
            lemma_sum_masses_same_static(models2, models3);
            assert forall|k1: int, k2: int|
                0 <= k1 < k2 < models3.len() implies (#[trigger] models3[k1]).id != (
            #[trigger] models3[k2]).id by {
                assert(models3[k1].id == models1[k1].id && models3[k2].id == models1[k2].id);
            }
            lemma_scan_inv_same_static(models1, models3, st.groups);
            crate::planet::collisions::lemma_resolution_conserves_mass(st.groups, models3);
            // Every surviving id was already live, so the id counter still
            // dominates every id.
            assert forall|k: int| 0 <= k < self.models().len() implies (
            #[trigger] self.models()[k]).id < self.next_id as int by {
                assert(crate::planet::collisions::has_id(models3, self.models()[k].id));
                let w = choose|w: int|
                    0 <= w < models3.len() && (#[trigger] models3[w]).id == self.models()[k].id;
                assert(models3[w].id == models1[w].id);
                assert(models1[w].id == old(self).models()[w].id);
            }
        }
        self.snapshot()
    }
}

/// Componentwise total of a force list.
pub open spec fn sum_v3(s: Seq<V3>) -> V3
    decreases s.len(),
{
    if s.len() == 0 {
        V3::zero()
    } else {
        s[0].add(sum_v3(s.drop_first()))
    }
}

/// Replacing one entry moves the total by exactly the difference.
pub proof fn lemma_sum_v3_update(s: Seq<V3>, i: int, v: V3)
    requires
        0 <= i < s.len(),
    ensures
        sum_v3(s.update(i, v)) == sum_v3(s).sub(s[i]).add(v),
    decreases s.len(),
{
    if i == 0 {
        assert(s.update(0, v)[0] == v);
        assert(s.update(0, v).drop_first() =~= s.drop_first());
        assert(sum_v3(s.update(0, v)) == v.add(sum_v3(s.drop_first())));
        assert(sum_v3(s) == s[0].add(sum_v3(s.drop_first())));
    } else {
        assert(s.update(i, v)[0] == s[0]);
        assert(s.update(i, v).drop_first() =~= s.drop_first().update(i - 1, v));
        lemma_sum_v3_update(s.drop_first(), i - 1, v);
        assert(sum_v3(s.update(i, v)) == s[0].add(sum_v3(s.drop_first().update(i - 1, v))));
        assert(sum_v3(s) == s[0].add(sum_v3(s.drop_first())));
    }
}

/// One pair exchange leaves the total of all accumulators exactly unchanged:
/// what is added to one body is subtracted from the other.
pub proof fn lemma_scan_pair_total_force(
    bodies: Seq<BodyModel>,
    g: int,
    eps: int,
    st: ScanState,
    i: int,
    j: int,
)
    requires
        0 <= i < j < st.forces.len(),
    ensures
        sum_v3(scan_pair(bodies, g, eps, st, i, j).forces) == sum_v3(st.forces),
{
    let a = bodies[i];
    let b = bodies[j];
    if !colliding(a, b) {
        let f = pair_force(g, eps, a.mass, a.position, b.mass, b.position);
        let s1 = st.forces.update(i, st.forces[i].add(f));
        lemma_sum_v3_update(st.forces, i, st.forces[i].add(f));
        assert(s1[j] == st.forces[j]);
        lemma_sum_v3_update(s1, j, st.forces[j].sub(f));
    }
}

/// Newton's-third-law accumulation symmetry over a whole pass: however many
/// pairs are visited, the internal forces sum to exactly zero change, so the
/// pass cannot move the system's total momentum.
pub proof fn lemma_scan_conserves_total_force(
    bodies: Seq<BodyModel>,
    g: int,
    eps: int,
    st: ScanState,
    pairs: Seq<(int, int)>,
)
    requires
        forall|k: int|
            0 <= k < pairs.len() ==> {
                let p = #[trigger] pairs[k];
                0 <= p.0 < p.1 < st.forces.len()
            },
    ensures
        sum_v3(scan_pairs(bodies, g, eps, st, pairs).forces) == sum_v3(st.forces),
    decreases pairs.len(),
{
    if pairs.len() > 0 {
        lemma_scan_pair_total_force(bodies, g, eps, st, pairs[0].0, pairs[0].1);
        let st1 = scan_pair(bodies, g, eps, st, pairs[0].0, pairs[0].1);
        assert(st1.forces.len() == st.forces.len());
        assert(forall|k: int|
            0 <= k < pairs.len() - 1 ==> #[trigger] pairs.drop_first()[k] == pairs[k + 1]);
        lemma_scan_conserves_total_force(bodies, g, eps, st1, pairs.drop_first());
    }
}

/// A request to admit one body; any unset field is filled by the documented
/// randomization policy before the body is admitted.
#[derive(Clone, Copy, Debug)]
pub struct SpawnPlanetEvent {
    pub pos: Option<Vec3>,
    pub vel: Option<Velocity>,
    pub mass: Option<Mass>,
}

/// A requested position is admissible: either left to the policy (whose draw
/// always lies within the arena) or given within the position bound.
pub open spec fn event_pos_ok(event: SpawnPlanetEvent) -> bool {
    event.pos is Some ==> event.pos.unwrap()@.in_bounds(POS_LIMIT as int)
}

/// A requested velocity is admissible: either left to the policy (whose
/// orbit speed always lies within the velocity bound) or given within it.
pub open spec fn event_vel_ok(event: SpawnPlanetEvent) -> bool {
    event.vel is Some ==> event.vel.unwrap()@.in_bounds(VEL_LIMIT as int)
}

impl Default for SpawnPlanetEvent {
    /// A fully unset request: every field is left to the policy.
    fn default() -> (r: SpawnPlanetEvent)
        ensures
            r.pos is None,
            r.vel is None,
            r.mass is None,
    {
        SpawnPlanetEvent { pos: None, vel: None, mass: None }
    }
}

/// Relies on rand: `Rng::gen_range` on the thread-local generator draws a
/// value from the half-open range `lo..hi`, and panics only on an empty
/// range.
#[verifier::external_body]
fn random_in_range(lo: i64, hi: i64) -> (r: i64)
    requires
        lo < hi,
    ensures
        lo <= r < hi,
{
    rand::Rng::gen_range(&mut rand::thread_rng(), lo..hi)
}

/// The panel's random-spawn position policy: a point drawn from the spawn
/// box, every coordinate in `[-600, 600)`.
pub fn random_spawn_position() -> (p: Vec3)
    ensures
        p@.in_bounds(600),
{
    let x = random_in_range(-600, 600);
    let y = random_in_range(-600, 600);
    let z = random_in_range(-600, 600);
    Vec3 { x, y, z }
}

/// Summing one more body adds its mass.
pub proof fn lemma_sum_masses_snoc(s: Seq<BodyModel>, b: BodyModel)
    ensures
        sum_masses(s.push(b)) == sum_masses(s) + b.mass,
    decreases s.len(),
{
    if s.len() == 0 {
        assert(s.push(b)[0] == b);
        assert(s.push(b).drop_first() =~= Seq::<BodyModel>::empty());
        assert(sum_masses(s.push(b)) == b.mass + sum_masses(Seq::<BodyModel>::empty()));
    } else {
        assert(s.push(b)[0] == s[0]);
        assert(s.push(b).drop_first() =~= s.drop_first().push(b));
        lemma_sum_masses_snoc(s.drop_first(), b);
        assert(sum_masses(s.push(b)) == s[0].mass + sum_masses(s.drop_first().push(b)));
        assert(sum_masses(s) == s[0].mass + sum_masses(s.drop_first()));
    }
}

/// The circular-orbit velocity policy around the sun at the origin: speed
/// `floor(sqrt(G * SUN_MASS / |pos|))` along the horizontal tangent, or rest
/// at degenerate separation.
pub open spec fn orbit_velocity(g: int, pos: V3) -> V3 {
    let r = sqrt_floor(pos.norm_sq());
    if r == 0 {
        V3::zero()
    } else {
        let speed = sqrt_floor(div_tz(g * (SUN_MASS as int), r));
        V3 { x: div_tz(speed * pos.z, r), y: 0, z: -div_tz(speed * pos.x, r) }
    }
}

impl SimulationState {
    /// A fresh simulation: no bodies, default constants, an empty group
    /// table.
    pub fn new() -> (r: SimulationState)
        ensures
            r.bodies@.len() == 0,
            r.constants == (Constants { mouse_spring_strength: 100, grav_const: 20, min_attraction_dist: 1 }),
            r.collision_groups@ == Seq::<GroupModel>::empty(),
            r.next_id == 0,
            r.wf(),
    {
        let r = SimulationState {
            bodies: Vec::new(),
            constants: Constants::default(),
            collision_groups: CollisionGroups::new(),
            next_id: 0,
        };
        proof {
            assert(r.models() =~= Seq::<BodyModel>::empty());
        }
        r
    }

    /// Total mass currently held by the simulation.
    pub fn total_mass(&self) -> (r: i64)
        requires
            self.wf(),
        ensures
            r as int == sum_masses(self.models()),
            0 <= r <= MASS_LIMIT,
    {
        let ghost models = self.models();
        let n = self.bodies.len();
        let mut acc: i64 = 0;
        let mut k: usize = 0;
        proof {
            assert(models.take(0) =~= Seq::<BodyModel>::empty());
            lemma_snapshots_sum_bound(models, Seq::empty());
        }
        while k < n
            invariant
                k <= n,
                n == self.bodies@.len(),
                models == self.models(),
                models.len() == n,
                self.wf(),
                acc as int == sum_masses(models.take(k as int)),
                0 <= acc <= (k as int) * (MASS_LIMIT as int),
            decreases n - k,
        {
            let b = self.bodies[k];
            proof {
                assert(b@ == models[k as int]);
                assert(models.take(k as int + 1) =~= models.take(k as int).push(b@));
                lemma_sum_masses_snoc(models.take(k as int), b@);
                assert(wf_body(models[k as int]));
            }
            acc = acc + b.mass.0;
            k += 1;
        }
        proof {
            assert(models.take(n as int) =~= models);
            lemma_sum_masses_nonneg(models);
        }
        acc
    }

    /// Whether one more body of mass `m` can be admitted: the arena has room,
    /// the mass is positive and the total mass budget is kept.
    pub open spec fn can_admit(self, m: int) -> bool {
        &&& self.bodies@.len() < MAX_BODIES
        &&& 1 <= m <= MASS_LIMIT
        &&& sum_masses(self.models()) + m <= MASS_LIMIT
        &&& self.next_id < u64::MAX
    }

    /// Whether a policy-drawn mass is certain to be admitted: even the
    /// largest value the mass policy can draw (51) fits the mass budget.
    pub open spec fn can_admit_any_draw(self) -> bool {
        &&& self.bodies@.len() < MAX_BODIES
        &&& sum_masses(self.models()) + 51 <= MASS_LIMIT
        &&& self.next_id < u64::MAX
    }

    /// Admit one body with concrete position, velocity and mass, under a
    /// fresh identity; the radius is the one the mass dictates and the force
    /// accumulator starts at zero. Admission succeeds if and only if the
    /// value bounds and the mass budget allow it.
    pub fn admit_body(&mut self, pos: Vec3, vel: Velocity, mass: Mass) -> (r: Option<u64>)
        requires
            old(self).wf(),
        ensures
            final(self).wf(),
            r is Some <==> old(self).can_admit(mass@) && pos@.in_bounds(POS_LIMIT as int)
                && vel@.in_bounds(VEL_LIMIT as int),
            match r {
                Some(id) => {
                    &&& id == old(self).next_id
                    &&& final(self).next_id == old(self).next_id + 1
                    &&& final(self).models() == old(self).models().push(
                        BodyModel {
                            id: id as int,
                            position: pos@,
                            velocity: vel@,
                            mass: mass@,
                            radius: radius_of_mass(mass@),
                            net_force: V3::zero(),
                        },
                    )
                    &&& sum_masses(final(self).models()) == sum_masses(old(self).models())
                        + mass@
                },
                None => *final(self) == *old(self),
            },
            final(self).constants == old(self).constants,
            final(self).collision_groups == old(self).collision_groups,
            final(self).bodies@.len() <= old(self).bodies@.len() + 1,
    {
        if self.bodies.len() >= MAX_BODIES || mass.0 < 1 || mass.0 > MASS_LIMIT
            || self.next_id == u64::MAX {
            return None;
        }
        let total = self.total_mass();
        if total + mass.0 > MASS_LIMIT {
            return None;
        }
        if pos.x < -POS_LIMIT || pos.x > POS_LIMIT || pos.y < -POS_LIMIT || pos.y > POS_LIMIT
            || pos.z < -POS_LIMIT || pos.z > POS_LIMIT {
            return None;
        }
        if vel.0.x < -VEL_LIMIT || vel.0.x > VEL_LIMIT || vel.0.y < -VEL_LIMIT || vel.0.y
            > VEL_LIMIT || vel.0.z < -VEL_LIMIT || vel.0.z > VEL_LIMIT {
            return None;
        }
        let id = self.next_id;
        let radius = radius_from_mass(mass);
        let body = Body { id, position: pos, velocity: vel, mass, radius, net_force: Force::zero() };
        let ghost models0 = self.models();
        self.bodies.push(body);
        self.next_id = id + 1;
        proof {
            assert(self.models() =~= models0.push(body@));
            lemma_sum_masses_snoc(models0, body@);
            assert forall|k: int| 0 <= k < self.models().len() implies wf_body(
                #[trigger] self.models()[k],
            ) by {
                if k < models0.len() {
                    assert(self.models()[k] == models0[k]);
                }
            }
            lemma_sum_masses_nonneg(models0);
        }
        Some(id)
    }

    /// Spawn the sun: the distinguished heavy body at rest at the origin.
    pub fn spawn_sun(&mut self) -> (r: Option<u64>)
        requires
            old(self).wf(),
        ensures
            final(self).wf(),
            r is Some <==> old(self).can_admit(SUN_MASS as int),
            match r {
                Some(id) => {
                    &&& id == old(self).next_id
                    &&& final(self).models() == old(self).models().push(
                        BodyModel {
                            id: id as int,
                            position: V3::zero(),
                            velocity: V3::zero(),
                            mass: SUN_MASS as int,
                            radius: radius_of_mass(SUN_MASS as int),
                            net_force: V3::zero(),
                        },
                    )
                },
                None => *final(self) == *old(self),
            },
            final(self).constants == old(self).constants,
            final(self).collision_groups == old(self).collision_groups,
    {
        self.admit_body(Vec3::zero(), Velocity::zero(), Mass(SUN_MASS))
    }

    /// Admit one body from a spawn request. Any unset field is filled by the
    /// documented policy: a position drawn from the spawn box (`x` and `z` in
    /// `[-500, 500)`, `y` in `[-50, 50)`), a mass drawn from `[2, 52)`, and
    /// the circular-orbit velocity around the sun for the chosen position.
    ///
    /// Admission is owed: with a given mass it succeeds exactly when the
    /// budget and the value bounds allow it, and with a policy mass it
    /// succeeds whenever even the largest possible draw fits the budget.
    pub fn spawn_planet(&mut self, event: SpawnPlanetEvent) -> (r: Option<u64>)
        requires
            old(self).wf(),
        ensures
            final(self).wf(),
            final(self).constants == old(self).constants,
            final(self).collision_groups == old(self).collision_groups,
            final(self).bodies@.len() <= old(self).bodies@.len() + 1,
            r is None ==> *final(self) == *old(self),
            event.mass is Some ==> ((r is Some) <==> old(self).can_admit(event.mass.unwrap()@)
                && event_pos_ok(event) && event_vel_ok(event)),
            event.mass is None && old(self).can_admit_any_draw() && event_pos_ok(event)
                && event_vel_ok(event) ==> r is Some,
            match r {
                Some(id) => {
                    &&& id == old(self).next_id
                    &&& final(self).next_id == old(self).next_id + 1
                    &&& final(self).bodies@.len() == old(self).bodies@.len() + 1
                    &&& {
                        let b = final(self).models().last();
                        &&& b.id == id as int
                        &&& wf_body(b)
                        &&& b.net_force == V3::zero()
                        &&& (event.pos is Some ==> b.position == event.pos.unwrap()@)
                        &&& (event.pos is None ==> b.position.in_bounds(500))
                        &&& (event.mass is Some ==> b.mass == event.mass.unwrap()@)
                        &&& (event.mass is None ==> 2 <= b.mass < 52)
                        &&& (event.vel is Some ==> b.velocity == event.vel.unwrap()@)
                        &&& (event.vel is None ==> b.velocity == orbit_velocity(
                            old(self).constants.grav_const as int,
                            b.position,
                        ))
                        &&& sum_masses(final(self).models()) == sum_masses(old(self).models())
                            + b.mass
                        &&& final(self).models() == old(self).models().push(b)
                    }
                },
                None => *final(self) == *old(self),
            },
    {
        let pos: Vec3 = match event.pos {
            Some(p) => p,
            None => {
                let x = random_in_range(-500, 500);
                let y = random_in_range(-50, 50);
                let z = random_in_range(-500, 500);
                Vec3 { x, y, z }
            },
        };
        let mass: Mass = match event.mass {
            Some(m) => m,
            None => Mass(random_in_range(2, 52)),
        };
        let vel: Velocity = match event.vel {
            Some(v) => v,
            None => {
                if pos.x < -POS_LIMIT || pos.x > POS_LIMIT || pos.y < -POS_LIMIT || pos.y
                    > POS_LIMIT || pos.z < -POS_LIMIT || pos.z > POS_LIMIT {
                    // The admission bounds would reject this position anyway.
                    return None;
                }
                self.orbit_velocity_at(pos)
            },
        };
        let r = self.admit_body(pos, vel, mass);
        r
    }

    /// The circular-orbit velocity the spawn policy assigns at `pos`:
    /// speed `floor(sqrt(G * SUN_MASS / |pos|))` along the horizontal
    /// tangent direction, rest at the origin.
    pub fn orbit_velocity_at(&self, pos: Vec3) -> (v: Velocity)
        requires
            self.constants.wf(),
            pos@.in_bounds(POS_SCAN_LIMIT as int),
        ensures
            v@ == orbit_velocity(self.constants.grav_const as int, pos@),
            v@.in_bounds(256),
    {
        proof {
            let pv = pos@;
            assert(pv.x * pv.x >= 0 && pv.x * pv.x == abs1(pv.x) * abs1(pv.x)) by (nonlinear_arith);
            assert(pv.y * pv.y >= 0 && pv.y * pv.y == abs1(pv.y) * abs1(pv.y)) by (nonlinear_arith);
            assert(pv.z * pv.z >= 0 && pv.z * pv.z == abs1(pv.z) * abs1(pv.z)) by (nonlinear_arith);
            assert(pv.x * pv.x <= 0x2000_0000int * 0x2000_0000int) by (nonlinear_arith)
                requires
                    -0x2000_0000 <= pv.x <= 0x2000_0000int,
            ;
            assert(pv.y * pv.y <= 0x2000_0000int * 0x2000_0000int) by (nonlinear_arith)
                requires
                    -0x2000_0000 <= pv.y <= 0x2000_0000int,
            ;
            assert(pv.z * pv.z <= 0x2000_0000int * 0x2000_0000int) by (nonlinear_arith)
                requires
                    -0x2000_0000 <= pv.z <= 0x2000_0000int,
            ;
        }
        let r_sq = pos.norm_sq();
        let r: i64 = isqrt_u64(r_sq as u64) as i64;
        proof {
            lemma_sqrt_floor_bounds(r_sq as int);
            assert(sqrt_floor(r_sq as int) <= 0x4000_0000int) by {
                let sf = sqrt_floor(r_sq as int);
                if sf > 0x4000_0000 {
                    assert(sf * sf > 0x4000_0000int * 0x4000_0000int) by (nonlinear_arith)
                        requires
                            sf > 0x4000_0000int,
                    ;
                }
            }
        }
        if r == 0 {
            return Velocity(Vec3::zero());
        }
        let speed_sq = div_tz_i64(self.constants.grav_const * SUN_MASS, r);
        proof {
            lemma_div_tz_bounds(self.constants.grav_const as int * 1000, r as int);
        }
        let speed: i64 = isqrt_u64(speed_sq as u64) as i64;
        proof {
            lemma_sqrt_floor_bounds(speed_sq as int);
            assert(sqrt_floor(speed_sq as int) <= 256) by {
                let sf = sqrt_floor(speed_sq as int);
                if sf > 256 {
                    assert(sf * sf > 256 * 256) by (nonlinear_arith)
                        requires
                            sf > 256,
                    ;
                }
            }
            lemma_component_le_root(pos@);
            crate::math::lemma_div_tz_scaled_bound(speed as int, pos@.z, r as int);
            crate::math::lemma_div_tz_scaled_bound(speed as int, pos@.x, r as int);
            assert(abs1((speed as int) * pos@.z) <= 0x4000_0000_0000int) by (nonlinear_arith)
                requires
                    0 <= speed as int <= 256,
                    -0x2000_0000 <= pos@.z <= 0x2000_0000int,
            ;
            assert(abs1((speed as int) * pos@.x) <= 0x4000_0000_0000int) by (nonlinear_arith)
                requires
                    0 <= speed as int <= 256,
                    -0x2000_0000 <= pos@.x <= 0x2000_0000int,
            ;
        }
        let vx = mul_div(speed, pos.z, r);
        let vz = mul_div(speed, pos.x, r);
        Velocity(Vec3 { x: vx, y: 0, z: -vz })
    }

    /// Admit one body for each spawn request of a batch, in order: the
    /// existing bodies are untouched, and the appended bodies answer the
    /// requests one by one as `batch_spawn_ok` states — each request either
    /// admitted under the next fresh id within the budget, or refused only
    /// where admission was not owed.
    pub fn spawn_planet_system(&mut self, events: &Vec<SpawnPlanetEvent>)
        requires
            old(self).wf(),
        ensures
            final(self).wf(),
            final(self).constants == old(self).constants,
            final(self).collision_groups == old(self).collision_groups,
            old(self).bodies@.len() <= final(self).bodies@.len() <= old(self).bodies@.len()
                + events@.len(),
            forall|i: int|
                0 <= i < old(self).bodies@.len() ==> #[trigger] final(self).models()[i] == old(
                    self,
                ).models()[i],
            batch_spawn_ok(
                old(self).bodies@.len() as int,
                sum_masses(old(self).models()),
                old(self).next_id as int,
                old(self).constants.grav_const as int,
                events@,
                final(self).models().skip(old(self).bodies@.len() as int),
            ),
    {
        self.spawn_batch(events, 0);
        proof {
            assert(events@.skip(0) =~= events@);
        }
    }

    /// Process the requests from index `k` on, in order.
    fn spawn_batch(&mut self, events: &Vec<SpawnPlanetEvent>, k: usize)
        requires
            old(self).wf(),
            k <= events@.len(),
        ensures
            final(self).wf(),
            final(self).constants == old(self).constants,
            final(self).collision_groups == old(self).collision_groups,
            old(self).bodies@.len() <= final(self).bodies@.len() <= old(self).bodies@.len()
                + events@.len() - k,
            forall|i: int|
                0 <= i < old(self).bodies@.len() ==> #[trigger] final(self).models()[i] == old(
                    self,
                ).models()[i],
            batch_spawn_ok(
                old(self).bodies@.len() as int,
                sum_masses(old(self).models()),
                old(self).next_id as int,
                old(self).constants.grav_const as int,
                events@.skip(k as int),
                final(self).models().skip(old(self).bodies@.len() as int),
            ),
        decreases events@.len() - k,
    {
        let ghost len0 = old(self).bodies@.len() as int;
        let ghost sum0 = sum_masses(old(self).models());
        let ghost nid0 = old(self).next_id as int;
        let ghost g = old(self).constants.grav_const as int;
        if k == events.len() {
            proof {
                assert(events@.skip(k as int) =~= Seq::<SpawnPlanetEvent>::empty());
                assert(self.models().skip(len0) =~= Seq::<BodyModel>::empty());
            }
            return ;
        }
        let ev = events[k];
        let r = self.spawn_planet(ev);
        let ghost mid = *self;
        self.spawn_batch(events, k + 1);
        proof {
            let evs = events@.skip(k as int);
            assert(evs[0] == events@[k as int]);
            assert(evs.drop_first() =~= events@.skip(k as int + 1));
            let appended = self.models().skip(len0);
            match r {
                Some(id) => {
                    let b = mid.models().last();
                    assert(mid.models() == old(self).models().push(b));
                    assert(mid.bodies@.len() as int == len0 + 1);
                    // The batch after this admission appended the rest.
                    assert(forall|i: int|
                        0 <= i < mid.bodies@.len() ==> #[trigger] self.models()[i]
                            == mid.models()[i]);
                    assert(appended.len() >= 1);
                    assert(appended[0] == self.models()[len0]);
                    assert(mid.models()[len0] == b);
                    assert(appended[0] == b);
                    assert(appended.drop_first() =~= self.models().skip(len0 + 1));
                    // The mid-state budget facts come from well-formedness.
                    assert(sum_masses(mid.models()) == sum0 + b.mass);
                    assert(sum0 + b.mass <= MASS_LIMIT);
                    assert(len0 < MAX_BODIES as int);
                    assert(nid0 < u64::MAX as int);
                    assert(spawn_outcome_ok(evs[0], b, g));
                    assert(batch_spawn_ok(
                        len0 + 1,
                        sum0 + b.mass,
                        nid0 + 1,
                        g,
                        evs.drop_first(),
                        appended.drop_first(),
                    ));
                },
                None => {
                    assert(mid == *old(self));
                    assert(spawn_refusal_ok(len0, sum0, nid0, evs[0]));
                    assert(batch_spawn_ok(len0, sum0, nid0, g, evs.drop_first(), appended));
                },
            }
        }
    }

    /// Admit `n` planets with every field left to the policy, the startup
    /// population: one `spawn_planet` outcome per request, as
    /// `batch_spawn_ok` states over `n` fully unset requests.
    pub fn spawn_planets(&mut self, n: usize)
        requires
            old(self).wf(),
        ensures
            final(self).wf(),
            final(self).constants == old(self).constants,
            final(self).collision_groups == old(self).collision_groups,
            old(self).bodies@.len() <= final(self).bodies@.len() <= old(self).bodies@.len()
                + n as int,
            forall|i: int|
                0 <= i < old(self).bodies@.len() ==> #[trigger] final(self).models()[i] == old(
                    self,
                ).models()[i],
            batch_spawn_ok(
                old(self).bodies@.len() as int,
                sum_masses(old(self).models()),
                old(self).next_id as int,
                old(self).constants.grav_const as int,
                default_events(n as int),
                final(self).models().skip(old(self).bodies@.len() as int),
            ),
    {
        let mut events: Vec<SpawnPlanetEvent> = Vec::new();
        let mut k: usize = 0;
        while k < n
            invariant
                k <= n,
                events@.len() == k,
                forall|i: int|
                    0 <= i < k ==> (#[trigger] events@[i]).pos is None && events@[i].vel is None
                        && events@[i].mass is None,
            decreases n - k,
        {
            events.push(SpawnPlanetEvent::default());
            k += 1;
        }
        proof {
            assert(events@ =~= default_events(n as int));
        }
        self.spawn_planet_system(&events);
    }
}

/// `n` fully unset spawn requests, every field left to the policy.
pub open spec fn default_events(n: int) -> Seq<SpawnPlanetEvent> {
    Seq::new(
        if n >= 0 {
            n as nat
        } else {
            0
        },
        |i: int| SpawnPlanetEvent { pos: None, vel: None, mass: None },
    )
}

/// What an admitted body must look like for the request it answered.
pub open spec fn spawn_outcome_ok(ev: SpawnPlanetEvent, b: BodyModel, g: int) -> bool {
    &&& wf_body(b)
    &&& b.net_force == V3::zero()
    &&& (ev.pos is Some ==> b.position == ev.pos.unwrap()@)
    &&& (ev.pos is None ==> b.position.in_bounds(500))
    &&& (ev.mass is Some ==> b.mass == ev.mass.unwrap()@)
    &&& (ev.mass is None ==> 2 <= b.mass < 52)
    &&& (ev.vel is Some ==> b.velocity == ev.vel.unwrap()@)
    &&& (ev.vel is None ==> b.velocity == orbit_velocity(g, b.position))
}

/// Whether refusing request `ev` at a state with `len` bodies, total mass
/// `sum` and id counter `nid` is legitimate: admission was not owed there.
pub open spec fn spawn_refusal_ok(len: int, sum: int, nid: int, ev: SpawnPlanetEvent) -> bool {
    if ev.mass is Some {
        !({
            &&& len < MAX_BODIES as int
            &&& 1 <= ev.mass.unwrap()@ <= MASS_LIMIT
            &&& sum + ev.mass.unwrap()@ <= MASS_LIMIT
            &&& nid < u64::MAX as int
            &&& event_pos_ok(ev)
            &&& event_vel_ok(ev)
        })
    } else {
        !({
            &&& len < MAX_BODIES as int
            &&& sum + 51 <= MASS_LIMIT
            &&& nid < u64::MAX as int
            &&& event_pos_ok(ev)
            &&& event_vel_ok(ev)
        })
    }
}

/// One `spawn_planet` outcome per request, in order: each request is either
/// admitted — the next appended body answers it, under the next fresh id,
/// within the arena and mass budget — or refused, and refused only where
/// admission was not owed at that point of the batch.
pub open spec fn batch_spawn_ok(
    len: int,
    sum: int,
    nid: int,
    g: int,
    events: Seq<SpawnPlanetEvent>,
    appended: Seq<BodyModel>,
) -> bool
    decreases events.len(),
{
    if events.len() == 0 {
        appended.len() == 0
    } else {
        let admitted = appended.len() > 0 && spawn_outcome_ok(events[0], appended[0], g)
            && appended[0].id == nid && len < MAX_BODIES as int && sum + appended[0].mass
            <= MASS_LIMIT && nid < u64::MAX as int && batch_spawn_ok(
            len + 1,
            sum + appended[0].mass,
            nid + 1,
            g,
            events.drop_first(),
            appended.drop_first(),
        );
        let refused = spawn_refusal_ok(len, sum, nid, events[0]) && batch_spawn_ok(
            len,
            sum,
            nid,
            g,
            events.drop_first(),
            appended,
        );
        admitted || refused
    }
}

/// `(a * b) / d` with round-toward-zero division, for `|a * b|` within range.
fn mul_div(a: i64, b: i64, d: i64) -> (q: i64)
    requires
        d >= 1,
        0 <= a,
        abs1((a as int) * (b as int)) <= 0x4000_0000_0000,
    ensures
        q as int == div_tz((a as int) * (b as int), d as int),
{
    proof {
        lemma_div_tz_bounds((a as int) * (b as int), d as int);
    }
    let p: i128 = (a as i128) * (b as i128);
    let q = div_tz_i128(p, d as i128);
    q as i64
}

/// One signed force component: `k * dc` truncation-divided by `den`, for a
/// divisor at least as large as `|dc|`.
fn force_component(k: i64, dc: i64, den: i128) -> (q: i64)
    requires
        0 <= k <= 0x4000_0000_0000,
        -0x4000_0000_0000 <= dc <= 0x4000_0000_0000,
        1 <= den,
        abs1(dc as int) <= den as int,
    ensures
        q as int == div_tz((k as int) * (dc as int), den as int),
        abs1(q as int) <= k as int,
{
    proof {
        assert(-0x1000_0000_0000_0000_0000_0000int <= (k as int) * (dc as int)
            <= 0x1000_0000_0000_0000_0000_0000int) by (nonlinear_arith)
            requires
                0 <= k as int <= 0x4000_0000_0000int,
                -0x4000_0000_0000int <= dc as int <= 0x4000_0000_0000int,
        ;
        crate::math::lemma_div_tz_scaled_bound(k as int, dc as int, den as int);
    }
    let num: i128 = (k as i128) * (dc as i128);
    let q128 = div_tz_i128(num, den);
    q128 as i64
}

} // verus!
