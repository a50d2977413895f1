//! Unit-tagged quantity types over an exact integer world: scalars (`Mass`,
//! `Radius`, `Time`) and 3-vectors (`Velocity`, `Force`, `Momentum`, `Moment`,
//! `Acceleration`) with arithmetic defined only where it is physically
//! meaningful, so a `Force` can never be added to a `Velocity`.

use crate::math::{div_tz, div_tz_i64};
use vstd::prelude::*;

verus! {

/// Mathematical model of a 3-vector: unbounded integer components.
pub ghost struct V3 {
    pub x: int,
    pub y: int,
    pub z: int,
}

impl V3 {
    pub open spec fn zero() -> V3 {
        V3 { x: 0, y: 0, z: 0 }
    }

    pub open spec fn add(self, o: V3) -> V3 {
        V3 { x: self.x + o.x, y: self.y + o.y, z: self.z + o.z }
    }

    pub open spec fn sub(self, o: V3) -> V3 {
        V3 { x: self.x - o.x, y: self.y - o.y, z: self.z - o.z }
    }

    pub open spec fn neg(self) -> V3 {
        V3 { x: -self.x, y: -self.y, z: -self.z }
    }

    /// Componentwise scaling by an integer factor.
    pub open spec fn scale(self, k: int) -> V3 {
        V3 { x: k * self.x, y: k * self.y, z: k * self.z }
    }

    /// Componentwise truncating division by a positive integer.
    pub open spec fn div_all(self, d: int) -> V3 {
        V3 { x: div_tz(self.x, d), y: div_tz(self.y, d), z: div_tz(self.z, d) }
    }

    /// Squared Euclidean length.
    pub open spec fn norm_sq(self) -> int {
        self.x * self.x + self.y * self.y + self.z * self.z
    }

    /// Dot product.
    pub open spec fn dot(self, o: V3) -> int {
        self.x * o.x + self.y * o.y + self.z * o.z
    }

    /// Every component within `[-b, b]`.
    pub open spec fn in_bounds(self, b: int) -> bool {
        -b <= self.x <= b && -b <= self.y <= b && -b <= self.z <= b
    }
}

/// A value representable as an `i64`.
pub open spec fn fits64(n: int) -> bool {
    i64::MIN <= n <= i64::MAX
}

/// All three components representable as `i64`.
pub open spec fn v3_fits64(v: V3) -> bool {
    fits64(v.x) && fits64(v.y) && fits64(v.z)
}

/// An executable 3-vector of `i64` components.
#[derive(Clone, Copy, Debug, PartialEq, Eq, Structural)]
pub struct Vec3 {
    pub x: i64,
    pub y: i64,
    pub z: i64,
}

impl View for Vec3 {
    type V = V3;

    open spec fn view(&self) -> V3 {
        V3 { x: self.x as int, y: self.y as int, z: self.z as int }
    }
}

impl Vec3 {
    pub fn new(x: i64, y: i64, z: i64) -> (r: Vec3)
        ensures
            r@ == (V3 { x: x as int, y: y as int, z: z as int }),
    {
        Vec3 { x, y, z }
    }

    pub fn zero() -> (r: Vec3)
        ensures
            r@ == V3::zero(),
    {
        Vec3 { x: 0, y: 0, z: 0 }
    }

    pub fn add(self, o: Vec3) -> (r: Vec3)
        requires
            v3_fits64(self@.add(o@)),
        ensures
            r@ == self@.add(o@),
    {
        Vec3 { x: self.x + o.x, y: self.y + o.y, z: self.z + o.z }
    }

    pub fn sub(self, o: Vec3) -> (r: Vec3)
        requires
            v3_fits64(self@.sub(o@)),
        ensures
            r@ == self@.sub(o@),
    {
        Vec3 { x: self.x - o.x, y: self.y - o.y, z: self.z - o.z }
    }

    pub fn neg(self) -> (r: Vec3)
        requires
            v3_fits64(self@.neg()),
        ensures
            r@ == self@.neg(),
    {
        Vec3 { x: -self.x, y: -self.y, z: -self.z }
    }

    pub fn scale(self, k: i64) -> (r: Vec3)
        requires
            v3_fits64(self@.scale(k as int)),
        ensures
            r@ == self@.scale(k as int),
    {
        let x = (k as i128) * (self.x as i128);
        let y = (k as i128) * (self.y as i128);
        let z = (k as i128) * (self.z as i128);
        Vec3 { x: x as i64, y: y as i64, z: z as i64 }
    }

    pub fn div_scalar(self, d: i64) -> (r: Vec3)
        requires
            d >= 1,
            self.x > i64::MIN,
            self.y > i64::MIN,
            self.z > i64::MIN,
        ensures
            r@ == self@.div_all(d as int),
    {
        Vec3 {
            x: div_tz_i64(self.x, d),
            y: div_tz_i64(self.y, d),
            z: div_tz_i64(self.z, d),
        }
    }

    /// Dot product; exact, no overflow for components within `[-2^30, 2^30]`.
    pub fn dot(self, o: Vec3) -> (r: i64)
        requires
            self@.in_bounds(0x4000_0000),
            o@.in_bounds(0x4000_0000),
        ensures
            r as int == self@.dot(o@),
    {
        proof {
            let a = self@;
            let b = o@;
            assert(-0x4000_0000int * 0x4000_0000int <= a.x * b.x <= 0x4000_0000int
                * 0x4000_0000int) by (nonlinear_arith)
                requires
                    -0x4000_0000 <= a.x <= 0x4000_0000int,
                    -0x4000_0000 <= b.x <= 0x4000_0000int,
            ;
            assert(-0x4000_0000int * 0x4000_0000int <= a.y * b.y <= 0x4000_0000int
                * 0x4000_0000int) by (nonlinear_arith)
                requires
                    -0x4000_0000 <= a.y <= 0x4000_0000int,
                    -0x4000_0000 <= b.y <= 0x4000_0000int,
            ;
            assert(-0x4000_0000int * 0x4000_0000int <= a.z * b.z <= 0x4000_0000int
                * 0x4000_0000int) by (nonlinear_arith)
                requires
                    -0x4000_0000 <= a.z <= 0x4000_0000int,
                    -0x4000_0000 <= b.z <= 0x4000_0000int,
            ;
        }
        let x = (self.x as i128) * (o.x as i128);
        let y = (self.y as i128) * (o.y as i128);
        let z = (self.z as i128) * (o.z as i128);
        (x + y + z) as i64
    }

    /// Squared Euclidean length; exact, no overflow for components within
    /// `[-2^30, 2^30]`.
    pub fn norm_sq(self) -> (r: i64)
        requires
            self@.in_bounds(0x4000_0000),
        ensures
            r as int == self@.norm_sq(),
            r >= 0,
    {
        proof {
            let v = self@;
            assert(0 <= v.x * v.x <= 0x4000_0000int * 0x4000_0000int) by (nonlinear_arith)
                requires
                    -0x4000_0000 <= v.x <= 0x4000_0000int,
            ;
            assert(0 <= v.y * v.y <= 0x4000_0000int * 0x4000_0000int) by (nonlinear_arith)
                requires
                    -0x4000_0000 <= v.y <= 0x4000_0000int,
            ;
            assert(0 <= v.z * v.z <= 0x4000_0000int * 0x4000_0000int) by (nonlinear_arith)
                requires
                    -0x4000_0000 <= v.z <= 0x4000_0000int,
            ;
        }
        let x = (self.x as i128) * (self.x as i128);
        let y = (self.y as i128) * (self.y as i128);
        let z = (self.z as i128) * (self.z as i128);
        (x + y + z) as i64
    }
}

/// A mass: a strictly positive scalar wherever a body holds it.
#[derive(Clone, Copy, Debug, PartialEq, Eq, Structural)]
pub struct Mass(pub i64);

/// A sphere radius, kept consistent with the owning body's mass.
#[derive(Clone, Copy, Debug, PartialEq, Eq, Structural)]
pub struct Radius(pub i64);

/// A timestep length.
#[derive(Clone, Copy, Debug, PartialEq, Eq, Structural)]
pub struct Time(pub i64);

/// A velocity vector.
#[derive(Clone, Copy, Debug, PartialEq, Eq, Structural)]
pub struct Velocity(pub Vec3);

/// A force vector (also used as a per-body net-force accumulator).
#[derive(Clone, Copy, Debug, PartialEq, Eq, Structural)]
pub struct Force(pub Vec3);

/// Linear momentum: mass times velocity.
#[derive(Clone, Copy, Debug, PartialEq, Eq, Structural)]
pub struct Momentum(pub Vec3);

/// A mass moment: mass times position, summed toward a center of mass.
#[derive(Clone, Copy, Debug, PartialEq, Eq, Structural)]
pub struct Moment(pub Vec3);

/// An acceleration vector.
#[derive(Clone, Copy, Debug, PartialEq, Eq, Structural)]
pub struct Acceleration(pub Vec3);

impl View for Mass {
    type V = int;

    open spec fn view(&self) -> int {
        self.0 as int
    }
}

impl View for Radius {
    type V = int;

    open spec fn view(&self) -> int {
        self.0 as int
    }
}

impl View for Time {
    type V = int;

    open spec fn view(&self) -> int {
        self.0 as int
    }
}

impl View for Velocity {
    type V = V3;

    open spec fn view(&self) -> V3 {
        self.0@
    }
}

impl View for Force {
    type V = V3;

    open spec fn view(&self) -> V3 {
        self.0@
    }
}

impl View for Momentum {
    type V = V3;

    open spec fn view(&self) -> V3 {
        self.0@
    }
}

impl View for Moment {
    type V = V3;

    open spec fn view(&self) -> V3 {
        self.0@
    }
}

impl View for Acceleration {
    type V = V3;

    open spec fn view(&self) -> V3 {
        self.0@
    }
}

impl Mass {
    pub fn zero() -> (r: Mass)
        ensures
            r@ == 0,
    {
        Mass(0)
    }

    pub fn add(self, o: Mass) -> (r: Mass)
        requires
            fits64(self@ + o@),
        ensures
            r@ == self@ + o@,
    {
        Mass(self.0 + o.0)
    }

    pub fn sub(self, o: Mass) -> (r: Mass)
        requires
            fits64(self@ - o@),
        ensures
            r@ == self@ - o@,
    {
        Mass(self.0 - o.0)
    }

    /// Mass times velocity gives momentum.
    pub fn times_velocity(self, v: Velocity) -> (r: Momentum)
        requires
            v3_fits64(v@.scale(self@)),
        ensures
            r@ == v@.scale(self@),
    {
        Momentum(v.0.scale(self.0))
    }

    /// Mass times a position vector gives a mass moment.
    pub fn times_vec(self, p: Vec3) -> (r: Moment)
        requires
            v3_fits64(p@.scale(self@)),
        ensures
            r@ == p@.scale(self@),
    {
        Moment(p.scale(self.0))
    }

    /// Mass times acceleration gives force.
    pub fn times_acceleration(self, a: Acceleration) -> (r: Force)
        requires
            v3_fits64(a@.scale(self@)),
        ensures
            r@ == a@.scale(self@),
    {
        Force(a.0.scale(self.0))
    }
}

impl Radius {
    pub fn zero() -> (r: Radius)
        ensures
            r@ == 0,
    {
        Radius(0)
    }

    pub fn add(self, o: Radius) -> (r: Radius)
        requires
            fits64(self@ + o@),
        ensures
            r@ == self@ + o@,
    {
        Radius(self.0 + o.0)
    }

    pub fn sub(self, o: Radius) -> (r: Radius)
        requires
            fits64(self@ - o@),
        ensures
            r@ == self@ - o@,
    {
        Radius(self.0 - o.0)
    }
}

impl Time {
    pub fn zero() -> (r: Time)
        ensures
            r@ == 0,
    {
        Time(0)
    }

    pub fn add(self, o: Time) -> (r: Time)
        requires
            fits64(self@ + o@),
        ensures
            r@ == self@ + o@,
    {
        Time(self.0 + o.0)
    }

    pub fn sub(self, o: Time) -> (r: Time)
        requires
            fits64(self@ - o@),
        ensures
            r@ == self@ - o@,
    {
        Time(self.0 - o.0)
    }
}

impl Velocity {
    pub fn zero() -> (r: Velocity)
        ensures
            r@ == V3::zero(),
    {
        Velocity(Vec3::zero())
    }

    pub fn add(self, o: Velocity) -> (r: Velocity)
        requires
            v3_fits64(self@.add(o@)),
        ensures
            r@ == self@.add(o@),
    {
        Velocity(self.0.add(o.0))
    }

    pub fn sub(self, o: Velocity) -> (r: Velocity)
        requires
            v3_fits64(self@.sub(o@)),
        ensures
            r@ == self@.sub(o@),
    {
        Velocity(self.0.sub(o.0))
    }

    /// Velocity times a timestep gives a displacement vector.
    pub fn times_time(self, t: Time) -> (r: Vec3)
        requires
            v3_fits64(self@.scale(t@)),
        ensures
            r@ == self@.scale(t@),
    {
        self.0.scale(t.0)
    }
}

impl Force {
    pub fn zero() -> (r: Force)
        ensures
            r@ == V3::zero(),
    {
        Force(Vec3::zero())
    }

    pub fn add(self, o: Force) -> (r: Force)
        requires
            v3_fits64(self@.add(o@)),
        ensures
            r@ == self@.add(o@),
    {
        Force(self.0.add(o.0))
    }

    pub fn sub(self, o: Force) -> (r: Force)
        requires
            v3_fits64(self@.sub(o@)),
        ensures
            r@ == self@.sub(o@),
    {
        Force(self.0.sub(o.0))
    }

    /// Force divided by mass gives acceleration (truncating).
    pub fn div_mass(self, m: Mass) -> (r: Acceleration)
        requires
            m@ >= 1,
            self.0.x > i64::MIN,
            self.0.y > i64::MIN,
            self.0.z > i64::MIN,
        ensures
            r@ == self@.div_all(m@),
    {
        Acceleration(self.0.div_scalar(m.0))
    }

    /// Force applied over a timestep gives momentum.
    pub fn times_time(self, t: Time) -> (r: Momentum)
        requires
            v3_fits64(self@.scale(t@)),
        ensures
            r@ == self@.scale(t@),
    {
        Momentum(self.0.scale(t.0))
    }
}

impl Momentum {
    pub fn zero() -> (r: Momentum)
        ensures
            r@ == V3::zero(),
    {
        Momentum(Vec3::zero())
    }

    pub fn add(self, o: Momentum) -> (r: Momentum)
        requires
            v3_fits64(self@.add(o@)),
        ensures
            r@ == self@.add(o@),
    {
        Momentum(self.0.add(o.0))
    }

    pub fn sub(self, o: Momentum) -> (r: Momentum)
        requires
            v3_fits64(self@.sub(o@)),
        ensures
            r@ == self@.sub(o@),
    {
        Momentum(self.0.sub(o.0))
    }

    /// Momentum divided by mass gives velocity (truncating).
    pub fn div_mass(self, m: Mass) -> (r: Velocity)
        requires
            m@ >= 1,
            self.0.x > i64::MIN,
            self.0.y > i64::MIN,
            self.0.z > i64::MIN,
        ensures
            r@ == self@.div_all(m@),
    {
        Velocity(self.0.div_scalar(m.0))
    }
}

impl Moment {
    pub fn zero() -> (r: Moment)
        ensures
            r@ == V3::zero(),
    {
        Moment(Vec3::zero())
    }

    pub fn add(self, o: Moment) -> (r: Moment)
        requires
            v3_fits64(self@.add(o@)),
        ensures
            r@ == self@.add(o@),
    {
        Moment(self.0.add(o.0))
    }

    pub fn sub(self, o: Moment) -> (r: Moment)
        requires
            v3_fits64(self@.sub(o@)),
        ensures
            r@ == self@.sub(o@),
    {
        Moment(self.0.sub(o.0))
    }

    /// A mass moment divided by total mass gives a position: the center of
    /// mass (truncating).
    pub fn div_mass(self, m: Mass) -> (r: Vec3)
        requires
            m@ >= 1,
            self.0.x > i64::MIN,
            self.0.y > i64::MIN,
            self.0.z > i64::MIN,
        ensures
            r@ == self@.div_all(m@),
    {
        self.0.div_scalar(m.0)
    }
}

impl Acceleration {
    pub fn zero() -> (r: Acceleration)
        ensures
            r@ == V3::zero(),
    {
        Acceleration(Vec3::zero())
    }

    pub fn add(self, o: Acceleration) -> (r: Acceleration)
        requires
            v3_fits64(self@.add(o@)),
        ensures
            r@ == self@.add(o@),
    {
        Acceleration(self.0.add(o.0))
    }

    pub fn sub(self, o: Acceleration) -> (r: Acceleration)
        requires
            v3_fits64(self@.sub(o@)),
        ensures
            r@ == self@.sub(o@),
    {
        Acceleration(self.0.sub(o.0))
    }

    /// Acceleration applied over a timestep gives a velocity change.
    pub fn times_time(self, t: Time) -> (r: Velocity)
        requires
            v3_fits64(self@.scale(t@)),
        ensures
            r@ == self@.scale(t@),
    {
        Velocity(self.0.scale(t.0))
    }
}

} // verus!
