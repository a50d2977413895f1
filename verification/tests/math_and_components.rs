use planets::components::{Acceleration, Force, Mass, Moment, Momentum, Radius, Time, Vec3, Velocity};
use planets::math::{div_tz_i64, icbrt_u64, isqrt_u64};

#[test]
fn isqrt_exact_values() {
    assert_eq!(isqrt_u64(0), 0);
    assert_eq!(isqrt_u64(1), 1);
    assert_eq!(isqrt_u64(3), 1);
    assert_eq!(isqrt_u64(4), 2);
    assert_eq!(isqrt_u64(99), 9);
    assert_eq!(isqrt_u64(100), 10);
    assert_eq!(isqrt_u64(8900), 94);
    assert_eq!(isqrt_u64(u64::MAX), 0xFFFF_FFFF);
}

#[test]
fn icbrt_exact_values() {
    assert_eq!(icbrt_u64(0), 0);
    assert_eq!(icbrt_u64(1), 1);
    assert_eq!(icbrt_u64(7), 1);
    assert_eq!(icbrt_u64(8), 2);
    assert_eq!(icbrt_u64(1000), 10);
    assert_eq!(icbrt_u64(1727), 11);
    assert_eq!(icbrt_u64(8192), 20);
}

#[test]
fn division_truncates_toward_zero() {
    assert_eq!(div_tz_i64(7, 2), 3);
    assert_eq!(div_tz_i64(-7, 2), -3);
    assert_eq!(div_tz_i64(0, 5), 0);
    assert_eq!(div_tz_i64(-1, 5), 0);
    assert_eq!(div_tz_i64(9, 3), 3);
    assert_eq!(div_tz_i64(-9, 3), -3);
}

#[test]
fn vector_arithmetic_componentwise() {
    let a = Vec3::new(1, -2, 3);
    let b = Vec3::new(10, 20, 30);
    assert_eq!(a.add(b), Vec3::new(11, 18, 33));
    assert_eq!(b.sub(a), Vec3::new(9, 22, 27));
    assert_eq!(a.neg(), Vec3::new(-1, 2, -3));
    assert_eq!(a.scale(-2), Vec3::new(-2, 4, -6));
    assert_eq!(a.norm_sq(), 1 + 4 + 9);
    assert_eq!(a.dot(b), 10 - 40 + 90);
    assert_eq!(Vec3::new(-7, 8, 9).div_scalar(2), Vec3::new(-3, 4, 4));
}

#[test]
fn unit_tagged_arithmetic() {
    let m = Mass(4);
    let v = Velocity(Vec3::new(3, -6, 9));
    let p: Momentum = m.times_velocity(v);
    assert_eq!(p, Momentum(Vec3::new(12, -24, 36)));
    let v_back: Velocity = p.div_mass(m);
    assert_eq!(v_back, v);

    let f = Force(Vec3::new(9, -9, 5));
    let a: Acceleration = f.div_mass(m);
    assert_eq!(a, Acceleration(Vec3::new(2, -2, 1)));
    let f_back: Force = m.times_acceleration(a);
    assert_eq!(f_back, Force(Vec3::new(8, -8, 4)));

    let dt = Time(3);
    let dv: Velocity = a.times_time(dt);
    assert_eq!(dv, Velocity(Vec3::new(6, -6, 3)));
    let dp: Momentum = f.times_time(dt);
    assert_eq!(dp, Momentum(Vec3::new(27, -27, 15)));
    let disp: Vec3 = v.times_time(dt);
    assert_eq!(disp, Vec3::new(9, -18, 27));

    let mm: Moment = m.times_vec(Vec3::new(5, 0, -5));
    assert_eq!(mm, Moment(Vec3::new(20, 0, -20)));
    assert_eq!(mm.div_mass(m), Vec3::new(5, 0, -5));

    assert_eq!(Mass(2).add(Mass(3)), Mass(5));
    assert_eq!(Radius(9).sub(Radius(4)), Radius(5));
    assert_eq!(Force::zero(), Force(Vec3::zero()));
    assert_eq!(Momentum::zero().add(p), p);
    assert_eq!(Velocity(Vec3::new(1, 1, 1)).sub(Velocity(Vec3::new(1, 1, 1))), Velocity::zero());
    assert_eq!(Time(5).add(Time(0)), Time(5));
    assert_eq!(Acceleration::zero(), Acceleration(Vec3::zero()));
    assert_eq!(Moment::zero(), Moment(Vec3::zero()));
    assert_eq!(Mass::zero(), Mass(0));
    assert_eq!(Radius::zero().add(Radius(3)), Radius(3));
    assert_eq!(Time::zero(), Time(0));
    assert_eq!(Velocity::zero(), Velocity(Vec3::zero()));
    assert_eq!(Momentum(Vec3::new(8, 8, 8)).sub(Momentum(Vec3::new(3, 2, 1))), Momentum(Vec3::new(5, 6, 7)));
    assert_eq!(Force(Vec3::new(1, 2, 3)).add(Force(Vec3::new(1, 2, 3))), Force(Vec3::new(2, 4, 6)));
    assert_eq!(Acceleration(Vec3::new(4, 4, 4)).sub(Acceleration(Vec3::new(1, 1, 1))), Acceleration(Vec3::new(3, 3, 3)));
    assert_eq!(Moment(Vec3::new(1, 0, 0)).add(Moment(Vec3::new(0, 1, 0))), Moment(Vec3::new(1, 1, 0)));
    assert_eq!(Mass(10).sub(Mass(4)), Mass(6));
    assert_eq!(Time(9).sub(Time(4)), Time(5));
}

#[test]
fn radius_mass_round_trip() {
    // Radius from mass is 3 * floor(cbrt(mass)); the round trip back lands at
    // floor(cbrt(mass))^3, never above the mass it started from.
    for &m in &[1i64, 2, 7, 8, 10, 27, 50, 1000, 2000, 8192] {
        let r = planets::planet::radius_from_mass(Mass(m));
        let c = icbrt_u64(m as u64) as i64;
        assert_eq!(r, Radius(3 * c));
        let back = planets::planet::mass_from_radius(r);
        assert_eq!(back, Mass(c * c * c));
        assert!(back.0 <= m);
        assert!((c + 1) * (c + 1) * (c + 1) > m);
    }
    assert_eq!(planets::planet::radius_from_mass(Mass(10)), Radius(6));
    assert_eq!(planets::planet::radius_from_mass(Mass(1000)), Radius(30));
}
