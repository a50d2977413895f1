use planets::components::{Force, Mass, Momentum, Radius, Time, Vec3, Velocity};
use planets::planet::collisions::{CollisionGroup, PlanetInfo};
use planets::planet::{
    compute_pair_force, AttractorState, Body, Constants, SimulationState, SpawnPlanetEvent,
};

fn body(id: u64, pos: (i64, i64, i64), vel: (i64, i64, i64), mass: i64) -> Body {
    Body {
        id,
        position: Vec3::new(pos.0, pos.1, pos.2),
        velocity: Velocity(Vec3::new(vel.0, vel.1, vel.2)),
        mass: Mass(mass),
        radius: planets::planet::radius_from_mass(Mass(mass)),
        net_force: Force::zero(),
    }
}

fn sim_with(bodies: Vec<Body>) -> SimulationState {
    let mut sim = SimulationState::new();
    let next_id = bodies.iter().map(|b| b.id).max().map_or(0, |m| m + 1);
    sim.bodies = bodies;
    sim.next_id = next_id;
    sim
}

fn inactive() -> AttractorState {
    AttractorState { active: false, position: Vec3::zero() }
}

/// Two equal masses, head-on: bodies of mass 10 at (-5,0,0) and (5,0,0) with
/// velocities (1,0,0) and (-1,0,0); their radii (6 each) guarantee overlap at
/// this spacing. After one step exactly one body survives, of mass 20, at
/// rest at the origin.
#[test]
fn two_equal_masses_head_on_merge() {
    let a = body(0, (-5, 0, 0), (1, 0, 0), 10);
    let b = body(1, (5, 0, 0), (-1, 0, 0), 10);
    assert_eq!(a.radius.0, 6);
    let mut sim = sim_with(vec![a, b]);
    sim.step(Time(1), inactive());
    assert_eq!(sim.bodies.len(), 1);
    let survivor = sim.bodies[0];
    assert_eq!(survivor.mass, Mass(20));
    assert_eq!(survivor.velocity, Velocity(Vec3::new(0, 0, 0)));
    assert_eq!(survivor.position, Vec3::new(0, 0, 0));
    // On a mass tie the second body of the pair is the surviving identity.
    assert_eq!(survivor.id, 1);
    // The radius still matches the new mass.
    assert_eq!(survivor.radius, planets::planet::radius_from_mass(Mass(20)));
    // The group table is cleared for the next step.
    assert_eq!(sim.collision_groups.groups.len(), 0);
}

/// Distant pair, no collision: two unit masses a distance 1000 apart. The
/// attraction magnitude G*1*1/1000^2 truncates to zero in integer units, and
/// no collision group is created.
#[test]
fn distant_pair_no_collision() {
    let a = body(0, (0, 0, 0), (0, 0, 0), 1);
    let b = body(1, (1000, 0, 0), (0, 0, 0), 1);
    let mut sim = sim_with(vec![a, b]);
    sim.nbody_system();
    assert_eq!(sim.collision_groups.groups.len(), 0);
    assert_eq!(sim.bodies[0].net_force, Force::zero());
    assert_eq!(sim.bodies[1].net_force, Force::zero());
}

/// A heavier distant pair: the attraction is exactly
/// G*m1*m2 / r^2 = 20 * 1000 * 1000 / 100^2 = 2000 along the connecting
/// line, equal and opposite on the two bodies (Newton's third law, exactly).
#[test]
fn distant_pair_exact_attraction() {
    let a = body(0, (0, 0, 0), (0, 0, 0), 1000);
    let b = body(1, (100, 0, 0), (0, 0, 0), 1000);
    let mut sim = sim_with(vec![a, b]);
    sim.nbody_system();
    assert_eq!(sim.collision_groups.groups.len(), 0);
    assert_eq!(sim.bodies[0].net_force, Force(Vec3::new(2000, 0, 0)));
    assert_eq!(sim.bodies[1].net_force, Force(Vec3::new(-2000, 0, 0)));

    // The same through the pairwise kernel directly, both ways around.
    let f_ab = compute_pair_force(20, 1, Mass(1000), Vec3::new(0, 0, 0), Mass(1000), Vec3::new(100, 0, 0));
    let f_ba = compute_pair_force(20, 1, Mass(1000), Vec3::new(100, 0, 0), Mass(1000), Vec3::new(0, 0, 0));
    assert_eq!(f_ab, Force(Vec3::new(2000, 0, 0)));
    assert_eq!(f_ba, Force(Vec3::new(-2000, 0, 0)));
}

/// Three equal masses at triangle vertices with zero initial velocity: the
/// accumulated forces sum to exactly zero, each body's net force points
/// toward the centroid, and after integrating, the total momentum stays at
/// zero in the symmetric components and within truncation slack in the third.
#[test]
fn three_body_symmetric_system() {
    let m: i64 = 2000;
    let a = body(0, (-100, 0, 0), (0, 0, 0), m);
    let b = body(1, (100, 0, 0), (0, 0, 0), m);
    let c = body(2, (0, 0, 150), (0, 0, 0), m);
    let mut sim = sim_with(vec![a, b, c]);
    sim.nbody_system();
    assert_eq!(sim.collision_groups.groups.len(), 0);

    let f: Vec<Vec3> = sim.bodies.iter().map(|b| b.net_force.0).collect();
    // Accumulation symmetry: internal forces cancel exactly.
    assert_eq!(f[0].x + f[1].x + f[2].x, 0);
    assert_eq!(f[0].y + f[1].y + f[2].y, 0);
    assert_eq!(f[0].z + f[1].z + f[2].z, 0);
    // The mirror symmetry holds exactly in integer arithmetic.
    assert_eq!(f[0].x, -f[1].x);
    assert_eq!(f[0].z, f[1].z);
    assert_eq!(f[2].x, 0);
    // Every net force points toward the centroid (0, 0, 50).
    let centroid = (0i64, 0i64, 50i64);
    for (i, pos) in [(-100i64, 0i64, 0i64), (100, 0, 0), (0, 0, 150)].iter().enumerate() {
        let to_c = (centroid.0 - pos.0, centroid.1 - pos.1, centroid.2 - pos.2);
        let dot = f[i].x as i128 * to_c.0 as i128 + f[i].y as i128 * to_c.1 as i128
            + f[i].z as i128 * to_c.2 as i128;
        assert!(dot > 0, "force on body {i} does not point inward");
    }

    // Integrate: the symmetric momentum components stay exactly zero; the
    // third deviates by less than one truncation unit per body.
    sim.physics_system(Time(1));
    let px: i64 = sim.bodies.iter().map(|b| b.mass.0 * b.velocity.0.x).sum();
    let py: i64 = sim.bodies.iter().map(|b| b.mass.0 * b.velocity.0.y).sum();
    let pz: i64 = sim.bodies.iter().map(|b| b.mass.0 * b.velocity.0.z).sum();
    assert_eq!(px, 0);
    assert_eq!(py, 0);
    assert!(pz.abs() < 3 * m);
    // The accumulators are exactly zero right after the integrator runs.
    for b in &sim.bodies {
        assert_eq!(b.net_force, Force::zero());
    }
}

/// Singular approach: the attractor stands one unit from a body with a
/// softening distance of 10. The force is finite and exactly saturated by
/// the softening term: |f| * eps^2 == G * m1 * m2. At exactly zero
/// separation the direction degenerates and the force is zero, never NaN.
#[test]
fn singular_approach_is_softened() {
    let mut sim = sim_with(vec![body(0, (0, 0, 0), (0, 0, 0), 100)]);
    sim.constants = Constants { mouse_spring_strength: 100, grav_const: 20, min_attraction_dist: 10 };
    sim.attractor_system(AttractorState { active: true, position: Vec3::new(1, 0, 0) });
    let f = sim.bodies[0].net_force.0;
    assert_eq!(f, Vec3::new(2000, 0, 0));
    // Softening bound, here with equality: 2000 * 10^2 == 20 * 100 * 100.
    assert_eq!(f.x * sim.constants.min_attraction_dist * sim.constants.min_attraction_dist, 20 * 100 * 100);

    // Attractor exactly on top of the body: normalize-or-zero gives rest.
    let mut sim2 = sim_with(vec![body(0, (0, 0, 0), (0, 0, 0), 100)]);
    sim2.attractor_system(AttractorState { active: true, position: Vec3::new(0, 0, 0) });
    assert_eq!(sim2.bodies[0].net_force, Force::zero());

    // An inactive attractor contributes exactly nothing.
    let mut sim3 = sim_with(vec![body(0, (5, 5, 5), (0, 0, 0), 100)]);
    sim3.attractor_system(AttractorState { active: false, position: Vec3::new(1, 0, 0) });
    assert_eq!(sim3.bodies[0].net_force, Force::zero());
    assert_eq!(sim3.bodies[0].position, Vec3::new(5, 5, 5));
}

/// The integrator is exact forward Euler over the integers, and leaves every
/// accumulator at exactly zero.
#[test]
fn integrator_exact_and_zeroes_accumulator() {
    let mut b = body(0, (10, 0, 0), (3, 0, 0), 2);
    b.net_force = Force(Vec3::new(5, -5, 0));
    let mut sim = sim_with(vec![b]);
    sim.physics_system(Time(2));
    let after = sim.bodies[0];
    // acc = (trunc(5/2), trunc(-5/2), 0) = (2, -2, 0): division rounds toward
    // zero. v = (3 + 2*2, 0 - 2*2, 0) = (7, -4, 0); pos = (10 + 7*2, -4*2, 0).
    assert_eq!(after.velocity, Velocity(Vec3::new(7, -4, 0)));
    assert_eq!(after.position, Vec3::new(24, -8, 0));
    assert_eq!(after.net_force, Force::zero());
    assert_eq!(after.mass, Mass(2));
}

/// A lone body exerts no force on itself and forms no group.
#[test]
fn no_self_interaction() {
    let mut sim = sim_with(vec![body(0, (7, 8, 9), (1, 2, 3), 50)]);
    sim.nbody_system();
    assert_eq!(sim.bodies[0].net_force, Force::zero());
    assert_eq!(sim.collision_groups.groups.len(), 0);
    assert_eq!(sim.bodies[0].position, Vec3::new(7, 8, 9));
}

/// Group totals are pure summations: the total mass is exactly the sum, and
/// the resolved velocity conserves momentum up to the sub-unit truncation of
/// the final division.
#[test]
fn group_totals_conserve_mass_and_momentum() {
    let grp = CollisionGroup {
        largest: PlanetInfo {
            entity: 0,
            mass: Mass(10),
            vel: Velocity(Vec3::new(3, 0, 0)),
            pos: Vec3::new(0, 0, 0),
        },
        members: vec![
            PlanetInfo {
                entity: 1,
                mass: Mass(5),
                vel: Velocity(Vec3::new(-2, 4, 0)),
                pos: Vec3::new(10, 0, 0),
            },
            PlanetInfo {
                entity: 2,
                mass: Mass(5),
                vel: Velocity(Vec3::new(0, 0, 6)),
                pos: Vec3::new(-10, 10, 0),
            },
        ],
    };
    let (tm, mom, mmt) = grp.totals();
    assert_eq!(tm, Mass(20));
    assert_eq!(mom, Momentum(Vec3::new(20, 20, 30)));
    let new_v = mom.div_mass(tm);
    assert_eq!(new_v, Velocity(Vec3::new(1, 1, 1)));
    // Momentum conservation to truncation: |v_i * M - p_i| < M.
    for (v, p) in [(1i64, 20i64), (1, 20), (1, 30)] {
        assert!((v * tm.0 - p).abs() < tm.0);
    }
    // Center of mass.
    assert_eq!(mmt.div_mass(tm), Vec3::new(0, 2, 0));
}

/// A full merge through the engine conserves total mass exactly.
#[test]
fn merge_conserves_total_mass() {
    // Three bodies: two overlapping around the origin, one far away.
    let a = body(0, (0, 0, 0), (4, 0, 0), 100);
    let b = body(1, (3, 0, 0), (-2, 0, 0), 200);
    let c = body(2, (5000, 0, 0), (0, 0, 0), 50);
    let mut sim = sim_with(vec![a, b, c]);
    let before = sim.total_mass();
    sim.step(Time(1), inactive());
    let after = sim.total_mass();
    assert_eq!(before, after);
    assert_eq!(sim.bodies.len(), 2);
    // The heavier body of the pair survives.
    assert_eq!(sim.bodies[0].id, 1);
    assert_eq!(sim.bodies[0].mass, Mass(300));
    assert_eq!(sim.bodies[1].id, 2);
}

/// Identities are stable: a surviving body keeps its id across steps.
#[test]
fn ids_stable_across_steps() {
    let a = body(0, (-200, 0, 0), (0, 0, 0), 1000);
    let b = body(1, (200, 0, 0), (0, 0, 0), 1000);
    let mut sim = sim_with(vec![a, b]);
    for _ in 0..5 {
        sim.step(Time(1), inactive());
        if sim.bodies.len() == 2 {
            assert_eq!(sim.bodies[0].id, 0);
            assert_eq!(sim.bodies[1].id, 1);
        }
        // Radius-mass consistency holds for every body at all times.
        for bd in &sim.bodies {
            assert_eq!(bd.radius, planets::planet::radius_from_mass(bd.mass));
        }
    }
}

/// Spawning with every field set admits exactly that body; invalid values
/// are rejected and leave the state untouched.
#[test]
fn spawn_and_admission_rules() {
    let mut sim = SimulationState::new();
    let id = sim.spawn_sun();
    assert_eq!(id, Some(0));
    assert_eq!(sim.bodies.len(), 1);
    assert_eq!(sim.bodies[0].mass, Mass(1000));
    assert_eq!(sim.bodies[0].position, Vec3::zero());
    assert_eq!(sim.bodies[0].radius, Radius(30));

    let ev = SpawnPlanetEvent {
        pos: Some(Vec3::new(100, 0, 0)),
        vel: Some(Velocity(Vec3::new(0, 0, -14))),
        mass: Some(Mass(50)),
    };
    let id2 = sim.spawn_planet(ev);
    assert_eq!(id2, Some(1));
    let b = sim.bodies[1];
    assert_eq!(b.position, Vec3::new(100, 0, 0));
    assert_eq!(b.velocity, Velocity(Vec3::new(0, 0, -14)));
    assert_eq!(b.mass, Mass(50));
    assert_eq!(b.net_force, Force::zero());

    // Zero and negative masses are rejected.
    assert_eq!(sim.admit_body(Vec3::zero(), Velocity::zero(), Mass(0)), None);
    assert_eq!(sim.admit_body(Vec3::zero(), Velocity::zero(), Mass(-5)), None);
    // A mass that would break the total budget is rejected.
    let mut sim2 = SimulationState::new();
    assert!(sim2.admit_body(Vec3::zero(), Velocity::zero(), Mass(8000)).is_some());
    assert_eq!(sim2.admit_body(Vec3::new(9, 9, 9), Velocity::zero(), Mass(8000)), None);
    assert_eq!(sim2.bodies.len(), 1);
    // An out-of-range position is rejected.
    let far = Vec3::new(0x800_0000, 0, 0);
    assert_eq!(sim2.admit_body(far, Velocity::zero(), Mass(1)), None);
}

/// Unset spawn fields are filled by the documented policy.
#[test]
fn spawn_policy_fills_unset_fields() {
    let mut sim = SimulationState::new();
    sim.spawn_sun().unwrap();
    for _ in 0..20 {
        let id = sim.spawn_planet(SpawnPlanetEvent { pos: None, vel: None, mass: None });
        let id = id.expect("policy spawn within budget must be admitted");
        let b = *sim.bodies.last().unwrap();
        assert_eq!(b.id, id);
        assert!(b.mass.0 >= 2 && b.mass.0 < 52, "policy mass out of range: {}", b.mass.0);
        assert!(b.position.x.abs() <= 500 && b.position.y.abs() <= 500 && b.position.z.abs() <= 500);
        assert_eq!(b.radius, planets::planet::radius_from_mass(b.mass));
    }
    assert_eq!(sim.bodies.len(), 21);

    // The batch interface admits one body per request.
    let mut sim2 = SimulationState::new();
    let events = vec![SpawnPlanetEvent::default(); 5];
    sim2.spawn_planet_system(&events);
    assert_eq!(sim2.bodies.len(), 5);
    let mut sim3 = SimulationState::new();
    sim3.spawn_planets(25);
    assert_eq!(sim3.bodies.len(), 25);
}

/// The orbit-velocity policy: at (100, 0, 0) around the default sun the
/// speed is floor(sqrt(20 * 1000 / 100)) = 14, tangent to the radius.
#[test]
fn orbit_velocity_policy_exact() {
    let sim = SimulationState::new();
    let v = sim.orbit_velocity_at(Vec3::new(100, 0, 0));
    assert_eq!(v, Velocity(Vec3::new(0, 0, -14)));
    let v2 = sim.orbit_velocity_at(Vec3::new(0, 0, 100));
    assert_eq!(v2, Velocity(Vec3::new(14, 0, 0)));
    // Rest at degenerate separation.
    assert_eq!(sim.orbit_velocity_at(Vec3::zero()), Velocity::zero());
}

/// A small system keeps its total mass through many steps, whatever merges
/// happen along the way.
#[test]
fn long_run_mass_conservation() {
    let mut sim = SimulationState::new();
    sim.spawn_sun().unwrap();
    sim.spawn_planets(25);
    let before = sim.total_mass();
    for _ in 0..50 {
        sim.step(Time(1), inactive());
    }
    assert_eq!(sim.total_mass(), before);
    // Invariants hold throughout: positive masses, consistent radii.
    for b in &sim.bodies {
        assert!(b.mass.0 >= 1);
        assert_eq!(b.radius, planets::planet::radius_from_mass(b.mass));
    }
}

/// A step with an active attractor pulls a body toward the attractor point.
#[test]
fn step_with_active_attractor() {
    let mut sim = sim_with(vec![body(0, (0, 0, 0), (0, 0, 0), 1)]);
    let att = AttractorState { active: true, position: Vec3::new(10, 0, 0) };
    // First step: the attractor loads the accumulator with
    // 20 * 1 * 100 * 10 / (10 * 100) = 20; the second step integrates it.
    sim.step(Time(1), att);
    assert_eq!(sim.bodies[0].net_force, Force(Vec3::new(20, 0, 0)));
    sim.step(Time(1), att);
    let after = sim.bodies[0];
    // The body moved toward the attractor and nowhere else.
    assert_eq!(after.velocity, Velocity(Vec3::new(20, 0, 0)));
    assert_eq!(after.position, Vec3::new(20, 0, 0));
    assert_eq!(after.mass, Mass(1));
}

/// Step leaves the group table empty and reports snapshots for rendering.
#[test]
fn snapshots_after_step() {
    let a = body(0, (-50, 0, 0), (0, 1, 0), 100);
    let b = body(1, (50, 0, 0), (0, -1, 0), 100);
    let mut sim = sim_with(vec![a, b]);
    sim.step(Time(1), inactive());
    let snap = sim.snapshot();
    assert_eq!(snap.len(), sim.bodies.len());
    for (s, b) in snap.iter().zip(sim.bodies.iter()) {
        assert_eq!(s.id, b.id);
        assert_eq!(s.position, b.position);
        assert_eq!(s.mass, b.mass);
        assert_eq!(s.radius, b.radius);
        assert_eq!(s.velocity, b.velocity);
    }
    assert_eq!(sim.collision_groups.groups.len(), 0);
}

