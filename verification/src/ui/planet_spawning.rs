//! The interactive spawn-placement mode: a small state machine that walks the
//! user from picking a point on the ecliptic plane, to raising it off the
//! plane, to choosing a radius, and finally emits a spawn request.

use crate::components::{Mass, V3, Vec3};
use crate::math::{div_tz, lemma_sqrt_floor_bounds, sqrt_floor};
use crate::planet::{mass_from_radius, mass_of_radius, SpawnPlanetEvent};
use vstd::prelude::*;

verus! {

/// Bound on the coordinates the placement interaction works with.
pub const PICK_LIMIT: i64 = 0x4_0000;

/// Where the user is in placing a new planet.
#[derive(Clone, Copy, Debug)]
pub enum PlanetSpawnMode {
    /// No placement in progress.
    Nothing,
    /// Choosing a point on the ecliptic plane.
    EclipticPosSelect,
    /// Raising the chosen point off the plane.
    HeightSelect { chosen_ecliptic_pos: Vec3 },
    /// Choosing the new planet's radius around the chosen point.
    RadiusSelect { chosen_ecliptic_pos: Vec3, chosen_pos: Vec3 },
}

impl PlanetSpawnMode {
    /// Whether no placement is in progress.
    pub fn is_nothing(&self) -> (r: bool)
        ensures
            r == (*self is Nothing),
    {
        matches!(self, PlanetSpawnMode::Nothing)
    }

    /// Step one stage back: radius selection returns to height selection,
    /// height selection to plane selection, plane selection to rest.
    pub fn go_back(&mut self)
        ensures
            *final(self) == (match *old(self) {
                PlanetSpawnMode::Nothing => PlanetSpawnMode::Nothing,
                PlanetSpawnMode::EclipticPosSelect => PlanetSpawnMode::Nothing,
                PlanetSpawnMode::HeightSelect { chosen_ecliptic_pos } => PlanetSpawnMode::EclipticPosSelect,
                PlanetSpawnMode::RadiusSelect { chosen_ecliptic_pos, chosen_pos } => PlanetSpawnMode::HeightSelect {
                    chosen_ecliptic_pos,
                },
            }),
    {
        *self = match *self {
            PlanetSpawnMode::Nothing => PlanetSpawnMode::Nothing,
            PlanetSpawnMode::EclipticPosSelect => PlanetSpawnMode::Nothing,
            PlanetSpawnMode::HeightSelect { .. } => PlanetSpawnMode::EclipticPosSelect,
            PlanetSpawnMode::RadiusSelect { chosen_ecliptic_pos, .. } => PlanetSpawnMode::HeightSelect {
                chosen_ecliptic_pos,
            },
        };
    }

    /// Every stored coordinate within the placement bound.
    pub open spec fn wf(self) -> bool {
        match self {
            PlanetSpawnMode::Nothing => true,
            PlanetSpawnMode::EclipticPosSelect => true,
            PlanetSpawnMode::HeightSelect { chosen_ecliptic_pos } => chosen_ecliptic_pos@.in_bounds(
                PICK_LIMIT as int,
            ),
            PlanetSpawnMode::RadiusSelect { chosen_ecliptic_pos, chosen_pos } => {
                chosen_ecliptic_pos@.in_bounds(PICK_LIMIT as int) && chosen_pos@.in_bounds(
                    2 * PICK_LIMIT as int,
                )
            },
        }
    }
}

/// The plane the current placement stage picks points on: the ecliptic plane
/// while choosing the base point, then planes through the chosen point facing
/// the camera. `None` when no placement is in progress.
pub fn selection_plane(mode: &PlanetSpawnMode, cam_forward: Vec3) -> (r: Option<(Vec3, Vec3)>)
    ensures
        r == (match *mode {
            PlanetSpawnMode::Nothing => None::<(Vec3, Vec3)>,
            PlanetSpawnMode::EclipticPosSelect => Some(
                (Vec3 { x: 0, y: 0, z: 0 }, Vec3 { x: 0, y: 1, z: 0 }),
            ),
            PlanetSpawnMode::HeightSelect { chosen_ecliptic_pos } => Some(
                (chosen_ecliptic_pos, cam_forward),
            ),
            PlanetSpawnMode::RadiusSelect { chosen_ecliptic_pos, chosen_pos } => Some(
                (chosen_pos, cam_forward),
            ),
        }),
{
    match *mode {
        PlanetSpawnMode::Nothing => None,
        PlanetSpawnMode::EclipticPosSelect => Some(
            (Vec3 { x: 0, y: 0, z: 0 }, Vec3 { x: 0, y: 1, z: 0 }),
        ),
        PlanetSpawnMode::HeightSelect { chosen_ecliptic_pos } => Some(
            (chosen_ecliptic_pos, cam_forward),
        ),
        PlanetSpawnMode::RadiusSelect { chosen_pos, .. } => Some((chosen_pos, cam_forward)),
    }
}

/// The radius the placement assigns for a cursor at `m` around the chosen
/// point `p`: two and a half times the square root of their distance.
pub open spec fn chosen_radius(m: V3, p: V3) -> int {
    div_tz(5 * sqrt_floor(sqrt_floor(m.sub(p).norm_sq())), 2)
}

/// One frame of the placement interaction: given the cursor's current pick
/// point on the stage's selection plane (if any) and whether the button was
/// released this frame, advance the mode and possibly emit a spawn request.
pub fn planet_spawn_interaction_system(
    mode: &mut PlanetSpawnMode,
    mouse_point: Option<Vec3>,
    clicked: bool,
) -> (ev: Option<SpawnPlanetEvent>)
    requires
        old(mode).wf(),
        mouse_point is Some ==> mouse_point.unwrap()@.in_bounds(PICK_LIMIT as int),
    ensures
        final(mode).wf(),
        *final(mode) == (match *old(mode) {
            PlanetSpawnMode::Nothing => PlanetSpawnMode::Nothing,
            PlanetSpawnMode::EclipticPosSelect => {
                if mouse_point is Some && clicked {
                    PlanetSpawnMode::HeightSelect { chosen_ecliptic_pos: mouse_point.unwrap() }
                } else {
                    PlanetSpawnMode::EclipticPosSelect
                }
            },
            PlanetSpawnMode::HeightSelect { chosen_ecliptic_pos } => {
                if mouse_point is Some && clicked {
                    PlanetSpawnMode::RadiusSelect {
                        chosen_ecliptic_pos,
                        chosen_pos: Vec3 {
                            x: chosen_ecliptic_pos.x,
                            y: ((chosen_ecliptic_pos.y + mouse_point.unwrap().y) as i64),
                            z: chosen_ecliptic_pos.z,
                        },
                    }
                } else {
                    PlanetSpawnMode::HeightSelect { chosen_ecliptic_pos }
                }
            },
            PlanetSpawnMode::RadiusSelect { chosen_ecliptic_pos, chosen_pos } => {
                if mouse_point is Some && clicked {
                    PlanetSpawnMode::Nothing
                } else {
                    PlanetSpawnMode::RadiusSelect { chosen_ecliptic_pos, chosen_pos }
                }
            },
        }),
        ev == (match *old(mode) {
            PlanetSpawnMode::RadiusSelect { chosen_ecliptic_pos, chosen_pos } => {
                if mouse_point is Some && clicked {
                    Some(
                        SpawnPlanetEvent {
                            pos: Some(chosen_pos),
                            vel: None,
                            mass: Some(
                                Mass(
                                    mass_of_radius(
                                        chosen_radius(mouse_point.unwrap()@, chosen_pos@),
                                    ) as i64,
                                ),
                            ),
                        },
                    )
                } else {
                    None::<SpawnPlanetEvent>
                }
            },
            _ => None::<SpawnPlanetEvent>,
        }),
{
    match *mode {
        PlanetSpawnMode::Nothing => None,
        PlanetSpawnMode::EclipticPosSelect => {
            match mouse_point {
                None => None,
                Some(m) => {
                    if clicked {
                        *mode = PlanetSpawnMode::HeightSelect { chosen_ecliptic_pos: m };
                    }
                    None
                },
            }
        },
        PlanetSpawnMode::HeightSelect { chosen_ecliptic_pos } => {
            match mouse_point {
                None => None,
                Some(m) => {
                    if clicked {
                        let chosen_pos = Vec3 {
                            x: chosen_ecliptic_pos.x,
                            y: chosen_ecliptic_pos.y + m.y,
                            z: chosen_ecliptic_pos.z,
                        };
                        *mode = PlanetSpawnMode::RadiusSelect { chosen_ecliptic_pos, chosen_pos };
                    }
                    None
                },
            }
        },
        PlanetSpawnMode::RadiusSelect { chosen_ecliptic_pos, chosen_pos } => {
            match mouse_point {
                None => None,
                Some(m) => {
                    if clicked {
                        let radius = placement_radius(m, chosen_pos);
                        let mass = mass_from_radius(radius);
                        *mode = PlanetSpawnMode::Nothing;
                        Some(SpawnPlanetEvent { pos: Some(chosen_pos), vel: None, mass: Some(mass) })
                    } else {
                        None
                    }
                },
            }
        },
    }
}

/// The radius for a cursor at `m` around the chosen point `p`, exactly as
/// `chosen_radius` states it.
fn placement_radius(m: Vec3, p: Vec3) -> (r: crate::components::Radius)
    requires
        m@.in_bounds(PICK_LIMIT as int),
        p@.in_bounds(2 * PICK_LIMIT as int),
    ensures
        r@ == chosen_radius(m@, p@),
        0 <= r@ <= 0x30_0000,
{
    let d = m.sub(p);
    proof {
        let dv = m@.sub(p@);
        assert(0 <= dv.x * dv.x <= 0x10_0000int * 0x10_0000int) by (nonlinear_arith)
            requires
                -0x10_0000 <= dv.x <= 0x10_0000int,
        ;
        assert(0 <= dv.y * dv.y <= 0x10_0000int * 0x10_0000int) by (nonlinear_arith)
            requires
                -0x10_0000 <= dv.y <= 0x10_0000int,
        ;
        assert(0 <= dv.z * dv.z <= 0x10_0000int * 0x10_0000int) by (nonlinear_arith)
            requires
                -0x10_0000 <= dv.z <= 0x10_0000int,
        ;
    }
    let dist_sq = d.norm_sq();
    let dist: i64 = crate::math::isqrt_u64(dist_sq as u64) as i64;
    proof {
        lemma_sqrt_floor_bounds(dist_sq as int);
        let s = sqrt_floor(dist_sq as int);
        if s > 0x100_0000 {
            assert(s * s > 0x100_0000int * 0x100_0000int) by (nonlinear_arith)
                requires
                    s > 0x100_0000int,
            ;
        }
    }
    let root: i64 = crate::math::isqrt_u64(dist as u64) as i64;
    proof {
        lemma_sqrt_floor_bounds(dist as int);
        let s = sqrt_floor(dist as int);
        if s > 0x1000 {
            assert(s * s > 0x1000int * 0x1000int) by (nonlinear_arith)
                requires
                    s > 0x1000int,
            ;
        }
        crate::math::lemma_div_tz_bounds(5 * s, 2);
    }
    crate::components::Radius(crate::math::div_tz_i64(5 * root, 2))
}

} // verus!
