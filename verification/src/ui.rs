//! UI-facing state and decisions: panel toggles, spawn shortcuts, constant
//! edits, and the mouse ray used to pick world points.

pub mod planet_spawning;

use crate::components::{V3, Vec3};
use crate::math::{div_tz, div_tz_i64, lemma_div_tz_bounds};
use crate::planet::SpawnPlanetEvent;
use crate::ui::planet_spawning::PlanetSpawnMode;
use vstd::prelude::*;

verus! {

/// Bound on the coordinates a ray query works with.
pub const RAY_LIMIT: i64 = 0x4_0000;

/// Persistent UI state.
#[derive(Clone, Copy, Debug)]
pub struct UiState {
    pub right_panel_open: bool,
    pub world_inspector_open: bool,
    pub new_planet_pos: Vec3,
}

impl Default for UiState {
    /// Both panels closed, no spawn position chosen yet.
    fn default() -> (r: UiState)
        ensures
            !r.right_panel_open,
            !r.world_inspector_open,
            r.new_planet_pos@ == V3::zero(),
    {
        UiState {
            right_panel_open: false,
            world_inspector_open: false,
            new_planet_pos: Vec3 { x: 0, y: 0, z: 0 },
        }
    }
}

/// One frame's worth of UI input: which shortcuts were pressed and which
/// panel buttons were clicked.
#[derive(Clone, Copy, Debug, PartialEq, Eq, Structural)]
pub struct UiInput {
    /// Toggle the world inspector.
    pub key_w: bool,
    /// Toggle the right panel.
    pub key_p: bool,
    /// Spawn one planet with every field left to the policy.
    pub key_r: bool,
    /// Enter spawn-placement mode.
    pub key_s: bool,
    /// Step the placement mode back.
    pub key_escape: bool,
    /// The panel's close button.
    pub close_panel_clicked: bool,
    /// The panel's inspector toggle button.
    pub inspector_button_clicked: bool,
    /// The panel's random-spawn button.
    pub spawn_random_clicked: bool,
    /// The panel's spawn-at-mouse button.
    pub spawn_at_mouse_clicked: bool,
}

/// The new-planet position the panel's random-spawn button picks: a point
/// drawn from the spawn box, every coordinate in `[-600, 600)`.
pub open spec fn random_spawn_pos_ok(p: V3) -> bool {
    p.in_bounds(600)
}

/// One frame of the root UI: apply the keyboard shortcuts and panel clicks to
/// the UI state and the placement mode, and emit the requested spawn events
/// in order (the shortcut spawn first, then the panel's random spawn).
pub fn root_ui_system(state: &mut UiState, mode: &mut PlanetSpawnMode, input: UiInput) -> (evs:
    Vec<SpawnPlanetEvent>)
    ensures
        final(state).world_inspector_open == (old(state).world_inspector_open ^ (input.key_w
            ^ input.inspector_button_clicked)),
        final(state).right_panel_open == (if input.close_panel_clicked {
            false
        } else {
            old(state).right_panel_open ^ input.key_p
        }),
        *final(mode) == (if input.key_s || input.spawn_at_mouse_clicked {
            PlanetSpawnMode::EclipticPosSelect
        } else if input.key_escape {
            match *old(mode) {
                PlanetSpawnMode::Nothing => PlanetSpawnMode::Nothing,
                PlanetSpawnMode::EclipticPosSelect => PlanetSpawnMode::Nothing,
                PlanetSpawnMode::HeightSelect { chosen_ecliptic_pos } => PlanetSpawnMode::EclipticPosSelect,
                PlanetSpawnMode::RadiusSelect { chosen_ecliptic_pos, chosen_pos } => PlanetSpawnMode::HeightSelect {
                    chosen_ecliptic_pos,
                },
            }
        } else {
            *old(mode)
        }),
        evs@.len() == (if input.key_r {
            1int
        } else {
            0int
        }) + (if input.spawn_random_clicked {
            1int
        } else {
            0int
        }),
        input.key_r ==> evs@[0].pos is None && evs@[0].vel is None && evs@[0].mass is None,
        input.spawn_random_clicked ==> {
            let ev = evs@[evs@.len() - 1];
            &&& ev.pos is Some
            &&& random_spawn_pos_ok(ev.pos.unwrap()@)
            &&& ev.pos.unwrap() == final(state).new_planet_pos
            &&& ev.vel is None
            &&& ev.mass is None
        },
        input.spawn_random_clicked ==> random_spawn_pos_ok(final(state).new_planet_pos@),
        !input.spawn_random_clicked ==> final(state).new_planet_pos == old(state).new_planet_pos,
        old(mode).wf() ==> final(mode).wf(),
{
    let mut evs: Vec<SpawnPlanetEvent> = Vec::new();
    if input.key_w {
        state.world_inspector_open = !state.world_inspector_open;
    }
    if input.key_p {
        state.right_panel_open = !state.right_panel_open;
    }
    if input.key_r {
        evs.push(SpawnPlanetEvent::default());
    }
    if input.close_panel_clicked {
        state.right_panel_open = false;
    }
    if input.inspector_button_clicked {
        state.world_inspector_open = !state.world_inspector_open;
    }
    if input.spawn_random_clicked {
        let pos = crate::planet::random_spawn_position();
        state.new_planet_pos = pos;
        evs.push(SpawnPlanetEvent { pos: Some(pos), vel: None, mass: None });
    }
    if input.key_escape {
        mode.go_back();
    }
    if input.key_s || input.spawn_at_mouse_clicked {
        *mode = PlanetSpawnMode::EclipticPosSelect;
    }
    evs
}

/// A ray in world space.
#[derive(Clone, Copy, Debug, PartialEq, Eq, Structural)]
pub struct Ray {
    pub origin: Vec3,
    pub direction: Vec3,
}

/// The ray under the cursor this frame, if the cursor points into the world.
#[derive(Clone, Copy, Debug)]
pub struct MouseRay(pub Option<Ray>);

impl Default for MouseRay {
    /// No cursor ray yet.
    fn default() -> (r: MouseRay)
        ensures
            r.0 is None,
    {
        MouseRay(None)
    }
}

/// Where a ray meets a plane, in exact integer arithmetic: `None` when the
/// ray is parallel to the plane or the hit lies behind the origin; otherwise
/// the ray point at the truncated hit distance.
pub open spec fn ray_plane_hit(ray: Ray, plane_origin: V3, plane_normal: V3) -> Option<V3> {
    let den = plane_normal.dot(ray.direction@);
    if den == 0 {
        None
    } else {
        let t = crate::math::div_tz_signed(plane_origin.sub(ray.origin@).dot(plane_normal), den);
        if t <= 0 {
            None
        } else {
            Some(ray.origin@.add(ray.direction@.scale(t)))
        }
    }
}

impl MouseRay {
    /// Intersect the cursor ray with a plane; `None` without a cursor ray,
    /// on a parallel ray, or when the plane lies behind the origin.
    pub fn intersect_plane(&self, plane_origin: Vec3, plane_normal: Vec3) -> (r: Option<Vec3>)
        requires
            self.0 is Some ==> {
                &&& self.0.unwrap().origin@.in_bounds(RAY_LIMIT as int)
                &&& self.0.unwrap().direction@.in_bounds(RAY_LIMIT as int)
            },
            plane_origin@.in_bounds(RAY_LIMIT as int),
            plane_normal@.in_bounds(RAY_LIMIT as int),
        ensures
            (r is Some) == (self.0 is Some && ray_plane_hit(
                self.0.unwrap(),
                plane_origin@,
                plane_normal@,
            ) is Some),
            r is Some ==> r.unwrap()@ == ray_plane_hit(
                self.0.unwrap(),
                plane_origin@,
                plane_normal@,
            ).unwrap(),
    {
        let ray = match self.0 {
            None => {
                return None;
            },
            Some(ray) => ray,
        };
        proof {
            let nv = plane_normal@;
            let dv = ray.direction@;
            assert(crate::math::abs1(nv.x * dv.x) <= 0x4_0000int * 0x4_0000int)
                by (nonlinear_arith)
                requires
                    -0x4_0000 <= nv.x <= 0x4_0000int,
                    -0x4_0000 <= dv.x <= 0x4_0000int,
            ;
            assert(crate::math::abs1(nv.y * dv.y) <= 0x4_0000int * 0x4_0000int)
                by (nonlinear_arith)
                requires
                    -0x4_0000 <= nv.y <= 0x4_0000int,
                    -0x4_0000 <= dv.y <= 0x4_0000int,
            ;
            assert(crate::math::abs1(nv.z * dv.z) <= 0x4_0000int * 0x4_0000int)
                by (nonlinear_arith)
                requires
                    -0x4_0000 <= nv.z <= 0x4_0000int,
                    -0x4_0000 <= dv.z <= 0x4_0000int,
            ;
        }
        let den = plane_normal.dot(ray.direction);
        if den == 0 {
            return None;
        }
        let diff = plane_origin.sub(ray.origin);
        let num = diff.dot(plane_normal);
        proof {
            let dfv = plane_origin@.sub(ray.origin@);
            let nv = plane_normal@;
            assert(crate::math::abs1(dfv.x * nv.x) <= 0x8_0000int * 0x4_0000int)
                by (nonlinear_arith)
                requires
                    -0x8_0000 <= dfv.x <= 0x8_0000int,
                    -0x4_0000 <= nv.x <= 0x4_0000int,
            ;
            assert(crate::math::abs1(dfv.y * nv.y) <= 0x8_0000int * 0x4_0000int)
                by (nonlinear_arith)
                requires
                    -0x8_0000 <= dfv.y <= 0x8_0000int,
                    -0x4_0000 <= nv.y <= 0x4_0000int,
            ;
            assert(crate::math::abs1(dfv.z * nv.z) <= 0x8_0000int * 0x4_0000int)
                by (nonlinear_arith)
                requires
                    -0x8_0000 <= dfv.z <= 0x8_0000int,
                    -0x4_0000 <= nv.z <= 0x4_0000int,
            ;
        }
        let t = signed_div(num, den);
        if t <= 0 {
            return None;
        }
        proof {
            let dv = ray.direction@;
            assert(crate::math::abs1((t as int) * dv.x) <= 0x80_0000_0000int * 0x4_0000int
                && crate::math::abs1((t as int) * dv.y) <= 0x80_0000_0000int * 0x4_0000int
                && crate::math::abs1((t as int) * dv.z) <= 0x80_0000_0000int * 0x4_0000int)
                by (nonlinear_arith)
                requires
                    crate::math::abs1(t as int) <= 0x80_0000_0000int,
                    -0x4_0000 <= dv.x <= 0x4_0000int,
                    -0x4_0000 <= dv.y <= 0x4_0000int,
                    -0x4_0000 <= dv.z <= 0x4_0000int,
                    (t as int) * dv.x >= 0 ==> crate::math::abs1((t as int) * dv.x) == (t as int)
                        * dv.x,
                    (t as int) * dv.x < 0 ==> crate::math::abs1((t as int) * dv.x) == -((t as int)
                        * dv.x),
                    (t as int) * dv.y >= 0 ==> crate::math::abs1((t as int) * dv.y) == (t as int)
                        * dv.y,
                    (t as int) * dv.y < 0 ==> crate::math::abs1((t as int) * dv.y) == -((t as int)
                        * dv.y),
                    (t as int) * dv.z >= 0 ==> crate::math::abs1((t as int) * dv.z) == (t as int)
                        * dv.z,
                    (t as int) * dv.z < 0 ==> crate::math::abs1((t as int) * dv.z) == -((t as int)
                        * dv.z),
                    crate::math::abs1(t as int) == t as int,
            ;
        }
        let step = ray.direction.scale(t);
        Some(ray.origin.add(step))
    }
}

/// Truncating division of two nonzero-divisor signed values, matching
/// `div_tz` against the divisor's magnitude with the sign applied.
fn signed_div(n: i64, d: i64) -> (q: i64)
    requires
        d != 0,
        -0x1000_0000_0000 <= n <= 0x1000_0000_0000,
        -0x1000_0000_0000 <= d <= 0x1000_0000_0000,
    ensures
        q as int == crate::math::div_tz_signed(n as int, d as int),
        crate::math::abs1(q as int) <= crate::math::abs1(n as int),
{
    proof {
        if d > 0 {
            lemma_div_tz_bounds(n as int, d as int);
        } else {
            lemma_div_tz_bounds(n as int, -(d as int));
        }
    }
    if d > 0 {
        div_tz_i64(n, d)
    } else {
        -div_tz_i64(n, -d)
    }
}

} // verus!
