use planets::components::{Mass, Vec3, Velocity};
use planets::planet::{Constants, SpawnPlanetEvent};
use planets::ui::planet_spawning::{
    planet_spawn_interaction_system, selection_plane, PlanetSpawnMode,
};
use planets::ui::{root_ui_system, MouseRay, Ray, UiInput, UiState};

fn no_input() -> UiInput {
    UiInput {
        key_w: false,
        key_p: false,
        key_r: false,
        key_s: false,
        key_escape: false,
        close_panel_clicked: false,
        inspector_button_clicked: false,
        spawn_random_clicked: false,
        spawn_at_mouse_clicked: false,
    }
}

#[test]
fn spawn_mode_queries_and_back_navigation() {
    let mut mode = PlanetSpawnMode::Nothing;
    assert!(mode.is_nothing());
    mode.go_back();
    assert!(mode.is_nothing());

    let e = Vec3::new(10, 0, 20);
    let p = Vec3::new(10, 5, 20);
    let mut mode = PlanetSpawnMode::RadiusSelect { chosen_ecliptic_pos: e, chosen_pos: p };
    assert!(!mode.is_nothing());
    mode.go_back();
    assert!(matches!(mode, PlanetSpawnMode::HeightSelect { chosen_ecliptic_pos } if chosen_ecliptic_pos == e));
    mode.go_back();
    assert!(matches!(mode, PlanetSpawnMode::EclipticPosSelect));
    mode.go_back();
    assert!(mode.is_nothing());
}

#[test]
fn selection_planes_per_stage() {
    let cam = Vec3::new(0, -1, 0);
    assert_eq!(selection_plane(&PlanetSpawnMode::Nothing, cam), None);
    assert_eq!(
        selection_plane(&PlanetSpawnMode::EclipticPosSelect, cam),
        Some((Vec3::new(0, 0, 0), Vec3::new(0, 1, 0)))
    );
    let e = Vec3::new(7, 0, 9);
    assert_eq!(
        selection_plane(&PlanetSpawnMode::HeightSelect { chosen_ecliptic_pos: e }, cam),
        Some((e, cam))
    );
    let p = Vec3::new(7, 3, 9);
    assert_eq!(
        selection_plane(
            &PlanetSpawnMode::RadiusSelect { chosen_ecliptic_pos: e, chosen_pos: p },
            cam
        ),
        Some((p, cam))
    );
}

#[test]
fn placement_walkthrough_emits_spawn_request() {
    let mut mode = PlanetSpawnMode::EclipticPosSelect;

    // Hovering without a click keeps the stage.
    let ev = planet_spawn_interaction_system(&mut mode, Some(Vec3::new(4, 0, 0)), false);
    assert!(ev.is_none());
    assert!(matches!(mode, PlanetSpawnMode::EclipticPosSelect));

    // Click on the ecliptic plane: the base point is chosen.
    let ev = planet_spawn_interaction_system(&mut mode, Some(Vec3::new(4, 0, 0)), true);
    assert!(ev.is_none());
    assert!(matches!(mode, PlanetSpawnMode::HeightSelect { chosen_ecliptic_pos }
        if chosen_ecliptic_pos == Vec3::new(4, 0, 0)));

    // Click at height 2: the full position is chosen (the cursor's height is
    // projected onto the vertical axis through the base point).
    let ev = planet_spawn_interaction_system(&mut mode, Some(Vec3::new(99, 2, 99)), true);
    assert!(ev.is_none());
    assert!(matches!(mode, PlanetSpawnMode::RadiusSelect { chosen_ecliptic_pos, chosen_pos }
        if chosen_ecliptic_pos == Vec3::new(4, 0, 0) && chosen_pos == Vec3::new(4, 2, 0)));

    // Click with the cursor 100 away: radius = trunc(5 * sqrt(100) / 2) = 25,
    // mass = (25 / 3)^3 = 512; the mode rests again.
    let ev = planet_spawn_interaction_system(&mut mode, Some(Vec3::new(4, 2, 100)), true);
    let ev = ev.expect("a spawn request is emitted");
    assert_eq!(ev.pos, Some(Vec3::new(4, 2, 0)));
    assert_eq!(ev.mass, Some(Mass(512)));
    assert!(ev.vel.is_none());
    assert!(mode.is_nothing());

    // A missing pick point leaves everything untouched.
    let ev = planet_spawn_interaction_system(&mut mode, None, true);
    assert!(ev.is_none());
    assert!(mode.is_nothing());
}

#[test]
fn root_ui_toggles_and_spawn_shortcuts() {
    let mut state = UiState::default();
    assert!(!state.right_panel_open);
    assert!(!state.world_inspector_open);
    let mut mode = PlanetSpawnMode::Nothing;

    // W and P toggle their panels.
    let evs = root_ui_system(&mut state, &mut mode, UiInput { key_w: true, key_p: true, ..no_input() });
    assert!(evs.is_empty());
    assert!(state.world_inspector_open);
    assert!(state.right_panel_open);

    // The close button wins over the P toggle.
    let evs = root_ui_system(&mut state, &mut mode, UiInput { key_p: true, close_panel_clicked: true, ..no_input() });
    assert!(evs.is_empty());
    assert!(!state.right_panel_open);

    // R requests one fully-random planet.
    let evs = root_ui_system(&mut state, &mut mode, UiInput { key_r: true, ..no_input() });
    assert_eq!(evs.len(), 1);
    assert!(evs[0].pos.is_none() && evs[0].vel.is_none() && evs[0].mass.is_none());

    // The random-spawn button picks a concrete position from the spawn box.
    let evs = root_ui_system(&mut state, &mut mode, UiInput { spawn_random_clicked: true, ..no_input() });
    assert_eq!(evs.len(), 1);
    let pos = evs[0].pos.expect("the random spawn carries its position");
    assert_eq!(pos, state.new_planet_pos);
    assert!(pos.x.abs() <= 600 && pos.y.abs() <= 600 && pos.z.abs() <= 600);

    // S enters placement mode; Escape steps it back out.
    root_ui_system(&mut state, &mut mode, UiInput { key_s: true, ..no_input() });
    assert!(matches!(mode, PlanetSpawnMode::EclipticPosSelect));
    root_ui_system(&mut state, &mut mode, UiInput { key_escape: true, ..no_input() });
    assert!(mode.is_nothing());
}

#[test]
fn constants_defaults_and_clamping() {
    let c = Constants::default();
    assert_eq!(c.grav_const, 20);
    assert_eq!(c.min_attraction_dist, 1);
    assert_eq!(c.mouse_spring_strength, 100);

    let c = Constants::clamped(-5, 3, 99999);
    assert_eq!(c.grav_const, 0);
    assert_eq!(c.min_attraction_dist, 3);
    assert_eq!(c.mouse_spring_strength, 8192);
    let c = Constants::clamped(1000, -1, 50);
    assert_eq!(c.grav_const, 64);
    assert_eq!(c.min_attraction_dist, 0);
    assert_eq!(c.mouse_spring_strength, 50);
}

#[test]
fn mouse_ray_plane_intersection() {
    // Straight down from above the origin onto the ecliptic plane.
    let ray = Ray { origin: Vec3::new(0, 10, 0), direction: Vec3::new(0, -1, 0) };
    let mr = MouseRay(Some(ray));
    let hit = mr.intersect_plane(Vec3::new(0, 0, 0), Vec3::new(0, 1, 0));
    assert_eq!(hit, Some(Vec3::new(0, 0, 0)));

    // An oblique ray: from (0, 10, 0) along (3, -1, 0), the plane is met at
    // distance 10, i.e. at (30, 0, 0).
    let ray = Ray { origin: Vec3::new(0, 10, 0), direction: Vec3::new(3, -1, 0) };
    let hit = MouseRay(Some(ray)).intersect_plane(Vec3::new(0, 0, 0), Vec3::new(0, 1, 0));
    assert_eq!(hit, Some(Vec3::new(30, 0, 0)));

    // Parallel to the plane: no hit.
    let ray = Ray { origin: Vec3::new(0, 10, 0), direction: Vec3::new(1, 0, 0) };
    assert_eq!(MouseRay(Some(ray)).intersect_plane(Vec3::new(0, 0, 0), Vec3::new(0, 1, 0)), None);

    // The plane lies behind the ray: no hit.
    let ray = Ray { origin: Vec3::new(0, 10, 0), direction: Vec3::new(0, 1, 0) };
    assert_eq!(MouseRay(Some(ray)).intersect_plane(Vec3::new(0, 0, 0), Vec3::new(0, 1, 0)), None);

    // No cursor ray at all: silently inactive.
    assert_eq!(MouseRay(None).intersect_plane(Vec3::new(0, 0, 0), Vec3::new(0, 1, 0)), None);
}

#[test]
fn spawn_event_default_is_fully_unset() {
    let ev = SpawnPlanetEvent::default();
    assert!(ev.pos.is_none());
    assert!(ev.vel.is_none());
    assert!(ev.mass.is_none());
    let _typed: Option<Velocity> = ev.vel;
}
