use meadow::camera::{
    CameraEvent, CameraKey, CameraState, GROUND_CLEARANCE, SPEED,
};
use meadow::fixed::SCALE;
use meadow::heightmap::{NoiseContext, NoiseError};
use meadow::terrain::Terrain;

#[test]
fn fresh_camera_defaults() {
    let cam = CameraState::new(1920, 1080);
    assert_eq!(cam.fov, 45 * SCALE);
    assert_eq!(cam.win_width, 1920);
    assert_eq!(cam.win_height, 1080);
    assert_eq!(
        (cam.pos_x, cam.pos_y, cam.pos_z),
        (5 * SCALE, 5 * SCALE, 5 * SCALE)
    );
    assert!(!cam.mouse_pressed);
    assert!(!cam.moving_left && !cam.moving_right);
    assert!(!cam.moving_forward && !cam.moving_backward);
}

#[test]
fn movement_keys_toggle_their_flags() {
    let mut cam = CameraState::new(800, 600);
    let keys = [
        CameraKey::Left,
        CameraKey::Right,
        CameraKey::Forward,
        CameraKey::Backward,
    ];
    for &key in keys.iter() {
        assert!(cam.process_input(&CameraEvent::Key { key, pressed: true }).is_none());
    }
    assert!(cam.moving_left && cam.moving_right);
    assert!(cam.moving_forward && cam.moving_backward);
    for &key in keys.iter() {
        cam.process_input(&CameraEvent::Key { key, pressed: false });
    }
    assert!(!cam.moving_left && !cam.moving_right);
    assert!(!cam.moving_forward && !cam.moving_backward);
}

#[test]
fn zoom_keys_step_the_field_of_view_on_press_only() {
    let mut cam = CameraState::new(800, 600);
    cam.process_input(&CameraEvent::Key { key: CameraKey::FovUp, pressed: true });
    assert_eq!(cam.fov, 46 * SCALE);
    cam.process_input(&CameraEvent::Key { key: CameraKey::FovUp, pressed: false });
    assert_eq!(cam.fov, 46 * SCALE);
    cam.process_input(&CameraEvent::Key { key: CameraKey::FovDown, pressed: true });
    cam.process_input(&CameraEvent::Key { key: CameraKey::FovDown, pressed: true });
    assert_eq!(cam.fov, 44 * SCALE);
}

#[test]
fn pointer_drag_yields_window_fractions_while_pressed() {
    let mut cam = CameraState::new(1000, 500);
    // Motion without the button held only records the pointer.
    assert!(cam.process_input(&CameraEvent::MouseMoved { x: 10, y: 20 }).is_none());
    assert_eq!((cam.mouse_x, cam.mouse_y), (10, 20));

    cam.process_input(&CameraEvent::MouseButton { pressed: true });
    let drag = cam.process_input(&CameraEvent::MouseMoved { x: 110, y: 70 });
    // dx = floor((10 - 110) * SCALE / 1000), inverted x; dy = floor(50 * SCALE / 500).
    assert_eq!(drag, Some((-6554, 6553)));
    assert_eq!((cam.mouse_x, cam.mouse_y), (110, 70));

    cam.process_input(&CameraEvent::MouseButton { pressed: false });
    assert!(cam.process_input(&CameraEvent::MouseMoved { x: 0, y: 0 }).is_none());
}

#[test]
fn resize_updates_the_stored_window() {
    let mut cam = CameraState::new(800, 600);
    cam.process_input(&CameraEvent::Resized { width: 1280, height: 720 });
    assert_eq!((cam.win_width, cam.win_height), (1280, 720));
}

#[test]
fn idle_update_still_snaps_to_the_ground() {
    let field = NoiseContext::new(128);
    let mut cam = CameraState::new(800, 600);
    cam.update(&field, SCALE, 0).unwrap();
    // No movement flag is set, so the planar position stays; the camera sits
    // at eye height above the terrain. (5, 5) is a lattice point, where the
    // gradient-noise field is exactly zero.
    assert_eq!((cam.pos_x, cam.pos_z), (5 * SCALE, 5 * SCALE));
    assert_eq!(cam.pos_y, GROUND_CLEARANCE);
}

#[test]
fn camera_ground_equals_mesh_height() {
    let field = NoiseContext::new(128);
    let terrain = Terrain::new(&field).unwrap();
    let mut cam = CameraState::new(800, 600);
    cam.update(&field, SCALE, 0).unwrap();
    // The single-source invariant, on foot: the ground the camera stands on
    // at cell (5, 5) is the very height the mesh vertex there carries.
    let v = &terrain.vertices()[5 * 65 + 5];
    assert_eq!(cam.pos_y - GROUND_CLEARANCE, v.position[1]);
}

#[test]
fn forward_movement_walks_the_look_direction() {
    let field = NoiseContext::new(128);
    let mut cam = CameraState::new(800, 600);
    cam.process_input(&CameraEvent::Key { key: CameraKey::Forward, pressed: true });
    cam.update(&field, SCALE, 0).unwrap();
    assert_eq!(cam.pos_x, 5 * SCALE + SPEED);
    assert_eq!(cam.pos_z, 5 * SCALE);
    // Strafing moves along the left vector (dz, -dx).
    let mut cam2 = CameraState::new(800, 600);
    cam2.process_input(&CameraEvent::Key { key: CameraKey::Left, pressed: true });
    cam2.update(&field, SCALE, 0).unwrap();
    assert_eq!(cam2.pos_x, 5 * SCALE);
    assert_eq!(cam2.pos_z, 5 * SCALE - SPEED);
}

#[test]
fn a_move_off_the_field_is_rejected_and_ignored() {
    let field = NoiseContext::new(128);
    let mut cam = CameraState::new(800, 600);
    // Standing beyond the covered cells: the snap has nothing to stand on.
    cam.pos_x = 130 * SCALE;
    cam.pos_z = 130 * SCALE;
    let r = cam.update(&field, SCALE, 0);
    assert_eq!(r, Err(NoiseError::OutOfRange));
    assert_eq!((cam.pos_x, cam.pos_z), (130 * SCALE, 130 * SCALE));
    assert_eq!(cam.pos_y, 5 * SCALE);
}
