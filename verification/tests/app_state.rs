use code_notes::app_state::{CameraMove, ControlKey, InputController, KeyOutcome};

#[test]
fn new_controller_holds_no_key() {
    let c = InputController::new();
    assert!(!(c.key_a_down || c.key_d_down || c.key_w_down || c.key_s_down));
    assert!(!(c.key_q_down || c.key_e_down || c.key_1_down || c.key_2_down));
}

#[test]
fn keys_are_held_while_pressed() {
    let mut c = InputController::new();
    assert_eq!(c.process_keypress(ControlKey::KeyW, true), KeyOutcome::Continue);
    assert!(c.key_w_down);
    assert_eq!(c.process_keypress(ControlKey::KeyW, false), KeyOutcome::Continue);
    assert!(!c.key_w_down);
    assert_eq!(c.process_keypress(ControlKey::Other, true), KeyOutcome::Continue);
    assert_eq!(c.process_keypress(ControlKey::Escape, true), KeyOutcome::Exit);
}

#[test]
fn frame_moves_camera_and_starts_animations_once() {
    let mut c = InputController::new();
    c.process_keypress(ControlKey::KeyD, true);
    c.process_keypress(ControlKey::KeyS, true);
    c.key_1_down = true;
    c.key_2_down = true;
    let actions = c.process_input();
    assert_eq!(actions.camera_moves, vec![CameraMove::Right, CameraMove::Back]);
    assert_eq!(actions.animations, vec![(0, 0, 0), (0, 0, 1)]);
    let again = c.process_input();
    assert_eq!(again.camera_moves, vec![CameraMove::Right, CameraMove::Back]);
    assert!(again.animations.is_empty());
}
