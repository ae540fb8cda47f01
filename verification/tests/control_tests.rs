use water::gl_messages::{
    is_ignored_message, severity_label, shader_kind, source_label, type_label, ShaderKind,
};
use water::input::{CameraMove, InputAction, InputEvent, InputState, Key, KeyAction};
use water::pipeline::{step_passes, workgroup_count, CalculationType, ComputePass, Dispatch};

#[test]
fn keys_press_and_release() {
    let mut s = InputState::new((1000, 1000));
    assert_eq!(s.handle_event(InputEvent::Key(Key::W, KeyAction::Press)), InputAction::Nothing);
    assert_eq!(s.wasdsp_pressed, [true, false, false, false, false]);
    s.handle_event(InputEvent::Key(Key::Space, KeyAction::Press));
    assert_eq!(s.wasdsp_pressed, [true, false, false, false, true]);
    s.handle_event(InputEvent::Key(Key::W, KeyAction::Repeat));
    assert_eq!(s.wasdsp_pressed, [true, false, false, false, true]);
    s.handle_event(InputEvent::Key(Key::W, KeyAction::Release));
    assert_eq!(s.wasdsp_pressed, [false, false, false, false, true]);
    s.handle_event(InputEvent::Key(Key::Other, KeyAction::Press));
    assert_eq!(s.wasdsp_pressed, [false, false, false, false, true]);
    s.handle_event(InputEvent::Key(Key::D, KeyAction::Press));
    s.handle_event(InputEvent::Key(Key::A, KeyAction::Press));
    s.handle_event(InputEvent::Key(Key::S, KeyAction::Press));
    assert_eq!(s.wasdsp_pressed, [false, true, true, true, true]);
}

#[test]
fn press_then_release_restores_state() {
    let mut s = InputState::new((640, 480));
    let before = s.wasdsp_pressed;
    s.handle_event(InputEvent::Key(Key::A, KeyAction::Press));
    s.handle_event(InputEvent::Key(Key::A, KeyAction::Release));
    assert_eq!(s.wasdsp_pressed, before);
    assert_eq!(s.frame_dims, (640, 480));
    assert!(!s.left_click);
}

#[test]
fn mouse_and_cursor() {
    let mut s = InputState::new((1000, 1000));
    assert_eq!(s.handle_event(InputEvent::CursorPos), InputAction::MoveCursor(false));
    s.handle_event(InputEvent::MouseButton(true, KeyAction::Press));
    assert!(s.left_click);
    assert_eq!(s.handle_event(InputEvent::CursorPos), InputAction::MoveCursor(true));
    s.handle_event(InputEvent::MouseButton(false, KeyAction::Release));
    assert!(s.left_click);
    s.handle_event(InputEvent::MouseButton(true, KeyAction::Release));
    assert!(!s.left_click);
}

#[test]
fn framebuffer_resize() {
    let mut s = InputState::new((1000, 1000));
    assert_eq!(s.handle_event(InputEvent::FramebufferSize(800, 600)), InputAction::RecreateTargets);
    assert_eq!(s.frame_dims, (800, 600));
    assert_eq!(s.handle_event(InputEvent::Other), InputAction::Nothing);
    assert_eq!(s.frame_dims, (800, 600));
}

#[test]
fn camera_moves_follow_keys() {
    let mut s = InputState::new((1, 1));
    assert!(s.camera_moves().is_empty());
    s.handle_event(InputEvent::Key(Key::Space, KeyAction::Press));
    s.handle_event(InputEvent::Key(Key::W, KeyAction::Press));
    s.handle_event(InputEvent::Key(Key::S, KeyAction::Press));
    assert_eq!(s.camera_moves(), vec![CameraMove::Forward, CameraMove::Backward, CameraMove::Up]);
    s.handle_event(InputEvent::Key(Key::A, KeyAction::Press));
    s.handle_event(InputEvent::Key(Key::D, KeyAction::Press));
    assert_eq!(
        s.camera_moves(),
        vec![CameraMove::Forward, CameraMove::Left, CameraMove::Backward, CameraMove::Right, CameraMove::Up]
    );
}

#[test]
fn debug_message_labels() {
    assert!(is_ignored_message(131169));
    assert!(is_ignored_message(131185));
    assert!(is_ignored_message(131218));
    assert!(is_ignored_message(131204));
    assert!(!is_ignored_message(131170));
    assert!(!is_ignored_message(0));
    assert_eq!(source_label(0x8246), "Source: API");
    assert_eq!(source_label(0x8247), "Source: Window System");
    assert_eq!(source_label(0x8248), "Source: Shader Compiler");
    assert_eq!(source_label(0x8249), "Source: Third Party");
    assert_eq!(source_label(0x824A), "Source: Application");
    assert_eq!(source_label(0x824B), "Source: Other");
    assert_eq!(source_label(7), "Source: Unknown");
    assert_eq!(type_label(0x824C), "Type: Error");
    assert_eq!(type_label(0x824D), "Type: Deprecated Behaviour");
    assert_eq!(type_label(0x824E), "Type: Undefined Behaviour");
    assert_eq!(type_label(0x824F), "Type: Portability");
    assert_eq!(type_label(0x8250), "Type: Performance");
    assert_eq!(type_label(0x8268), "Type: Marker");
    assert_eq!(type_label(0x8269), "Type: Push Group");
    assert_eq!(type_label(0x826A), "Type: Pop Group");
    assert_eq!(type_label(0x8251), "Type: Other");
    assert_eq!(type_label(1), "Type: Unknown");
    assert_eq!(severity_label(0x9146), "Severity: high");
    assert_eq!(severity_label(0x9147), "Severity: medium");
    assert_eq!(severity_label(0x9148), "Severity: low");
    assert_eq!(severity_label(0x826B), "Severity: notification");
    assert_eq!(severity_label(2), "Severity: unknown");
}

#[test]
fn shader_kinds() {
    assert_eq!(shader_kind(b"shaders/regular.vert"), Some(ShaderKind::Vertex));
    assert_eq!(shader_kind(b"shaders/regular.frag"), Some(ShaderKind::Fragment));
    assert_eq!(shader_kind(b"shaders/regular.comp"), None);
    assert_eq!(shader_kind(b".vert"), Some(ShaderKind::Vertex));
    assert_eq!(shader_kind(b"vert"), None);
    assert_eq!(shader_kind(b""), None);
}

#[test]
fn workgroups() {
    assert_eq!(workgroup_count(0), 0);
    assert_eq!(workgroup_count(1), 1);
    assert_eq!(workgroup_count(64), 1);
    assert_eq!(workgroup_count(65), 2);
    assert_eq!(workgroup_count(128), 2);
    assert_eq!(workgroup_count(i32::MAX - 64), (i32::MAX - 64 + 63) / 64);
    assert_eq!(workgroup_count(-100), (-100 + 63) / 64);
}

#[test]
fn calculation_codes() {
    assert_eq!(CalculationType::CalculateDensities.code(), 0);
    assert_eq!(CalculationType::CalculatePressure.code(), 1);
    assert_eq!(CalculationType::CalculateViscosity.code(), 2);
    assert_eq!(CalculationType::CalculateSurfaceTension.code(), 3);
    assert_eq!(CalculationType::CalculateGravity.code(), 4);
    assert_eq!(CalculationType::CalculateGhostDensities.code(), 5);
    assert_eq!(CalculationType::InitSimulationStep.code(), 6);
    assert_eq!(CalculationType::FinalizeSimulationStep.code(), 7);
    assert_eq!(CalculationType::CalculateBomb.code(), 8);
    assert_eq!(CalculationType::default(), CalculationType::CalculateDensities);
}

#[test]
fn simulation_step_passes() {
    let normal = step_passes(false);
    assert_eq!(normal.len(), 8);
    assert_eq!(
        normal[0],
        ComputePass { calculation: CalculationType::InitSimulationStep, dispatch: Dispatch::Particles, barrier: false }
    );
    assert_eq!(normal[2].dispatch, Dispatch::GhostParticles);
    assert_eq!(normal[7].calculation, CalculationType::FinalizeSimulationStep);
    let with_bomb = step_passes(true);
    assert_eq!(with_bomb.len(), 9);
    assert_eq!(
        with_bomb[7],
        ComputePass { calculation: CalculationType::CalculateBomb, dispatch: Dispatch::Single, barrier: true }
    );
    assert_eq!(&with_bomb[..7], &normal[..7]);
    assert_eq!(with_bomb[8], normal[7]);
}
