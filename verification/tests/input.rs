use roxlap_game_demo::input::{
    InputSet, PlayerInput, SCANCODE_A, SCANCODE_D, SCANCODE_E, SCANCODE_LSHIFT, SCANCODE_Q,
    SCANCODE_S, SCANCODE_SPACE, SCANCODE_TAB, SCANCODE_W,
};
use roxlap_game_demo::systems::miner_input::{axis, translation_axes};

fn inputs(keys: &[PlayerInput]) -> InputSet {
    let mut s = InputSet::new();
    for &k in keys {
        s.insert(k);
    }
    s
}

#[test]
fn scancode_bindings_follow_controls() {
    assert_eq!(PlayerInput::from_scancode(SCANCODE_Q), Some(PlayerInput::RollCCW));
    assert_eq!(PlayerInput::from_scancode(SCANCODE_E), Some(PlayerInput::RollCW));
    assert_eq!(PlayerInput::from_scancode(SCANCODE_W), Some(PlayerInput::ThrustUp));
    assert_eq!(PlayerInput::from_scancode(SCANCODE_S), Some(PlayerInput::ThrustDown));
    assert_eq!(PlayerInput::from_scancode(SCANCODE_A), Some(PlayerInput::ThrustLeft));
    assert_eq!(PlayerInput::from_scancode(SCANCODE_D), Some(PlayerInput::ThrustRight));
    assert_eq!(PlayerInput::from_scancode(SCANCODE_LSHIFT), Some(PlayerInput::ThrustForward));
    assert_eq!(PlayerInput::from_scancode(SCANCODE_SPACE), Some(PlayerInput::ThrustBackward));
    assert_eq!(PlayerInput::from_scancode(SCANCODE_TAB), Some(PlayerInput::Damping));
}

#[test]
fn scancode_values_are_usb_usage_ids() {
    assert_eq!(PlayerInput::from_scancode(20), Some(PlayerInput::RollCCW));
    assert_eq!(PlayerInput::from_scancode(225), Some(PlayerInput::ThrustForward));
    assert_eq!(PlayerInput::from_scancode(41), None); // Escape
    assert_eq!(PlayerInput::from_scancode(0), None);
    assert_eq!(PlayerInput::from_scancode(-1), None);
}

#[test]
fn input_set_insert_remove() {
    let mut s = InputSet::new();
    assert!(!s.contains(PlayerInput::Damping));
    assert!(s.insert(PlayerInput::Damping));
    assert!(!s.insert(PlayerInput::Damping));
    assert!(s.contains(PlayerInput::Damping));
    assert!(!s.contains(PlayerInput::RollCW));
    assert!(s.remove(PlayerInput::Damping));
    assert!(!s.contains(PlayerInput::Damping));
    assert!(!s.remove(PlayerInput::Damping));
}

#[test]
fn no_input_gives_zero_axes() {
    let s = InputSet::new();
    assert_eq!(axis(&s, PlayerInput::RollCW, PlayerInput::RollCCW), 0);
    assert_eq!(translation_axes(&s), (0, 0, 0));
}

#[test]
fn roll_keys_axis_and_cancel() {
    assert_eq!(axis(&inputs(&[PlayerInput::RollCW]), PlayerInput::RollCW, PlayerInput::RollCCW), 1);
    assert_eq!(axis(&inputs(&[PlayerInput::RollCCW]), PlayerInput::RollCW, PlayerInput::RollCCW), -1);
    let both = inputs(&[PlayerInput::RollCW, PlayerInput::RollCCW]);
    assert_eq!(axis(&both, PlayerInput::RollCW, PlayerInput::RollCCW), 0);
}

#[test]
fn opposite_thrust_axes_cancel() {
    for (a, b) in [
        (PlayerInput::ThrustUp, PlayerInput::ThrustDown),
        (PlayerInput::ThrustLeft, PlayerInput::ThrustRight),
        (PlayerInput::ThrustForward, PlayerInput::ThrustBackward),
    ] {
        assert_eq!(translation_axes(&inputs(&[a, b])), (0, 0, 0));
    }
}

#[test]
fn up_right_forward_axes() {
    assert_eq!(translation_axes(&inputs(&[PlayerInput::ThrustUp])), (0, 1, 0));
    assert_eq!(translation_axes(&inputs(&[PlayerInput::ThrustDown])), (0, -1, 0));
    assert_eq!(translation_axes(&inputs(&[PlayerInput::ThrustRight])), (1, 0, 0));
    assert_eq!(translation_axes(&inputs(&[PlayerInput::ThrustLeft])), (-1, 0, 0));
    assert_eq!(translation_axes(&inputs(&[PlayerInput::ThrustForward])), (0, 0, -1));
    assert_eq!(translation_axes(&inputs(&[PlayerInput::ThrustBackward])), (0, 0, 1));
    assert_eq!(
        translation_axes(&inputs(&[PlayerInput::ThrustUp, PlayerInput::ThrustRight])),
        (1, 1, 0)
    );
}

#[test]
fn non_thrust_keys_do_not_translate() {
    let s = inputs(&[PlayerInput::RollCW, PlayerInput::Damping]);
    assert_eq!(translation_axes(&s), (0, 0, 0));
}
