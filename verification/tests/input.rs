use shadow_fit::input::{InputState, KEY_CODE_COUNT};

#[test]
fn new_state_holds_no_key() {
    let mut input = InputState::new();
    assert_eq!(input.keys_pressed_bitmask, 0);
    assert_eq!(input.previous_keys_pressed_bitmask, 0);
    for key in 0..KEY_CODE_COUNT {
        assert!(!input.is_key_pressed(key));
        assert!(!input.was_key_pressed(key));
    }
}

#[test]
fn pressed_key_sets_its_bit_and_no_other() {
    let mut input = InputState::new();
    input.set_key_pressed(32, true);
    assert_eq!(input.keys_pressed_bitmask, 1u128 << 32);
    for key in 0..KEY_CODE_COUNT {
        assert_eq!(input.is_key_pressed(key), key == 32);
    }
    assert_eq!(input.previous_keys_pressed_bitmask, 0);
}

#[test]
fn released_key_clears_its_bit_and_no_other() {
    let mut input = InputState::new();
    input.set_key_pressed(3, true);
    input.set_key_pressed(76, true);
    input.set_key_pressed(3, false);
    assert_eq!(input.keys_pressed_bitmask, 1u128 << 76);
    assert!(!input.is_key_pressed(3));
    assert!(input.is_key_pressed(76));
}

#[test]
fn pressing_twice_and_releasing_an_idle_key_change_nothing() {
    let mut input = InputState::new();
    input.set_key_pressed(10, true);
    input.set_key_pressed(10, true);
    assert_eq!(input.keys_pressed_bitmask, 1u128 << 10);
    input.set_key_pressed(11, false);
    assert_eq!(input.keys_pressed_bitmask, 1u128 << 10);
}

#[test]
fn first_and_last_key_code_are_tracked() {
    let mut input = InputState::new();
    input.set_key_pressed(0, true);
    input.set_key_pressed(KEY_CODE_COUNT - 1, true);
    assert_eq!(input.keys_pressed_bitmask, 1u128 | (1u128 << 127));
    assert!(input.is_key_pressed(0));
    assert!(input.is_key_pressed(127));
    assert!(!input.is_key_pressed(126));
}

#[test]
fn previous_frame_is_read_from_its_own_mask() {
    let mut input = InputState::new();
    input.set_key_pressed(76, true);
    assert!(input.is_key_pressed(76));
    assert!(!input.was_key_pressed(76));
    input.previous_keys_pressed_bitmask = input.keys_pressed_bitmask;
    input.set_key_pressed(76, false);
    assert!(!input.is_key_pressed(76));
    assert!(input.was_key_pressed(76));
}

#[test]
fn queries_leave_the_state_as_it_is() {
    let mut input = InputState::new();
    input.set_key_pressed(5, true);
    input.previous_keys_pressed_bitmask = 1u128 << 9;
    input.is_key_pressed(5);
    input.was_key_pressed(9);
    assert_eq!(input.keys_pressed_bitmask, 1u128 << 5);
    assert_eq!(input.previous_keys_pressed_bitmask, 1u128 << 9);
}

#[test]
fn opposite_keys_steer_only_when_one_of_them_is_held() {
    let mut input = InputState::new();
    assert_eq!(input.axis(32, 28), 0);
    input.set_key_pressed(32, true);
    assert_eq!(input.axis(32, 28), 1);
    assert_eq!(input.axis(28, 32), -1);
    input.set_key_pressed(28, true);
    assert_eq!(input.axis(32, 28), 0);
    input.set_key_pressed(32, false);
    assert_eq!(input.axis(32, 28), -1);
    assert_eq!(input.keys_pressed_bitmask, 1u128 << 28);
}

#[test]
fn key_is_struck_in_the_frame_in_which_it_goes_down() {
    let mut input = InputState::new();
    assert!(!input.is_key_struck(76));
    input.set_key_pressed(76, true);
    assert!(input.is_key_struck(76));
    input.end_frame();
    assert!(!input.is_key_struck(76));
    input.set_key_pressed(76, false);
    input.end_frame();
    input.set_key_pressed(76, true);
    assert!(input.is_key_struck(76));
}

#[test]
fn end_of_frame_copies_the_held_keys() {
    let mut input = InputState::new();
    input.set_key_pressed(1, true);
    input.set_key_pressed(100, true);
    input.end_frame();
    assert_eq!(input.previous_keys_pressed_bitmask, (1u128 << 1) | (1u128 << 100));
    assert_eq!(input.keys_pressed_bitmask, (1u128 << 1) | (1u128 << 100));
    input.set_key_pressed(1, false);
    assert!(input.was_key_pressed(1));
    assert!(!input.is_key_pressed(1));
    input.end_frame();
    assert!(!input.was_key_pressed(1));
    assert!(input.was_key_pressed(100));
}
