use terrain::input::{
    mouse_button_to_index, Gesture, Input, InputEvent, MouseButton, WindowInnerSize,
    NUM_KEY_CODES, NUM_MOUSE_BUTTONS,
};

const SIZE: WindowInnerSize = WindowInnerSize { width: 800, height: 600 };

const W: u8 = 22;
const A: u8 = 0;

#[test]
fn there_is_room_for_256_keys_and_buttons() {
    assert_eq!(NUM_KEY_CODES, 256);
    assert_eq!(NUM_MOUSE_BUTTONS, 256);
}

#[test]
fn buttons_have_their_places() {
    assert_eq!(mouse_button_to_index(MouseButton::Left), Some(0));
    assert_eq!(mouse_button_to_index(MouseButton::Right), Some(1));
    assert_eq!(mouse_button_to_index(MouseButton::Middle), Some(2));
    assert_eq!(mouse_button_to_index(MouseButton::Other(0)), Some(3));
    assert_eq!(mouse_button_to_index(MouseButton::Other(252)), Some(255));
    assert_eq!(mouse_button_to_index(MouseButton::Other(253)), Some(256));
    assert_eq!(mouse_button_to_index(MouseButton::Other(254)), None);
    assert_eq!(mouse_button_to_index(MouseButton::Other(255)), None);
}

#[test]
fn a_new_input_sees_no_gesture() {
    let input = Input::new();
    assert_eq!(input.current_update_index(), 1);
    assert_eq!(input.mouse_rel(), (0, 0));
    assert!(!input.poll_gesture(&Gesture::NoGesture));
    assert!(!input.poll_gesture(&Gesture::QuitTrigger));
    for code in 0..=255 {
        assert!(!input.poll_gesture(&Gesture::KeyHold(code)));
        assert!(!input.poll_gesture(&Gesture::KeyDownTrigger(code)));
        assert!(!input.poll_gesture(&Gesture::KeyUpTrigger(code)));
    }
    assert!(!input.poll_gesture(&Gesture::ButtonHold(MouseButton::Left)));
    assert!(!input.poll_gesture(&Gesture::ButtonHold(MouseButton::Other(254))));
    assert!(!input.poll_gesture(&Gesture::AnyOf(vec![])));
    assert!(input.poll_gesture(&Gesture::AllOf(vec![])));
}

#[test]
fn a_key_goes_down_is_held_and_goes_up() {
    let mut input = Input::new();
    input.update(&vec![InputEvent::KeyPressed(W)], SIZE);
    assert_eq!(input.current_update_index(), 2);
    assert!(input.poll_gesture(&Gesture::KeyDownTrigger(W)));
    assert!(input.poll_gesture(&Gesture::KeyHold(W)));
    assert!(!input.poll_gesture(&Gesture::KeyUpTrigger(W)));
    assert!(!input.poll_gesture(&Gesture::KeyHold(A)));

    input.update(&vec![], SIZE);
    assert!(!input.poll_gesture(&Gesture::KeyDownTrigger(W)));
    assert!(input.poll_gesture(&Gesture::KeyHold(W)));

    input.update(&vec![InputEvent::KeyReleased(W)], SIZE);
    assert!(!input.poll_gesture(&Gesture::KeyHold(W)));
    assert!(input.poll_gesture(&Gesture::KeyUpTrigger(W)));

    input.update(&vec![], SIZE);
    assert!(!input.poll_gesture(&Gesture::KeyUpTrigger(W)));
}

#[test]
fn the_last_event_of_an_update_decides() {
    let mut input = Input::new();
    input.update(&vec![InputEvent::KeyPressed(W), InputEvent::KeyReleased(W)], SIZE);
    assert!(!input.poll_gesture(&Gesture::KeyHold(W)));
    assert!(input.poll_gesture(&Gesture::KeyUpTrigger(W)));
    assert!(!input.poll_gesture(&Gesture::KeyDownTrigger(W)));
}

#[test]
fn buttons_work_like_keys() {
    let mut input = Input::new();
    let side = MouseButton::Other(7);
    input.update(&vec![InputEvent::MousePressed(side), InputEvent::Other], SIZE);
    assert!(input.poll_gesture(&Gesture::ButtonDownTrigger(side)));
    assert!(input.poll_gesture(&Gesture::ButtonHold(side)));
    assert!(!input.poll_gesture(&Gesture::ButtonHold(MouseButton::Left)));
    input.update(&vec![InputEvent::MouseReleased(side)], SIZE);
    assert!(input.poll_gesture(&Gesture::ButtonUpTrigger(side)));
    assert!(!input.poll_gesture(&Gesture::ButtonHold(side)));
    // A button without a place is never seen.
    let beyond = MouseButton::Other(255);
    input.update(&vec![InputEvent::MousePressed(beyond)], SIZE);
    assert!(!input.poll_gesture(&Gesture::ButtonHold(beyond)));
    assert!(!input.poll_gesture(&Gesture::ButtonDownTrigger(beyond)));
    assert!(!input.poll_gesture(&Gesture::ButtonUpTrigger(beyond)));
}

#[test]
fn closing_the_window_is_the_quit_gesture_for_one_update() {
    let mut input = Input::new();
    input.update(&vec![InputEvent::Closed], SIZE);
    assert!(input.poll_gesture(&Gesture::QuitTrigger));
    input.update(&vec![], SIZE);
    assert!(!input.poll_gesture(&Gesture::QuitTrigger));
}

#[test]
fn the_mouse_is_measured_from_the_centre_of_the_window() {
    let mut input = Input::new();
    // The centre is at (400, 300).
    assert!(!input.update(&vec![InputEvent::MouseMoved(400, 300)], SIZE));
    assert_eq!(input.mouse_rel(), (0, 0));
    assert!(input.update(&vec![InputEvent::MouseMoved(390, 325)], SIZE));
    assert_eq!(input.mouse_rel(), (20, -50));
    // Without a move the offset is zero again.
    assert!(!input.update(&vec![InputEvent::KeyPressed(W)], SIZE));
    assert_eq!(input.mouse_rel(), (0, 0));
    // The last move of an update counts; an odd width has its centre
    // between two pixels.
    let odd = WindowInnerSize { width: 801, height: 600 };
    let events = vec![InputEvent::MouseMoved(0, 0), InputEvent::MouseMoved(400, 300)];
    assert!(input.update(&events, odd));
    assert_eq!(input.mouse_rel(), (1, 0));
    let far = vec![InputEvent::MouseMoved(i32::MIN, i32::MAX)];
    let wide = WindowInnerSize { width: u32::MAX, height: 0 };
    assert!(input.update(&far, wide));
    assert_eq!(input.mouse_rel(), (u32::MAX as i64 + (1i64 << 32), -(u32::MAX as i64 - 1)));
}

#[test]
fn any_of_and_all_of() {
    let mut input = Input::new();
    input.update(&vec![InputEvent::KeyPressed(W), InputEvent::Closed], SIZE);
    let w = || Gesture::KeyHold(W);
    let a = || Gesture::KeyHold(A);
    assert!(input.poll_gesture(&Gesture::AnyOf(vec![a(), w()])));
    assert!(input.poll_gesture(&Gesture::AnyOf(vec![w(), a()])));
    assert!(!input.poll_gesture(&Gesture::AnyOf(vec![a(), a(), Gesture::NoGesture])));
    assert!(input.poll_gesture(&Gesture::AllOf(vec![w(), Gesture::QuitTrigger])));
    assert!(!input.poll_gesture(&Gesture::AllOf(vec![w(), a()])));
    // Gestures within gestures.
    let nested = Gesture::AllOf(vec![
        Gesture::AnyOf(vec![a(), Gesture::AllOf(vec![w(), Gesture::KeyDownTrigger(W)])]),
        Gesture::AnyOf(vec![Gesture::QuitTrigger]),
    ]);
    assert!(input.poll_gesture(&nested));
    input.update(&vec![], SIZE);
    assert!(!input.poll_gesture(&nested));
}
