//! The state of the keyboard and the mouse, and the gestures read off it.
//!
//! Keys are named by their code, a number below `NUM_KEY_CODES`. The input
//! counts its updates; a key or button remembers the update in which it
//! last went down or up, so that a gesture can tell a key that is held from
//! one that went down just now.
use vstd::prelude::*;

verus! {

broadcast use vstd::std_specs::vec::axiom_vec_index_decreases;

pub const NUM_KEY_CODES: usize = 256;

pub const NUM_MOUSE_BUTTONS: usize = 256;

/// The size of the inside of a window, in pixels.
#[derive(Copy, Clone, Debug, PartialEq, Eq, Structural)]
pub struct WindowInnerSize {
    pub width: u32,
    pub height: u32,
}

/// A key or button is up or down, since the update with the given number.
#[derive(Copy, Clone, Debug, PartialEq, Eq, Structural)]
pub enum ButtonState {
    Up(u32),
    Down(u32),
}

/// A button of the mouse.
#[derive(Copy, Clone, Debug, PartialEq, Eq, Structural)]
pub enum MouseButton {
    Left,
    Right,
    Middle,
    Other(u8),
}

/// Something that the user does with keys and buttons.
#[derive(Debug)]
pub enum Gesture {
    NoGesture,
    KeyHold(u8),
    KeyDownTrigger(u8),
    KeyUpTrigger(u8),
    ButtonHold(MouseButton),
    ButtonDownTrigger(MouseButton),
    ButtonUpTrigger(MouseButton),
    AnyOf(Vec<Gesture>),
    AllOf(Vec<Gesture>),
    QuitTrigger,
}

/// What the window reports.
#[derive(Copy, Clone, Debug, PartialEq, Eq, Structural)]
pub enum InputEvent {
    /// The window was closed.
    Closed,
    KeyPressed(u8),
    KeyReleased(u8),
    /// The mouse moved to a place in the window.
    MouseMoved(i32, i32),
    MousePressed(MouseButton),
    MouseReleased(MouseButton),
    /// Anything else.
    Other,
}

/// The place of a button among the button states: the left, right and
/// middle button come first, then the others by their number.
pub open spec fn button_index(button: MouseButton) -> int {
    match button {
        MouseButton::Left => 0,
        MouseButton::Right => 1,
        MouseButton::Middle => 2,
        MouseButton::Other(index) => index + 3,
    }
}

/// The place of a button among the button states, if it is not beyond
/// `NUM_MOUSE_BUTTONS`.
pub fn mouse_button_to_index(button: MouseButton) -> (index: Option<usize>)
    ensures
        index == (if button_index(button) > NUM_MOUSE_BUTTONS {
            None
        } else {
            Some(button_index(button) as usize)
        }),
{
    Some(
        match button {
            MouseButton::Left => 0,
            MouseButton::Right => 1,
            MouseButton::Middle => 2,
            MouseButton::Other(index) => {
                let index: usize = index as usize + 3;
                if index > NUM_MOUSE_BUTTONS {
                    return None;
                }
                index
            },
        },
    )
}

impl Gesture {
    /// Every button that the gesture names has a place among the button
    /// states.
    pub open spec fn wf(self) -> bool
        decreases self,
    {
        match self {
            Gesture::ButtonHold(button) => button_index(button) != NUM_MOUSE_BUTTONS,
            Gesture::ButtonDownTrigger(button) => button_index(button) != NUM_MOUSE_BUTTONS,
            Gesture::ButtonUpTrigger(button) => button_index(button) != NUM_MOUSE_BUTTONS,
            Gesture::AnyOf(subgestures) => forall|i: int|
                0 <= i < subgestures@.len() ==> (#[trigger] subgestures@[i]).wf(),
            Gesture::AllOf(subgestures) => forall|i: int|
                0 <= i < subgestures@.len() ==> (#[trigger] subgestures@[i]).wf(),
            _ => true,
        }
    }
}

/// Whether an event names a button that has a place among the button
/// states.
pub open spec fn event_wf(event: InputEvent) -> bool {
    match event {
        InputEvent::MousePressed(button) => button_index(button) != NUM_MOUSE_BUTTONS,
        InputEvent::MouseReleased(button) => button_index(button) != NUM_MOUSE_BUTTONS,
        _ => true,
    }
}

/// What the input knows.
pub ghost struct InputModel {
    /// The number of the current update.
    pub index: u32,
    /// The state of every key, by key code.
    pub keys: Seq<ButtonState>,
    /// The state of every button, by its place.
    pub buttons: Seq<ButtonState>,
    /// The number of the update in which the window was closed.
    pub quit_index: u32,
    /// Twice the offset of the mouse from the centre of the window: the
    /// width of the window less twice the x of the mouse, and the same for
    /// the height and the y.
    pub mouse_rel: (int, int),
}

impl InputModel {
    pub open spec fn wf(self) -> bool {
        self.keys.len() == NUM_KEY_CODES && self.buttons.len() == NUM_MOUSE_BUTTONS
    }

    /// Whether a key or button is down.
    pub open spec fn is_down(state: ButtonState) -> bool {
        state is Down
    }

    /// Whether a key or button went down in the current update.
    pub open spec fn went_down(self, state: ButtonState) -> bool {
        state == ButtonState::Down(self.index)
    }

    /// Whether a key or button went up in the current update.
    pub open spec fn went_up(self, state: ButtonState) -> bool {
        state == ButtonState::Up(self.index)
    }

    /// The state of a button; a button without a place is up since ever.
    pub open spec fn button(self, button: MouseButton) -> ButtonState {
        if button_index(button) < NUM_MOUSE_BUTTONS {
            self.buttons[button_index(button)]
        } else {
            ButtonState::Up(0)
        }
    }

    /// Whether the user makes a gesture right now.
    pub open spec fn holds(self, gesture: Gesture) -> bool
        decreases gesture,
    {
        match gesture {
            Gesture::QuitTrigger => self.quit_index == self.index,
            Gesture::KeyHold(code) => Self::is_down(self.keys[code as int]),
            Gesture::KeyDownTrigger(code) => self.went_down(self.keys[code as int]),
            Gesture::KeyUpTrigger(code) => self.went_up(self.keys[code as int]),
            Gesture::ButtonHold(button) => Self::is_down(self.button(button)),
            Gesture::ButtonDownTrigger(button) => button_index(button) < NUM_MOUSE_BUTTONS
                && self.went_down(self.button(button)),
            Gesture::ButtonUpTrigger(button) => button_index(button) < NUM_MOUSE_BUTTONS
                && self.went_up(self.button(button)),
            Gesture::AnyOf(subgestures) => exists|i: int|
                0 <= i < subgestures@.len() && self.holds(#[trigger] subgestures@[i]),
            Gesture::AllOf(subgestures) => forall|i: int|
                0 <= i < subgestures@.len() ==> self.holds(#[trigger] subgestures@[i]),
            Gesture::NoGesture => false,
        }
    }

    /// The input at the start of the next update: nothing has moved the
    /// mouse yet.
    pub open spec fn advanced(self) -> InputModel {
        InputModel { index: (self.index + 1) as u32, mouse_rel: (0, 0), ..self }
    }

    /// The input after an event in a window of the given size.
    pub open spec fn after_event(self, event: InputEvent, size: WindowInnerSize) -> InputModel {
        match event {
            InputEvent::Closed => InputModel { quit_index: self.index, ..self },
            InputEvent::KeyPressed(code) => InputModel {
                keys: self.keys.update(code as int, ButtonState::Down(self.index)),
                ..self
            },
            InputEvent::KeyReleased(code) => InputModel {
                keys: self.keys.update(code as int, ButtonState::Up(self.index)),
                ..self
            },
            InputEvent::MouseMoved(x, y) => InputModel {
                mouse_rel: (size.width - 2 * x, size.height - 2 * y),
                ..self
            },
            InputEvent::MousePressed(button) => if button_index(button) < NUM_MOUSE_BUTTONS {
                InputModel {
                    buttons: self.buttons.update(
                        button_index(button),
                        ButtonState::Down(self.index),
                    ),
                    ..self
                }
            } else {
                self
            },
            InputEvent::MouseReleased(button) => if button_index(button) < NUM_MOUSE_BUTTONS {
                InputModel {
                    buttons: self.buttons.update(button_index(button), ButtonState::Up(self.index)),
                    ..self
                }
            } else {
                self
            },
            InputEvent::Other => self,
        }
    }

    /// The input after these events, one after the other.
    pub open spec fn after_events(self, events: Seq<InputEvent>, size: WindowInnerSize) -> InputModel
        decreases events.len(),
    {
        if events.len() == 0 {
            self
        } else {
            self.after_events(events.drop_last(), size).after_event(events.last(), size)
        }
    }
}

/// The state of the keyboard and the mouse.
pub struct Input {
    current_update_index: u32,
    keyboard_state: Vec<ButtonState>,
    mouse_button_state: Vec<ButtonState>,
    quit_requested_index: u32,
    mouse_rel: (i64, i64),
}

impl View for Input {
    type V = InputModel;

    closed spec fn view(&self) -> InputModel {
        InputModel {
            index: self.current_update_index,
            keys: self.keyboard_state@,
            buttons: self.mouse_button_state@,
            quit_index: self.quit_requested_index,
            mouse_rel: (self.mouse_rel.0 as int, self.mouse_rel.1 as int),
        }
    }
}

fn all_up(count: usize) -> (states: Vec<ButtonState>)
    ensures
        states@ == Seq::new(count as nat, |i: int| ButtonState::Up(0)),
{
    let mut states: Vec<ButtonState> = Vec::new();
    while states.len() < count
        invariant
            states@.len() <= count,
            states@ == Seq::new(states@.len(), |i: int| ButtonState::Up(0)),
        decreases count - states@.len(),
    {
        states.push(ButtonState::Up(0));
        assert(states@ =~= Seq::new(states@.len(), |i: int| ButtonState::Up(0)));
    }
    states
}

impl Input {
    /// The input before its first update: every key and button is up.
    pub fn new() -> (input: Input)
        ensures
            input@ == (InputModel {
                index: 1,
                keys: Seq::new(NUM_KEY_CODES as nat, |i: int| ButtonState::Up(0)),
                buttons: Seq::new(NUM_MOUSE_BUTTONS as nat, |i: int| ButtonState::Up(0)),
                quit_index: 0,
                mouse_rel: (0, 0),
            }),
            input@.wf(),
    {
        Input {
            current_update_index: 1,
            keyboard_state: all_up(NUM_KEY_CODES),
            mouse_button_state: all_up(NUM_MOUSE_BUTTONS),
            quit_requested_index: 0,
            mouse_rel: (0, 0),
        }
    }

    /// The number of updates so far, the first counted as 1.
    pub fn current_update_index(&self) -> (index: u32)
        ensures
            index == self@.index,
    {
        self.current_update_index
    }

    /// Twice the offset of the mouse from the centre of the window.
    pub fn mouse_rel(&self) -> (offset: (i64, i64))
        ensures
            offset.0 == self@.mouse_rel.0,
            offset.1 == self@.mouse_rel.1,
    {
        self.mouse_rel
    }

    fn handle(&mut self, event: InputEvent, size: WindowInnerSize)
        requires
            old(self)@.wf(),
            event_wf(event),
        ensures
            final(self)@.wf(),
            final(self)@ == old(self)@.after_event(event, size),
    {
        match event {
            InputEvent::Closed => {
                self.quit_requested_index = self.current_update_index;
            },
            InputEvent::KeyPressed(key_code) => {
                self.keyboard_state[key_code as usize] = ButtonState::Down(
                    self.current_update_index,
                );
            },
            InputEvent::KeyReleased(key_code) => {
                self.keyboard_state[key_code as usize] = ButtonState::Up(self.current_update_index);
            },
            InputEvent::MouseMoved(x, y) => {
                let x_relative = size.width as i64 - 2 * (x as i64);
                let y_relative = size.height as i64 - 2 * (y as i64);
                self.mouse_rel = (x_relative, y_relative);
            },
            InputEvent::MousePressed(mouse_button) => {
                if let Some(index) = mouse_button_to_index(mouse_button) {
                    self.mouse_button_state[index] = ButtonState::Down(self.current_update_index);
                }
            },
            InputEvent::MouseReleased(mouse_button) => {
                if let Some(index) = mouse_button_to_index(mouse_button) {
                    self.mouse_button_state[index] = ButtonState::Up(self.current_update_index);
                }
            },
            InputEvent::Other => {},
        }
    }

    /// Starts the next update and takes in the events of the window since
    /// the last. Says whether the mouse moved off the centre of the window,
    /// in which case the cursor is to be put back there.
    pub fn update(&mut self, events: &Vec<InputEvent>, size: WindowInnerSize) -> (moved: bool)
        requires
            old(self)@.wf(),
            old(self)@.index < u32::MAX,
            forall|i: int| 0 <= i < events@.len() ==> event_wf(#[trigger] events@[i]),
        ensures
            final(self)@.wf(),
            final(self)@ == old(self)@.advanced().after_events(events@, size),
            moved == (final(self)@.mouse_rel != (0int, 0int)),
    {
        self.current_update_index += 1;
        self.mouse_rel = (0, 0);
        let mut i: usize = 0;
        while i < events.len()
            invariant
                i <= events@.len(),
                self@.wf(),
                self@ == old(self)@.advanced().after_events(events@.take(i as int), size),
                forall|j: int| 0 <= j < events@.len() ==> event_wf(#[trigger] events@[j]),
            decreases events@.len() - i,
        {
            proof {
                assert(events@.take(i as int + 1).drop_last() =~= events@.take(i as int));
                assert(events@.take(i as int + 1).last() == events@[i as int]);
            }
            self.handle(events[i], size);
            i += 1;
        }
        proof {
            assert(events@.take(events@.len() as int) =~= events@);
        }
        self.mouse_rel.0 != 0 || self.mouse_rel.1 != 0
    }

    /// Whether the user makes a gesture right now.
    #[verifier::loop_isolation(false)]
    pub fn poll_gesture(&self, gesture: &Gesture) -> (yes: bool)
        requires
            self@.wf(),
            gesture.wf(),
        ensures
            yes == self@.holds(*gesture),
        decreases gesture,
    {
        match gesture {
            Gesture::QuitTrigger => self.quit_requested_index == self.current_update_index,
            Gesture::KeyHold(code) => {
                match self.keyboard_state[*code as usize] {
                    ButtonState::Down(_) => true,
                    ButtonState::Up(_) => false,
                }
            },
            Gesture::KeyDownTrigger(code) => {
                match self.keyboard_state[*code as usize] {
                    ButtonState::Down(index) => self.current_update_index == index,
                    ButtonState::Up(_) => false,
                }
            },
            Gesture::KeyUpTrigger(code) => {
                match self.keyboard_state[*code as usize] {
                    ButtonState::Down(_) => false,
                    ButtonState::Up(index) => self.current_update_index == index,
                }
            },
            Gesture::ButtonHold(button) => {
                match mouse_button_to_index(*button) {
                    Some(index) => {
                        match self.mouse_button_state[index] {
                            ButtonState::Down(_) => true,
                            ButtonState::Up(_) => false,
                        }
                    },
                    None => false,
                }
            },
            Gesture::ButtonDownTrigger(button) => {
                match mouse_button_to_index(*button) {
                    Some(index) => {
                        match self.mouse_button_state[index] {
                            ButtonState::Down(index) => self.current_update_index == index,
                            ButtonState::Up(_) => false,
                        }
                    },
                    None => false,
                }
            },
            Gesture::ButtonUpTrigger(button) => {
                match mouse_button_to_index(*button) {
                    Some(index) => {
                        match self.mouse_button_state[index] {
                            ButtonState::Down(_) => false,
                            ButtonState::Up(index) => self.current_update_index == index,
                        }
                    },
                    None => false,
                }
            },
            Gesture::AnyOf(subgestures) => {
                let mut i: usize = 0;
                while i < subgestures.len()
                    invariant
                        i <= subgestures@.len(),
                        self@.wf(),
                        *gesture == Gesture::AnyOf(*subgestures),
                        forall|j: int|
                            0 <= j < subgestures@.len() ==> (#[trigger] subgestures@[j]).wf(),
                        forall|j: int| 0 <= j < i ==> !self@.holds(#[trigger] subgestures@[j]),
                    decreases subgestures@.len() - i,
                {
                    proof {
                        assert(decreases_to!(gesture => subgestures));
                        assert(decreases_to!(subgestures => subgestures[i as int]));
                        assert(decreases_to!(gesture => subgestures[i as int]));
                    }
                    if self.poll_gesture(&subgestures[i]) {
                        proof {
                            assert(self@.holds(subgestures@[i as int]));
                        }
                        return true;
                    }
                    i += 1;
                }
                false
            },
            Gesture::AllOf(subgestures) => {
                let mut i: usize = 0;
                while i < subgestures.len()
                    invariant
                        i <= subgestures@.len(),
                        self@.wf(),
                        *gesture == Gesture::AllOf(*subgestures),
                        forall|j: int|
                            0 <= j < subgestures@.len() ==> (#[trigger] subgestures@[j]).wf(),
                        forall|j: int| 0 <= j < i ==> self@.holds(#[trigger] subgestures@[j]),
                    decreases subgestures@.len() - i,
                {
                    proof {
                        assert(decreases_to!(gesture => subgestures));
                        assert(decreases_to!(subgestures => subgestures[i as int]));
                        assert(decreases_to!(gesture => subgestures[i as int]));
                    }
                    if !self.poll_gesture(&subgestures[i]) {
                        proof {
                            assert(!self@.holds(subgestures@[i as int]));
                        }
                        return false;
                    }
                    i += 1;
                }
                true
            },
            Gesture::NoGesture => false,
        }
    }
}

} // verus!
