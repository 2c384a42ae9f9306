//! Which keys and mouse buttons are held, as reported by the host's window
//! events.

use vstd::prelude::*;

verus! {

/// A key or button whose state is kept.
#[derive(Debug, Clone, Copy, PartialEq, Eq, Structural)]
pub enum Control {
    LeftMouse,
    D,
    A,
    W,
    S,
    RightArrow,
    LeftArrow,
    UpArrow,
    DownArrow,
}

/// A keyboard key as the host names it; keys that nothing tracks are `Other`.
#[derive(Debug, Clone, Copy, PartialEq, Eq, Structural)]
pub enum Key {
    W,
    A,
    S,
    D,
    Right,
    Left,
    Up,
    Down,
    Other,
}

#[derive(Debug, Clone, Copy, PartialEq, Eq, Structural)]
pub enum MouseButton {
    Left,
    Right,
    Middle,
    Other,
}

/// A window event, reduced to what the input state needs.
#[derive(Debug, Clone, Copy, PartialEq, Eq, Structural)]
pub enum InputEvent {
    /// A key went down (`pressed`) or up.
    Keyboard { key: Key, pressed: bool },
    /// A mouse button went down (`pressed`) or up.
    Mouse { button: MouseButton, pressed: bool },
    /// Any other event.
    Other,
}

/// The control that an event concerns, if it is tracked, and whether it went down.
pub open spec fn event_control(e: InputEvent) -> Option<(Control, bool)> {
    match e {
        InputEvent::Keyboard { key, pressed } => match key {
            Key::W => Some((Control::W, pressed)),
            Key::A => Some((Control::A, pressed)),
            Key::S => Some((Control::S, pressed)),
            Key::D => Some((Control::D, pressed)),
            Key::Right => Some((Control::RightArrow, pressed)),
            Key::Left => Some((Control::LeftArrow, pressed)),
            Key::Up => Some((Control::UpArrow, pressed)),
            Key::Down => Some((Control::DownArrow, pressed)),
            Key::Other => None,
        },
        InputEvent::Mouse { button, pressed } => match button {
            MouseButton::Left => Some((Control::LeftMouse, pressed)),
            _ => None,
        },
        InputEvent::Other => None,
    }
}

/// The held controls after `e`: a tracked control is added when it goes
/// down and removed when it goes up.
pub open spec fn after_event(held: Set<Control>, e: InputEvent) -> Set<Control> {
    match event_control(e) {
        Some((c, true)) => held.insert(c),
        Some((c, false)) => held.remove(c),
        None => held,
    }
}

pub struct Input {
    left_mouse_button_pressed: bool,
    d_pressed: bool,
    a_pressed: bool,
    w_pressed: bool,
    s_pressed: bool,
    right_arrow_pressed: bool,
    left_arrow_pressed: bool,
    up_arrow_pressed: bool,
    down_arrow_pressed: bool,
}

impl Input {
    spec fn flag(&self, c: Control) -> bool {
        match c {
            Control::LeftMouse => self.left_mouse_button_pressed,
            Control::D => self.d_pressed,
            Control::A => self.a_pressed,
            Control::W => self.w_pressed,
            Control::S => self.s_pressed,
            Control::RightArrow => self.right_arrow_pressed,
            Control::LeftArrow => self.left_arrow_pressed,
            Control::UpArrow => self.up_arrow_pressed,
            Control::DownArrow => self.down_arrow_pressed,
        }
    }
}

impl View for Input {
    /// The controls that are held.
    type V = Set<Control>;

    closed spec fn view(&self) -> Set<Control> {
        Set::new(|c: Control| self.flag(c))
    }
}

impl Input {
    /// Nothing held.
    pub fn new() -> (r: Input)
        ensures
            r@ == Set::<Control>::empty(),
    {
        let r = Input {
            left_mouse_button_pressed: false,
            d_pressed: false,
            a_pressed: false,
            w_pressed: false,
            s_pressed: false,
            right_arrow_pressed: false,
            left_arrow_pressed: false,
            up_arrow_pressed: false,
            down_arrow_pressed: false,
        };
        assert(r@ =~= Set::<Control>::empty());
        r
    }

    /// Records what `event` says of a tracked control; returns whether it
    /// concerned one.
    pub fn process_events(&mut self, event: &InputEvent) -> (r: bool)
        ensures
            r == event_control(*event).is_some(),
            final(self)@ == after_event(old(self)@, *event),
    {
        let ghost before = self@;
        let r = match *event {
            InputEvent::Keyboard { key, pressed } => match key {
                Key::W => {
                    self.w_pressed = pressed;
                    true
                },
                Key::A => {
                    self.a_pressed = pressed;
                    true
                },
                Key::S => {
                    self.s_pressed = pressed;
                    true
                },
                Key::D => {
                    self.d_pressed = pressed;
                    true
                },
                Key::Right => {
                    self.right_arrow_pressed = pressed;
                    true
                },
                Key::Left => {
                    self.left_arrow_pressed = pressed;
                    true
                },
                Key::Up => {
                    self.up_arrow_pressed = pressed;
                    true
                },
                Key::Down => {
                    self.down_arrow_pressed = pressed;
                    true
                },
                Key::Other => false,
            },
            InputEvent::Mouse { button, pressed } => match button {
                MouseButton::Left => {
                    self.left_mouse_button_pressed = pressed;
                    true
                },
                _ => false,
            },
            InputEvent::Other => false,
        };
        assert(self@ =~= after_event(before, *event));
        r
    }

    /// Forgets a held left mouse button, so that one press yields one click.
    pub fn reset_buttons(&mut self)
        ensures
            final(self)@ == old(self)@.remove(Control::LeftMouse),
    {
        let ghost before = self@;
        if self.left_mouse_button_pressed {
            self.left_mouse_button_pressed = false;
        }
        assert(self@ =~= before.remove(Control::LeftMouse));
    }

    pub fn is_left_mouse_button_pressed(&self) -> (r: bool)
        ensures
            r == self@.contains(Control::LeftMouse),
    {
        self.left_mouse_button_pressed
    }

    pub fn is_d_pressed(&self) -> (r: bool)
        ensures
            r == self@.contains(Control::D),
    {
        self.d_pressed
    }

    pub fn is_a_pressed(&self) -> (r: bool)
        ensures
            r == self@.contains(Control::A),
    {
        self.a_pressed
    }

    pub fn is_w_pressed(&self) -> (r: bool)
        ensures
            r == self@.contains(Control::W),
    {
        self.w_pressed
    }

    pub fn is_s_pressed(&self) -> (r: bool)
        ensures
            r == self@.contains(Control::S),
    {
        self.s_pressed
    }

    pub fn is_right_arrow_pressed(&self) -> (r: bool)
        ensures
            r == self@.contains(Control::RightArrow),
    {
        self.right_arrow_pressed
    }

    pub fn is_left_arrow_pressed(&self) -> (r: bool)
        ensures
            r == self@.contains(Control::LeftArrow),
    {
        self.left_arrow_pressed
    }

    pub fn is_up_arrow_pressed(&self) -> (r: bool)
        ensures
            r == self@.contains(Control::UpArrow),
    {
        self.up_arrow_pressed
    }

    pub fn is_down_arrow_pressed(&self) -> (r: bool)
        ensures
            r == self@.contains(Control::DownArrow),
    {
        self.down_arrow_pressed
    }
}

} // verus!
