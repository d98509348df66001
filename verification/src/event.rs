//! The input events the render loop classifies and routes, and the
//! messages widgets emit back to the host.

use vstd::prelude::*;

verus! {

/// A key on the keyboard.
#[derive(Clone, Copy, Debug)]
pub enum KeyCode {
    Backspace,
    Enter,
    Left,
    Right,
    Up,
    Down,
    Home,
    End,
    Tab,
    Delete,
    Esc,
    Char(char),
}

/// The modifier keys held during an event.
#[derive(Clone, Copy, Debug)]
pub struct KeyModifiers {
    pub shift: bool,
    pub control: bool,
    pub alt: bool,
}

impl KeyModifiers {
    /// No modifier held.
    pub fn none() -> (m: KeyModifiers)
        ensures
            !m.shift && !m.control && !m.alt,
    {
        KeyModifiers { shift: false, control: false, alt: false }
    }
}

/// One key press.
#[derive(Clone, Copy, Debug)]
pub struct KeyEvent {
    pub code: KeyCode,
    pub modifiers: KeyModifiers,
}

/// The pointer button of a pointer event.
#[derive(Clone, Copy, Debug)]
pub enum MouseButton {
    Left,
    Right,
    Middle,
}

/// One classified input event.  Pointer coordinates are screen cells.
#[derive(Clone, Copy, Debug)]
pub enum Event {
    Key(KeyEvent),
    MouseDown(MouseButton, u16, u16, KeyModifiers),
    MouseUp(MouseButton, u16, u16, KeyModifiers),
    MouseDrag(MouseButton, u16, u16, KeyModifiers),
    ScrollDown(u16, u16, KeyModifiers),
    ScrollUp(u16, u16, KeyModifiers),
    Resize(u16, u16),
}

/// The screen location an event carries, if it carries one.
pub open spec fn spec_location(event: Event) -> Option<(u16, u16)> {
    match event {
        Event::MouseDown(_btn, x, y, _m) => Some((x, y)),
        Event::MouseUp(_btn, x, y, _m) => Some((x, y)),
        Event::MouseDrag(_btn, x, y, _m) => Some((x, y)),
        Event::ScrollDown(x, y, _m) => Some((x, y)),
        Event::ScrollUp(x, y, _m) => Some((x, y)),
        Event::Key(_) => None,
        Event::Resize(_, _) => None,
    }
}

/// Extract the x and y location of a pointer event.
pub fn extract_location(event: &Event) -> (r: Option<(u16, u16)>)
    ensures
        r == spec_location(*event),
{
    match event {
        Event::MouseDown(_btn, x, y, _m) => Some((*x, *y)),
        Event::MouseUp(_btn, x, y, _m) => Some((*x, *y)),
        Event::MouseDrag(_btn, x, y, _m) => Some((*x, *y)),
        Event::ScrollDown(x, y, _m) => Some((*x, *y)),
        Event::ScrollUp(x, y, _m) => Some((*x, *y)),
        Event::Key(_) => None,
        Event::Resize(_, _) => None,
    }
}

/// A message a widget hands back to the host after reacting to an event.
#[derive(Clone, Debug)]
pub enum Msg {
    /// A toggle widget changed its checked state to the carried value.
    InputChanged(bool),
}

} // verus!
