use vstd::prelude::*;

use crate::state::State;

verus! {

/// What a rendering backend provides: a window of a given size, a way to
/// show the editor's framebuffer, and the loop that feeds it events.
pub trait RenderingBackend: Sized {
    fn new(width: u32, height: u32, title: &str) -> Self;

    fn render_state(&self, state: &State);

    fn main_loop(&mut self, state: State);
}

/// An input event, in window coordinates where it has a position.
pub enum Event {
    KeyPress(KeyButton),
    KeyRelease(KeyButton),
    MouseMotion(i32, i32),
    MousePress(MouseButton, i32, i32),
    MouseRelease(i32, i32),
    MouseWheel(i32),
}

#[derive(PartialEq, Eq, Structural, Clone, Copy, Debug)]
pub enum KeyButton {
    Character(char),
    Escape,
    Minus,
}

#[derive(PartialEq, Eq, Structural, Clone, Copy, Debug)]
pub enum MouseButton {
    Left,
    Middle,
    Right,
    X1,
    X2,
}

/// Key code of the Escape key.
pub const KEYCODE_ESCAPE: i32 = 0x1b;

/// Key code of the `a` key; the letters follow in alphabetical order.
pub const KEYCODE_A: i32 = 0x61;

/// Key code of the `z` key.
pub const KEYCODE_Z: i32 = 0x7a;

/// The key a backend key code stands for: Escape, or a lower-case letter;
/// `None` for every other code.
pub open spec fn key_for_code(keycode: i32) -> Option<KeyButton> {
    if keycode == KEYCODE_ESCAPE {
        Some(KeyButton::Escape)
    } else if KEYCODE_A <= keycode <= KEYCODE_Z {
        Some(KeyButton::Character(keycode as char))
    } else {
        None
    }
}

/// The mouse button a backend button number stands for.
pub open spec fn button_for_code(button: u8) -> Option<MouseButton> {
    if button == 1 {
        Some(MouseButton::Left)
    } else if button == 2 {
        Some(MouseButton::Middle)
    } else if button == 3 {
        Some(MouseButton::Right)
    } else if button == 4 {
        Some(MouseButton::X1)
    } else if button == 5 {
        Some(MouseButton::X2)
    } else {
        None
    }
}

/// Maps a backend key code to the key the editor knows.
pub fn key_button_to_enum(keycode: i32) -> (key: Option<KeyButton>)
    ensures
        key == key_for_code(keycode),
{
    if keycode == KEYCODE_ESCAPE {
        Some(KeyButton::Escape)
    } else if KEYCODE_A <= keycode && keycode <= KEYCODE_Z {
        let c = (keycode as u8) as char;
        Some(KeyButton::Character(c))
    } else {
        None
    }
}

/// Maps a backend mouse button number to the button the editor knows.
pub fn mouse_button_to_enum(button_int: u8) -> (button: Option<MouseButton>)
    ensures
        button == button_for_code(button_int),
{
    match button_int {
        1 => Some(MouseButton::Left),
        2 => Some(MouseButton::Middle),
        3 => Some(MouseButton::Right),
        4 => Some(MouseButton::X1),
        5 => Some(MouseButton::X2),
        _ => None,
    }
}

/// Backend event kind: the window is being closed.
pub const SDL_QUIT: u32 = 0x100;

/// Backend event kind: a key went down.
pub const SDL_KEYDOWN: u32 = 0x300;

/// Backend event kind: a key went up.
pub const SDL_KEYUP: u32 = 0x301;

/// Backend event kind: the pointer moved.
pub const SDL_MOUSEMOTION: u32 = 0x400;

/// Backend event kind: a mouse button went down.
pub const SDL_MOUSEBUTTONDOWN: u32 = 0x401;

/// Backend event kind: a mouse button went up.
pub const SDL_MOUSEBUTTONUP: u32 = 0x402;

/// Backend event kind: the mouse wheel turned.
pub const SDL_MOUSEWHEEL: u32 = 0x403;

/// A backend event with the fields the editor reads: its kind, the key
/// code of a key event, the pointer position of a pointer event, the button
/// number of a button event and the vertical turn of a wheel event.
pub struct RawEvent {
    pub kind: u32,
    pub keycode: i32,
    pub x: i32,
    pub y: i32,
    pub button: u8,
    pub wheel_y: i32,
}

/// What the backend does with one of its events.
pub enum BackendInput {
    /// Stop the main loop.
    Quit,
    /// Hand the event to the editor.
    Deliver(Event),
    /// Nothing.
    Ignore,
}

/// What the backend does with `raw`: closing the window stops it; key,
/// pointer, button and wheel events reach the editor, keys and buttons only
/// when the editor knows them; everything else is ignored.
pub open spec fn input_for(raw: RawEvent) -> BackendInput {
    if raw.kind == SDL_QUIT {
        BackendInput::Quit
    } else if raw.kind == SDL_KEYDOWN || raw.kind == SDL_KEYUP {
        match key_for_code(raw.keycode) {
            Some(key) => BackendInput::Deliver(
                if raw.kind == SDL_KEYDOWN {
                    Event::KeyPress(key)
                } else {
                    Event::KeyRelease(key)
                },
            ),
            None => BackendInput::Ignore,
        }
    } else if raw.kind == SDL_MOUSEMOTION {
        BackendInput::Deliver(Event::MouseMotion(raw.x, raw.y))
    } else if raw.kind == SDL_MOUSEBUTTONDOWN {
        match button_for_code(raw.button) {
            Some(b) => BackendInput::Deliver(Event::MousePress(b, raw.x, raw.y)),
            None => BackendInput::Ignore,
        }
    } else if raw.kind == SDL_MOUSEBUTTONUP {
        BackendInput::Deliver(Event::MouseRelease(raw.x, raw.y))
    } else if raw.kind == SDL_MOUSEWHEEL {
        BackendInput::Deliver(Event::MouseWheel(raw.wheel_y))
    } else {
        BackendInput::Ignore
    }
}

/// Decides what the backend does with one of its events.
pub fn interpret_event(raw: &RawEvent) -> (input: BackendInput)
    ensures
        input == input_for(*raw),
{
    match raw.kind {
        SDL_QUIT => BackendInput::Quit,
        SDL_KEYDOWN => match key_button_to_enum(raw.keycode) {
            Some(key) => BackendInput::Deliver(Event::KeyPress(key)),
            None => BackendInput::Ignore,
        },
        SDL_KEYUP => match key_button_to_enum(raw.keycode) {
            Some(key) => BackendInput::Deliver(Event::KeyRelease(key)),
            None => BackendInput::Ignore,
        },
        SDL_MOUSEMOTION => BackendInput::Deliver(Event::MouseMotion(raw.x, raw.y)),
        SDL_MOUSEBUTTONDOWN => match mouse_button_to_enum(raw.button) {
            Some(button) => BackendInput::Deliver(Event::MousePress(button, raw.x, raw.y)),
            None => BackendInput::Ignore,
        },
        SDL_MOUSEBUTTONUP => BackendInput::Deliver(Event::MouseRelease(raw.x, raw.y)),
        SDL_MOUSEWHEEL => BackendInput::Deliver(Event::MouseWheel(raw.wheel_y)),
        _ => BackendInput::Ignore,
    }
}

} // verus!
