use psfe::rendering_backend::{key_button_to_enum, mouse_button_to_enum, KeyButton, MouseButton};
use psfe::text::{append_decimal, append_decimal_padded};

#[test]
fn decimal_digits() {
    let mut s = String::from("n = ");
    append_decimal(&mut s, 0);
    assert_eq!(s, "n = 0");
    let mut s = String::new();
    append_decimal(&mut s, 18446744073709551615);
    assert_eq!(s, "18446744073709551615");
}

#[test]
fn padded_decimal_digits() {
    let mut s = String::new();
    append_decimal_padded(&mut s, 7, 3);
    assert_eq!(s, "007");
    let mut s = String::new();
    append_decimal_padded(&mut s, 42, 3);
    assert_eq!(s, "042");
    let mut s = String::new();
    append_decimal_padded(&mut s, 1234, 3);
    assert_eq!(s, "1234");
    let mut s = String::new();
    append_decimal_padded(&mut s, 5, 0);
    assert_eq!(s, "5");
}

#[test]
fn key_codes() {
    assert_eq!(key_button_to_enum(0x1b), Some(KeyButton::Escape));
    assert_eq!(key_button_to_enum('a' as i32), Some(KeyButton::Character('a')));
    assert_eq!(key_button_to_enum('w' as i32), Some(KeyButton::Character('w')));
    assert_eq!(key_button_to_enum('z' as i32), Some(KeyButton::Character('z')));
    assert_eq!(key_button_to_enum('-' as i32), None);
    assert_eq!(key_button_to_enum('A' as i32), None);
    assert_eq!(key_button_to_enum('{' as i32), None);
    assert_eq!(key_button_to_enum(-1), None);
}

#[test]
fn mouse_button_codes() {
    assert_eq!(mouse_button_to_enum(1), Some(MouseButton::Left));
    assert_eq!(mouse_button_to_enum(2), Some(MouseButton::Middle));
    assert_eq!(mouse_button_to_enum(3), Some(MouseButton::Right));
    assert_eq!(mouse_button_to_enum(4), Some(MouseButton::X1));
    assert_eq!(mouse_button_to_enum(5), Some(MouseButton::X2));
    assert_eq!(mouse_button_to_enum(0), None);
    assert_eq!(mouse_button_to_enum(6), None);
}

use psfe::rendering_backend::{interpret_event, BackendInput, Event, RawEvent};

fn raw(kind: u32) -> RawEvent {
    RawEvent { kind, keycode: 'w' as i32, x: 12, y: -3, button: 3, wheel_y: -1 }
}

#[test]
fn backend_events_become_editor_events() {
    assert!(matches!(interpret_event(&raw(0x100)), BackendInput::Quit));
    assert!(matches!(
        interpret_event(&raw(0x300)),
        BackendInput::Deliver(Event::KeyPress(KeyButton::Character('w')))
    ));
    assert!(matches!(
        interpret_event(&raw(0x301)),
        BackendInput::Deliver(Event::KeyRelease(KeyButton::Character('w')))
    ));
    assert!(matches!(interpret_event(&raw(0x400)), BackendInput::Deliver(Event::MouseMotion(12, -3))));
    assert!(matches!(
        interpret_event(&raw(0x401)),
        BackendInput::Deliver(Event::MousePress(MouseButton::Right, 12, -3))
    ));
    assert!(matches!(interpret_event(&raw(0x402)), BackendInput::Deliver(Event::MouseRelease(12, -3))));
    assert!(matches!(interpret_event(&raw(0x403)), BackendInput::Deliver(Event::MouseWheel(-1))));
    assert!(matches!(interpret_event(&raw(0x200)), BackendInput::Ignore));
}

#[test]
fn unknown_keys_and_buttons_are_ignored() {
    let mut r = raw(0x300);
    r.keycode = '-' as i32;
    assert!(matches!(interpret_event(&r), BackendInput::Ignore));
    let mut r = raw(0x401);
    r.button = 9;
    assert!(matches!(interpret_event(&r), BackendInput::Ignore));
}
