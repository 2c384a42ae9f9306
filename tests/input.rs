use goodman_chess::input::{Input, InputEvent, Key, MouseButton};

#[test]
fn new_input_holds_nothing() {
    let i = Input::new();
    assert!(!i.is_left_mouse_button_pressed());
    assert!(!i.is_w_pressed());
    assert!(!i.is_a_pressed());
    assert!(!i.is_s_pressed());
    assert!(!i.is_d_pressed());
    assert!(!i.is_up_arrow_pressed());
    assert!(!i.is_down_arrow_pressed());
    assert!(!i.is_left_arrow_pressed());
    assert!(!i.is_right_arrow_pressed());
}

#[test]
fn key_press_and_release_are_recorded() {
    let mut i = Input::new();
    assert!(i.process_events(&InputEvent::Keyboard { key: Key::W, pressed: true }));
    assert!(i.is_w_pressed());
    assert!(!i.is_s_pressed());
    assert!(i.process_events(&InputEvent::Keyboard { key: Key::Left, pressed: true }));
    assert!(i.is_left_arrow_pressed());
    assert!(i.process_events(&InputEvent::Keyboard { key: Key::W, pressed: false }));
    assert!(!i.is_w_pressed());
    assert!(i.is_left_arrow_pressed());
}

#[test]
fn every_tracked_key_has_its_flag() {
    let keys = [Key::W, Key::A, Key::S, Key::D, Key::Right, Key::Left, Key::Up, Key::Down];
    for (n, key) in keys.iter().enumerate() {
        let mut i = Input::new();
        assert!(i.process_events(&InputEvent::Keyboard { key: *key, pressed: true }));
        let flags = [
            i.is_w_pressed(),
            i.is_a_pressed(),
            i.is_s_pressed(),
            i.is_d_pressed(),
            i.is_right_arrow_pressed(),
            i.is_left_arrow_pressed(),
            i.is_up_arrow_pressed(),
            i.is_down_arrow_pressed(),
        ];
        for (m, f) in flags.iter().enumerate() {
            assert_eq!(*f, m == n);
        }
        assert!(!i.is_left_mouse_button_pressed());
    }
}

#[test]
fn untracked_events_are_not_handled() {
    let mut i = Input::new();
    assert!(!i.process_events(&InputEvent::Keyboard { key: Key::Other, pressed: true }));
    assert!(!i.process_events(&InputEvent::Mouse { button: MouseButton::Right, pressed: true }));
    assert!(!i.process_events(&InputEvent::Other));
    assert!(!i.is_left_mouse_button_pressed());
    assert!(!i.is_w_pressed());
}

#[test]
fn left_mouse_button_and_reset() {
    let mut i = Input::new();
    assert!(i.process_events(&InputEvent::Mouse { button: MouseButton::Left, pressed: true }));
    assert!(i.process_events(&InputEvent::Keyboard { key: Key::D, pressed: true }));
    assert!(i.is_left_mouse_button_pressed());
    i.reset_buttons();
    assert!(!i.is_left_mouse_button_pressed());
    assert!(i.is_d_pressed());
}
