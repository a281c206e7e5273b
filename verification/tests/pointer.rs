use wayland_overlay_media_viewer::pointer::{
    apply_button_change, picking_button, ButtonAction, ButtonChange, HeldButtons, MouseButton, PointerButton,
};

fn held(buttons: Vec<MouseButton>) -> HeldButtons {
    HeldButtons::from_buttons(buttons)
}

#[test]
fn picking_knows_three_buttons() {
    assert_eq!(picking_button(MouseButton::Left), Some(PointerButton::Primary));
    assert_eq!(picking_button(MouseButton::Right), Some(PointerButton::Secondary));
    assert_eq!(picking_button(MouseButton::Middle), Some(PointerButton::Middle));
    assert_eq!(picking_button(MouseButton::Back), None);
    assert_eq!(picking_button(MouseButton::Other(9)), None);
}

#[test]
fn held_buttons_list_each_button_once() {
    let h = held(vec![MouseButton::Left, MouseButton::Right, MouseButton::Left]);
    assert_eq!(h.buttons(), vec![MouseButton::Left, MouseButton::Right]);
    assert!(h.contains(MouseButton::Right));
    assert!(!h.contains(MouseButton::Middle));
    assert!(HeldButtons::new().buttons().is_empty());
}

#[test]
fn press_adds_button_and_sends_press() {
    let out = apply_button_change(&held(vec![MouseButton::Right]), Some(ButtonChange { button: Some(MouseButton::Left), pressed: true }));
    assert_eq!(out.pressed.buttons(), vec![MouseButton::Right, MouseButton::Left]);
    assert_eq!(out.action, Some(ButtonAction::Press(PointerButton::Primary)));
    assert!(out.commit);
}

#[test]
fn press_of_held_button_keeps_it_once() {
    let out = apply_button_change(&held(vec![MouseButton::Left]), Some(ButtonChange { button: Some(MouseButton::Left), pressed: true }));
    assert_eq!(out.pressed.buttons(), vec![MouseButton::Left]);
}

#[test]
fn release_removes_button_and_sends_release() {
    let out = apply_button_change(
        &held(vec![MouseButton::Left, MouseButton::Middle]),
        Some(ButtonChange { button: Some(MouseButton::Middle), pressed: false }),
    );
    assert_eq!(out.pressed.buttons(), vec![MouseButton::Left]);
    assert_eq!(out.action, Some(ButtonAction::Release(PointerButton::Middle)));
    assert!(out.commit);
}

#[test]
fn unknown_button_drops_the_sample() {
    let out = apply_button_change(&HeldButtons::new(), Some(ButtonChange { button: Some(MouseButton::Forward), pressed: true }));
    assert_eq!(out.action, None);
    assert!(!out.commit);
    assert_eq!(out.pressed.buttons(), vec![MouseButton::Forward]);
}

#[test]
fn no_button_change_keeps_everything() {
    let h = held(vec![MouseButton::Right]);
    let out = apply_button_change(&h, None);
    assert_eq!((out.pressed.buttons(), out.action, out.commit), (vec![MouseButton::Right], None, true));
    let out = apply_button_change(&h, Some(ButtonChange { button: None, pressed: true }));
    assert_eq!((out.pressed.buttons(), out.action, out.commit), (vec![MouseButton::Right], None, true));
}
