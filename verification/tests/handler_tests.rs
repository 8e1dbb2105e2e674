use shui::handlers::{
    choice_changed, handle_button, handle_knob, handle_knob_event, handle_toggle_button, ButtonUiState, CursorAction,
    KnobUiState, ToggleButtonUiState,
};
use shui::ui::{LeftButton, MyEvent};

type Ev = MyEvent<(i32, i32), u8>;

fn press() -> Ev {
    MyEvent::GEvent(1, LeftButton::Pressed)
}
fn release() -> Ev {
    MyEvent::GEvent(2, LeftButton::Released)
}
fn key(k: u8) -> Ev {
    MyEvent::GEvent(k, LeftButton::Untouched)
}

fn toggle() -> ToggleButtonUiState {
    ToggleButtonUiState { label: "toggle".into(), on: false }
}

#[test]
fn toggle_flips_on_press() {
    let mut t = toggle();
    let (left, changed) = handle_toggle_button(vec![key(9), press(), MyEvent::MousePos((1, 1))], &mut t);
    assert!(t.on);
    assert_eq!(changed, Some(true));
    assert_eq!(left.len(), 2);
    assert!(matches!(left[0], MyEvent::GEvent(9, LeftButton::Untouched)));
    assert!(matches!(left[1], MyEvent::MousePos((1, 1))));
    assert_eq!(t.label, "toggle");
}

#[test]
fn toggle_twice_restores() {
    let mut t = toggle();
    let (left, changed) = handle_toggle_button(vec![press(), release(), press()], &mut t);
    assert!(!t.on);
    assert_eq!(changed, Some(false));
    assert_eq!(left.len(), 1);
    assert!(matches!(left[0], MyEvent::GEvent(2, LeftButton::Released)));
}

#[test]
fn toggle_without_press_reports_nothing() {
    let mut t = ToggleButtonUiState { label: "x".into(), on: true };
    let (left, changed) = handle_toggle_button(vec![release(), MyEvent::Focus(None)], &mut t);
    assert!(t.on);
    assert_eq!(changed, None);
    assert_eq!(left.len(), 2);
}

#[test]
fn button_follows_press_release_and_focus() {
    let mut b = ButtonUiState { label: "b".into(), pressed: false, focused: false };
    let (left, clicked) = handle_button(
        vec![MyEvent::Focus(Some((0, 0))), press(), key(5), MyEvent::MousePos((3, 3))],
        &mut b,
    );
    assert!(clicked);
    assert!(b.pressed);
    assert!(b.focused);
    assert_eq!(left.len(), 2);
    assert!(matches!(left[0], MyEvent::GEvent(5, LeftButton::Untouched)));
    let (left, clicked) = handle_button(vec![release(), MyEvent::Focus(None)], &mut b);
    assert!(!clicked);
    assert!(!b.pressed);
    assert!(!b.focused);
    assert!(left.is_empty());
}

fn knob() -> KnobUiState<f32, (i32, i32)> {
    KnobUiState { val: 0.5, label: "k".into(), twist: None, focused: false }
}

#[test]
fn knob_turn_lifecycle() {
    let mut k = knob();
    // Press away from the knob: nothing starts.
    let (left, changed, action) = handle_knob_event(&mut k, press(), None, None);
    assert!(left.is_none());
    assert_eq!(changed, None);
    assert!(matches!(action, CursorAction::Keep));
    assert!(k.twist.is_none());
    // A move without a turn changes nothing.
    let (left, changed, _) = handle_knob_event(&mut k, Ev::MousePos((2, 2)), None, None);
    assert!(left.is_none());
    assert_eq!(changed, None);
    assert_eq!(k.val, 0.5);
    // Press on the knob: the turn starts from the current value.
    let (_, _, action) = handle_knob_event(&mut k, press(), Some((4, 4)), None);
    assert!(matches!(action, CursorAction::Hide));
    assert_eq!(k.twist, Some(((4, 4), 0.5)));
    // Dragging sets the value and puts the cursor back.
    let (_, changed, action) = handle_knob_event(&mut k, Ev::MousePos((4, 9)), None, Some(0.75));
    assert_eq!(changed, Some(0.75));
    assert_eq!(k.val, 0.75);
    assert_eq!(k.twist, Some(((4, 4), 0.75)));
    assert!(matches!(action, CursorAction::MoveTo((4, 4))));
    // Release ends the turn.
    let (_, _, action) = handle_knob_event(&mut k, release(), None, None);
    assert!(matches!(action, CursorAction::Show));
    assert!(k.twist.is_none());
    let (_, _, action) = handle_knob_event(&mut k, release(), None, None);
    assert!(matches!(action, CursorAction::Keep));
}

#[test]
fn knob_focus_and_leftovers() {
    let mut k = knob();
    let (left, _, _) = handle_knob_event(&mut k, Ev::Focus(Some((0, 0))), None, None);
    assert!(left.is_none());
    assert!(k.focused);
    let (left, _, _) = handle_knob_event(&mut k, key(7), None, None);
    assert!(matches!(left, Some(MyEvent::GEvent(7, LeftButton::Untouched))));
    let (_, _, _) = handle_knob_event(&mut k, Ev::Focus(None), None, None);
    assert!(!k.focused);
}

#[test]
fn toggle_in_two_batches_equals_one() {
    let batch = || vec![press(), key(3), press(), press(), key(4)];
    let mut once = toggle();
    let mut all = batch();
    all.extend(batch());
    let (left_once, changed_once) = handle_toggle_button(all, &mut once);
    let mut twice = toggle();
    let (mut left_twice, _) = handle_toggle_button(batch(), &mut twice);
    let (left_second, changed_second) = handle_toggle_button(batch(), &mut twice);
    left_twice.extend(left_second);
    assert_eq!(once.on, twice.on);
    assert!(!once.on);
    assert_eq!(changed_once, changed_second);
    assert_eq!(left_once.len(), left_twice.len());
    assert_eq!(left_once.len(), 4);
}

fn drag_by_height(s: (i32, i32), v: f32, p: (i32, i32)) -> f32 {
    (v + (p.1 - s.1) as f32 / 10.0).clamp(0.0, 1.0)
}

#[test]
fn knob_batch_turn() {
    let mut k = knob();
    let events = vec![
        Ev::MousePos((0, 0)),
        press(),
        Ev::MousePos((4, 6)),
        key(8),
        Ev::MousePos((4, 8)),
        release(),
        Ev::MousePos((4, 9)),
        Ev::Focus(None),
    ];
    let (left, values, actions) = handle_knob(events, &mut k, Some((4, 4)), drag_by_height);
    assert_eq!(left.len(), 1);
    assert!(matches!(left[0], MyEvent::GEvent(8, LeftButton::Untouched)));
    assert_eq!(values.len(), 2);
    assert!((values[0] - 0.7).abs() < 1e-6);
    assert!((values[1] - 1.0).abs() < 1e-6);
    assert_eq!(k.val, values[1]);
    assert!(k.twist.is_none());
    assert!(!k.focused);
    assert_eq!(actions.len(), 8);
    assert!(matches!(actions[0], CursorAction::Keep));
    assert!(matches!(actions[1], CursorAction::Hide));
    assert!(matches!(actions[2], CursorAction::MoveTo((4, 4))));
    assert!(matches!(actions[3], CursorAction::Keep));
    assert!(matches!(actions[4], CursorAction::MoveTo((4, 4))));
    assert!(matches!(actions[5], CursorAction::Show));
    assert!(matches!(actions[6], CursorAction::Keep));
    assert!(matches!(actions[7], CursorAction::Keep));
}

#[test]
fn knob_batch_without_grab_keeps_value() {
    let mut k = knob();
    let (left, values, _) = handle_knob(vec![press(), Ev::MousePos((1, 9)), release()], &mut k, None, drag_by_height);
    assert!(left.is_empty());
    assert!(values.is_empty());
    assert_eq!(k.val, 0.5);
}

#[test]
fn knob_batch_stores_turn_start_and_values() {
    let mut k = knob();
    let (_, values, _) = handle_knob(vec![press(), Ev::MousePos((4, 7))], &mut k, Some((4, 4)), drag_by_height);
    assert_eq!(values.len(), 1);
    assert!((values[0] - 0.8).abs() < 1e-6);
    assert_eq!(k.twist, Some(((4, 4), values[0])));
    assert_eq!(k.val, values[0]);
}

#[test]
fn choice_changed_takes_last_differing() {
    assert_eq!(choice_changed(2, &vec![]), None);
    assert_eq!(choice_changed(2, &vec![2, 2]), None);
    assert_eq!(choice_changed(2, &vec![3, 2]), Some(3));
    assert_eq!(choice_changed(2, &vec![3, 4, 2]), Some(4));
}
