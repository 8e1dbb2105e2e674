use shui::ui::{frame_step, FrameStep, LeftButton, MyEvent, WindowInput};

#[test]
fn frame_step_reports_new_pointer_positions_only() {
    let mut mouse = (0, 0);
    match frame_step::<(i32, i32), char>(&mut mouse, WindowInput::MouseMoved((3, 4))) {
        FrameStep::Emit(MyEvent::MousePos(p)) => assert_eq!(p, (3, 4)),
        _ => panic!("expected a pointer event"),
    }
    assert_eq!(mouse, (3, 4));
    assert!(matches!(frame_step::<(i32, i32), char>(&mut mouse, WindowInput::MouseMoved((3, 4))), FrameStep::Skip));
    assert_eq!(mouse, (3, 4));
}

#[test]
fn frame_step_close_resize_and_input() {
    let mut mouse = (1, 1);
    assert!(matches!(frame_step::<(i32, i32), char>(&mut mouse, WindowInput::Closed), FrameStep::Close));
    assert!(matches!(frame_step::<(i32, i32), char>(&mut mouse, WindowInput::Resized), FrameStep::Resize));
    match frame_step(&mut mouse, WindowInput::Input('k', LeftButton::Pressed)) {
        FrameStep::Emit(MyEvent::GEvent(g, b)) => {
            assert_eq!(g, 'k');
            assert_eq!(b, LeftButton::Pressed);
        }
        _ => panic!("expected an input event"),
    }
    assert_eq!(mouse, (1, 1));
}

#[test]
fn frame_step_with_float_positions() {
    let mut mouse = (0.5f32, 0.5f32);
    assert!(matches!(frame_step::<(f32, f32), ()>(&mut mouse, WindowInput::MouseMoved((0.5, 0.5))), FrameStep::Skip));
    assert!(matches!(
        frame_step::<(f32, f32), ()>(&mut mouse, WindowInput::MouseMoved((0.25, 0.5))),
        FrameStep::Emit(MyEvent::MousePos(_))
    ));
    assert_eq!(mouse, (0.25, 0.5));
}
