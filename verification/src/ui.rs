use vstd::prelude::*;
use vstd::std_specs::cmp::PartialEqSpec;

verus! {

/// What an input event does to the left mouse button.
#[derive(Debug, Clone, Copy, PartialEq, Eq, Structural)]
pub enum LeftButton {
    Pressed,
    Released,
    Untouched,
}

/// An event as the widgets see it: a window-system input event `G` (with what it does to
/// the left mouse button), a mouse position `P` relative to the receiver's rectangle, or a
/// change of focus (`Some` position when the pointer enters, `None` when it leaves).
#[derive(Debug, Clone)]
pub enum MyEvent<P, G> {
    GEvent(G, LeftButton),
    MousePos(P),
    Focus(Option<P>),
}

/// What the window system reports to a frame, with a pointer position already made relative
/// to the rectangle that the frame covers.
#[derive(Debug, Clone)]
pub enum WindowInput<P, G> {
    Closed,
    Resized,
    MouseMoved(P),
    Input(G, LeftButton),
}

/// What a frame does with one report: stop (the window closed), re-read the window size,
/// pass an event on to the widgets, or nothing.
#[derive(Debug, Clone)]
pub enum FrameStep<P, G> {
    Close,
    Resize,
    Emit(MyEvent<P, G>),
    Skip,
}

/// Handles one report of the window system, given the last known pointer position: a move
/// to a new position updates it and becomes a `MousePos` event, a move to the same position
/// is dropped, any other input becomes a `GEvent`.
pub fn frame_step<P: PartialEq + Copy, G>(mouse_pos: &mut P, input: WindowInput<P, G>) -> (r:
    FrameStep<P, G>)
    ensures
        match input {
            WindowInput::Closed => r is Close && *final(mouse_pos) == *old(mouse_pos),
            WindowInput::Resized => r is Resize && *final(mouse_pos) == *old(mouse_pos),
            WindowInput::MouseMoved(p) => {
                &&& (r is Skip && *final(mouse_pos) == *old(mouse_pos)) || (r == FrameStep::<
                    P,
                    G,
                >::Emit(MyEvent::MousePos(p)) && *final(mouse_pos) == p)
                &&& P::obeys_eq_spec() ==> (r is Skip <==> p.eq_spec(old(mouse_pos)))
            },
            WindowInput::Input(g, b) => r == FrameStep::<P, G>::Emit(MyEvent::GEvent(g, b))
                && *final(mouse_pos) == *old(mouse_pos),
        },
{
    match input {
        WindowInput::Closed => FrameStep::Close,
        WindowInput::Resized => FrameStep::Resize,
        WindowInput::MouseMoved(p) => {
            if p != *mouse_pos {
                *mouse_pos = p;
                FrameStep::Emit(MyEvent::MousePos(p))
            } else {
                FrameStep::Skip
            }
        },
        WindowInput::Input(g, b) => FrameStep::Emit(MyEvent::GEvent(g, b)),
    }
}

} // verus!
