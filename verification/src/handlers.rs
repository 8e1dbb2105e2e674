use vstd::prelude::*;

use crate::ui::{LeftButton, MyEvent};

verus! {

/// A button that flips between on and off with every left click.
pub struct ToggleButtonUiState {
    pub label: String,
    pub on: bool,
}

/// A push button: held down while the left button is, and lit while the pointer is over it.
pub struct ButtonUiState {
    pub label: String,
    pub pressed: bool,
    pub focused: bool,
}

/// A knob with value `val`, turned by dragging: while it is being turned, `twist` holds where
/// the drag started (`P`) and the value it last set (`F`).
pub struct KnobUiState<F, P> {
    pub val: F,
    pub label: String,
    pub twist: Option<(P, F)>,
    pub focused: bool,
}

/// What a knob asks of the mouse cursor after an event.
#[derive(Debug, Clone, Copy)]
pub enum CursorAction<P> {
    /// Leave the cursor alone.
    Keep,
    /// Hide the cursor: a drag starts.
    Hide,
    /// Show the cursor again: the drag ended.
    Show,
    /// Put the cursor back where the drag started (a position inside the knob's rectangle).
    MoveTo(P),
}

/// The event is a press of the left mouse button.
pub open spec fn is_left_press<P, G>(ev: MyEvent<P, G>) -> bool {
    ev matches MyEvent::GEvent(_, LeftButton::Pressed)
}

/// The event is a release of the left mouse button.
pub open spec fn is_left_release<P, G>(ev: MyEvent<P, G>) -> bool {
    ev matches MyEvent::GEvent(_, LeftButton::Released)
}

/// The events that a button handles itself: left presses and releases, and focus changes.
pub open spec fn button_handles<P, G>(ev: MyEvent<P, G>) -> bool {
    ||| is_left_press(ev)
    ||| is_left_release(ev)
    ||| ev is Focus
}

/// The events of `evs`, in order, for which `handled` does not hold.
pub open spec fn unhandled<P, G>(
    evs: Seq<MyEvent<P, G>>,
    handled: spec_fn(MyEvent<P, G>) -> bool,
) -> Seq<MyEvent<P, G>>
    decreases evs.len(),
{
    if evs.len() == 0 {
        seq![]
    } else if handled(evs.last()) {
        unhandled(evs.drop_last(), handled)
    } else {
        unhandled(evs.drop_last(), handled).push(evs.last())
    }
}

/// The number of left presses among `evs`.
pub open spec fn press_count<P, G>(evs: Seq<MyEvent<P, G>>) -> nat
    decreases evs.len(),
{
    if evs.len() == 0 {
        0
    } else if is_left_press(evs.last()) {
        press_count(evs.drop_last()) + 1
    } else {
        press_count(evs.drop_last())
    }
}

/// The state of a toggle button that was `on` after the events `evs`: flipped by every press.
pub open spec fn toggled_after<P, G>(on: bool, evs: Seq<MyEvent<P, G>>) -> bool
    decreases evs.len(),
{
    if evs.len() == 0 {
        on
    } else if is_left_press(evs.last()) {
        !toggled_after(on, evs.drop_last())
    } else {
        toggled_after(on, evs.drop_last())
    }
}

/// Whether a button that was `pressed` is held down after `evs`: the last press or release
/// decides.
pub open spec fn pressed_after<P, G>(pressed: bool, evs: Seq<MyEvent<P, G>>) -> bool
    decreases evs.len(),
{
    if evs.len() == 0 {
        pressed
    } else if is_left_press(evs.last()) {
        true
    } else if is_left_release(evs.last()) {
        false
    } else {
        pressed_after(pressed, evs.drop_last())
    }
}

/// Whether a widget that was `focused` has the focus after `evs`: the last focus change
/// decides.
pub open spec fn focused_after<P, G>(focused: bool, evs: Seq<MyEvent<P, G>>) -> bool
    decreases evs.len(),
{
    if evs.len() == 0 {
        focused
    } else {
        match evs.last() {
            MyEvent::Focus(m) => m is Some,
            _ => focused_after(focused, evs.drop_last()),
        }
    }
}

/// The events that a knob handles itself: left presses and releases, pointer moves and focus
/// changes.
pub open spec fn knob_handles<P, G>(ev: MyEvent<P, G>) -> bool {
    ||| button_handles(ev)
    ||| ev is MousePos
}

/// Tells whether `ev` presses or releases the left mouse button.
fn left_button_of<P, G>(ev: &MyEvent<P, G>) -> (r: LeftButton)
    ensures
        (r == LeftButton::Pressed) == is_left_press(*ev),
        (r == LeftButton::Released) == is_left_release(*ev),
{
    match ev {
        MyEvent::GEvent(_, b) => *b,
        _ => LeftButton::Untouched,
    }
}

/// Flips the toggle button with every left press among `events`. Returns the other events,
/// in order, and the button's new state if it was pressed at all.
pub fn handle_toggle_button<P, G>(
    events: Vec<MyEvent<P, G>>,
    toggle_button: &mut ToggleButtonUiState,
) -> (r: (Vec<MyEvent<P, G>>, Option<bool>))
    ensures
        final(toggle_button).on == toggled_after(old(toggle_button).on, events@),
        final(toggle_button).label == old(toggle_button).label,
        r.0@ == unhandled(events@, |ev: MyEvent<P, G>| is_left_press(ev)),
        r.1 == (if press_count(events@) > 0 {
            Some(final(toggle_button).on)
        } else {
            None
        }),
{
    let ghost evs = events@;
    let ghost on0 = toggle_button.on;
    let ghost handled = |ev: MyEvent<P, G>| is_left_press(ev);
    let mut val_changed: Option<bool> = None;
    let mut leftover: Vec<MyEvent<P, G>> = Vec::new();
    let ghost mut k: int = 0;
    for ev in it: events
        invariant
            evs == it.seq(),
            k == it.index(),
            toggle_button.on == toggled_after(on0, evs.take(k)),
            toggle_button.label == old(toggle_button).label,
            handled == (|ev: MyEvent<P, G>| is_left_press(ev)),
            leftover@ == unhandled(evs.take(k), handled),
            val_changed == (if press_count(evs.take(k)) > 0 {
                Some(toggle_button.on)
            } else {
                None
            }),
    {
        proof {
            assert(evs.take(k + 1).drop_last() == evs.take(k));
            assert(evs.take(k + 1).last() == evs[k]);
        }
        if left_button_of(&ev) == LeftButton::Pressed {
            toggle_button.on = !toggle_button.on;
            val_changed = Some(toggle_button.on);
        } else {
            leftover.push(ev);
        }
        proof {
            k = k + 1;
        }
    }
    proof {
        assert(evs.take(evs.len() as int) == evs);
    }
    (leftover, val_changed)
}

/// Follows the left button (held down from a press to the next release) and the focus
/// through `events`. Returns the events that the button does not handle, in order, and
/// whether it was pressed at all.
pub fn handle_button<P, G>(events: Vec<MyEvent<P, G>>, button: &mut ButtonUiState) -> (r: (
    Vec<MyEvent<P, G>>,
    bool,
))
    ensures
        final(button).pressed == pressed_after(old(button).pressed, events@),
        final(button).focused == focused_after(old(button).focused, events@),
        final(button).label == old(button).label,
        r.0@ == unhandled(events@, |ev: MyEvent<P, G>| button_handles(ev)),
        r.1 == (press_count(events@) > 0),
{
    let ghost evs = events@;
    let ghost pressed0 = button.pressed;
    let ghost focused0 = button.focused;
    let ghost handled = |ev: MyEvent<P, G>| button_handles(ev);
    let mut val_changed = false;
    let mut leftover: Vec<MyEvent<P, G>> = Vec::new();
    let ghost mut k: int = 0;
    for ev in it: events
        invariant
            evs == it.seq(),
            k == it.index(),
            button.pressed == pressed_after(pressed0, evs.take(k)),
            button.focused == focused_after(focused0, evs.take(k)),
            button.label == old(button).label,
            handled == (|ev: MyEvent<P, G>| button_handles(ev)),
            leftover@ == unhandled(evs.take(k), handled),
            val_changed == (press_count(evs.take(k)) > 0),
    {
        proof {
            assert(evs.take(k + 1).drop_last() == evs.take(k));
            assert(evs.take(k + 1).last() == evs[k]);
        }
        match left_button_of(&ev) {
            LeftButton::Pressed => {
                val_changed = true;
                button.pressed = true;
            },
            LeftButton::Released => {
                button.pressed = false;
            },
            LeftButton::Untouched => {
                match ev {
                    MyEvent::Focus(maybe) => {
                        button.focused = maybe.is_some();
                    },
                    _ => {
                        leftover.push(ev);
                    },
                }
            },
        }
        proof {
            k = k + 1;
        }
    }
    proof {
        assert(evs.take(evs.len() as int) == evs);
    }
    (leftover, val_changed)
}

/// Handles one event for a knob. `grab` is where the pointer is, inside the knob's rectangle,
/// when it is over the knob itself (`None` when it is not); `dragged` is the value the knob
/// takes when a pointer move turns it, and must be given for a pointer move while the knob
/// is being turned. Returns the event if the knob does not handle it, the new value if it
/// changed, and what to do with the cursor.
///
/// A left press over the knob starts a turn (from the current value) and hides the cursor;
/// a pointer move during a turn sets the value to `dragged` and puts the cursor back where
/// the turn started; a left release ends a turn and shows the cursor; a focus change sets
/// `focused`. Any other event is left over.
pub fn handle_knob_event<F: Copy, P: Copy, G>(
    knob: &mut KnobUiState<F, P>,
    ev: MyEvent<P, G>,
    grab: Option<P>,
    dragged: Option<F>,
) -> (r: (Option<MyEvent<P, G>>, Option<F>, CursorAction<P>))
    requires
        ev is MousePos && old(knob).twist is Some ==> dragged is Some,
    ensures
        final(knob).label == old(knob).label,
        r.0 == (if knob_handles(ev) {
            None
        } else {
            Some(ev)
        }),
        match ev {
            MyEvent::GEvent(_, LeftButton::Pressed) => match grab {
                Some(m) => {
                    &&& final(knob).twist == Some((m, old(knob).val))
                    &&& r.2 == CursorAction::<P>::Hide
                    &&& final(knob).val == old(knob).val
                },
                None => {
                    &&& final(knob).twist == old(knob).twist
                    &&& r.2 == CursorAction::<P>::Keep
                    &&& final(knob).val == old(knob).val
                },
            },
            MyEvent::MousePos(_) => match old(knob).twist {
                Some((start, _)) => {
                    &&& final(knob).val == dragged.unwrap()
                    &&& final(knob).twist == Some((start, dragged.unwrap()))
                    &&& r.2 == CursorAction::MoveTo(start)
                },
                None => {
                    &&& final(knob).twist == None::<(P, F)>
                    &&& r.2 == CursorAction::<P>::Keep
                    &&& final(knob).val == old(knob).val
                },
            },
            MyEvent::GEvent(_, LeftButton::Released) => {
                &&& final(knob).twist == None::<(P, F)>
                &&& r.2 == (if old(knob).twist is Some {
                    CursorAction::<P>::Show
                } else {
                    CursorAction::<P>::Keep
                })
                &&& final(knob).val == old(knob).val
            },
            _ => {
                &&& final(knob).twist == old(knob).twist
                &&& r.2 == CursorAction::<P>::Keep
                &&& final(knob).val == old(knob).val
            },
        },
        r.1 == (if ev is MousePos && old(knob).twist is Some {
            dragged
        } else {
            None
        }),
        final(knob).focused == (match ev {
            MyEvent::Focus(m) => m is Some,
            _ => old(knob).focused,
        }),
{
    match left_button_of(&ev) {
        LeftButton::Pressed => {
            match grab {
                Some(m) => {
                    knob.twist = Some((m, knob.val));
                    (None, None, CursorAction::Hide)
                },
                None => (None, None, CursorAction::Keep),
            }
        },
        LeftButton::Released => {
            if knob.twist.is_some() {
                knob.twist = None;
                (None, None, CursorAction::Show)
            } else {
                (None, None, CursorAction::Keep)
            }
        },
        LeftButton::Untouched => {
            match ev {
                MyEvent::MousePos(_) => {
                    match knob.twist {
                        Some((start, _)) => {
                            let val = dragged.unwrap();
                            knob.val = val;
                            knob.twist = Some((start, val));
                            (None, Some(val), CursorAction::MoveTo(start))
                        },
                        None => (None, None, CursorAction::Keep),
                    }
                },
                MyEvent::Focus(maybe) => {
                    knob.focused = maybe.is_some();
                    (None, None, CursorAction::Keep)
                },
                _ => (Some(ev), None, CursorAction::Keep),
            }
        },
    }
}

/// Where the turn of a knob started, if the knob is being turned.
pub open spec fn twist_start<P, F>(twist: Option<(P, F)>) -> Option<P> {
    match twist {
        Some((start, _)) => Some(start),
        None => None,
    }
}

/// Where the turn of a knob started after the events `evs`, given where it started before
/// (`None`: not being turned) and where the pointer is on the knob (`grab`): a left press on
/// the knob starts a turn there, a left release ends it.
pub open spec fn grip_after<P, G>(start: Option<P>, evs: Seq<MyEvent<P, G>>, grab: Option<P>) -> Option<P>
    decreases evs.len(),
{
    if evs.len() == 0 {
        start
    } else {
        let prev = grip_after(start, evs.drop_last(), grab);
        if is_left_press(evs.last()) {
            if grab is Some {
                grab
            } else {
                prev
            }
        } else if is_left_release(evs.last()) {
            None
        } else {
            prev
        }
    }
}

/// What a knob asks of the cursor for `ev`, when its turn started at `grip` (if it is being
/// turned) and the pointer is on the knob at `grab`.
pub open spec fn cursor_action_for<P, G>(
    ev: MyEvent<P, G>,
    grip: Option<P>,
    grab: Option<P>,
) -> CursorAction<P> {
    if is_left_press(ev) {
        if grab is Some {
            CursorAction::Hide
        } else {
            CursorAction::Keep
        }
    } else if is_left_release(ev) {
        if grip is Some {
            CursorAction::Show
        } else {
            CursorAction::Keep
        }
    } else if ev is MousePos {
        match grip {
            Some(s) => CursorAction::MoveTo(s),
            None => CursorAction::Keep,
        }
    } else {
        CursorAction::Keep
    }
}

/// The number of pointer moves among `evs` that come while the knob is being turned.
pub open spec fn drag_count<P, G>(start: Option<P>, evs: Seq<MyEvent<P, G>>, grab: Option<P>) -> nat
    decreases evs.len(),
{
    if evs.len() == 0 {
        0
    } else if evs.last() is MousePos && grip_after(start, evs.drop_last(), grab) is Some {
        drag_count(start, evs.drop_last(), grab) + 1
    } else {
        drag_count(start, evs.drop_last(), grab)
    }
}

/// What one event does to a knob (see `handle_knob_event`), `v` being the value that a
/// pointer move during a turn sets.
pub open spec fn knob_event_effect<F, P, G>(
    k: KnobUiState<F, P>,
    ev: MyEvent<P, G>,
    grab: Option<P>,
    v: F,
) -> KnobUiState<F, P> {
    match ev {
        MyEvent::GEvent(_, LeftButton::Pressed) => match grab {
            Some(m) => KnobUiState { twist: Some((m, k.val)), ..k },
            None => k,
        },
        MyEvent::GEvent(_, LeftButton::Released) => KnobUiState { twist: None, ..k },
        MyEvent::MousePos(_) => match k.twist {
            Some((s, _)) => KnobUiState { val: v, twist: Some((s, v)), ..k },
            None => k,
        },
        MyEvent::Focus(m) => KnobUiState { focused: m is Some, ..k },
        _ => k,
    }
}

/// A knob `k0` after the events `evs`, the pointer being on the knob at `grab`, and the
/// pointer moves during a turn setting the values `vals`, in order.
pub open spec fn knob_after<F, P, G>(
    k0: KnobUiState<F, P>,
    evs: Seq<MyEvent<P, G>>,
    grab: Option<P>,
    vals: Seq<F>,
) -> KnobUiState<F, P>
    decreases evs.len(),
{
    if evs.len() == 0 {
        k0
    } else {
        let prev = knob_after(k0, evs.drop_last(), grab, vals);
        let used = drag_count(twist_start(k0.twist), evs.drop_last(), grab);
        knob_event_effect(prev, evs.last(), grab, vals[used as int])
    }
}

/// What the turn of a knob hands to the drag computation at each pointer move during a turn
/// among `evs`: where the turn started, the value the knob had, and where the pointer is
/// (see `knob_after`).
pub open spec fn drag_args<F, P, G>(
    k0: KnobUiState<F, P>,
    evs: Seq<MyEvent<P, G>>,
    grab: Option<P>,
    vals: Seq<F>,
) -> Seq<(P, F, P)>
    decreases evs.len(),
{
    if evs.len() == 0 {
        seq![]
    } else {
        let prev = drag_args(k0, evs.drop_last(), grab, vals);
        let st = knob_after(k0, evs.drop_last(), grab, vals);
        match (evs.last(), st.twist) {
            (MyEvent::MousePos(p), Some((s, v))) => prev.push((s, v, p)),
            _ => prev,
        }
    }
}

/// Where the turn of the replayed knob started is `grip_after`, whatever the values set.
proof fn lemma_knob_after_grip<F, P, G>(
    k0: KnobUiState<F, P>,
    evs: Seq<MyEvent<P, G>>,
    grab: Option<P>,
    vals: Seq<F>,
)
    ensures
        twist_start(knob_after(k0, evs, grab, vals).twist) == grip_after(
            twist_start(k0.twist),
            evs,
            grab,
        ),
    decreases evs.len(),
{
    if evs.len() > 0 {
        lemma_knob_after_grip(k0, evs.drop_last(), grab, vals);
    }
}

/// The replay reads only as many values as there are pointer moves during a turn.
proof fn lemma_knob_after_prefix<F, P, G>(
    k0: KnobUiState<F, P>,
    evs: Seq<MyEvent<P, G>>,
    grab: Option<P>,
    vals: Seq<F>,
    x: F,
)
    requires
        vals.len() >= drag_count(twist_start(k0.twist), evs, grab),
    ensures
        knob_after(k0, evs, grab, vals.push(x)) == knob_after(k0, evs, grab, vals),
        drag_args(k0, evs, grab, vals.push(x)) == drag_args(k0, evs, grab, vals),
    decreases evs.len(),
{
    if evs.len() > 0 {
        let init = evs.drop_last();
        lemma_knob_after_prefix(k0, init, grab, vals, x);
        lemma_knob_after_grip(k0, init, grab, vals);
        let used = drag_count(twist_start(k0.twist), init, grab);
        if evs.last() is MousePos && knob_after(k0, init, grab, vals).twist is Some {
            assert(vals.push(x)[used as int] == vals[used as int]);
        }
    }
}

/// Handles a batch of events for a knob, one after the other (see `handle_knob_event`).
/// `grab` is where the pointer is inside the knob's rectangle when it is over the knob itself
/// (it does not move while the knob handles its events); `drag` gives the value that a
/// pointer move to `p` sets during a turn that started at `s` when the knob last had value
/// `v`, as `drag(s, v, p)`. Returns the events the knob does not handle, in order; the values
/// the knob took, in order; and what each event asks of the cursor.
pub fn handle_knob<F: Copy, P: Copy, G, D: Fn(P, F, P) -> F>(
    events: Vec<MyEvent<P, G>>,
    knob: &mut KnobUiState<F, P>,
    grab: Option<P>,
    drag: D,
) -> (r: (Vec<MyEvent<P, G>>, Vec<F>, Vec<CursorAction<P>>))
    requires
        forall|s: P, v: F, p: P| drag.requires((s, v, p)),
    ensures
        r.0@ == unhandled(events@, |ev: MyEvent<P, G>| knob_handles(ev)),
        final(knob).label == old(knob).label,
        final(knob).focused == focused_after(old(knob).focused, events@),
        twist_start(final(knob).twist) == grip_after(twist_start(old(knob).twist), events@, grab),
        r.2@.len() == events@.len(),
        forall|k: int|
            0 <= k < events@.len() ==> #[trigger] r.2@[k] == cursor_action_for(
                events@[k],
                grip_after(twist_start(old(knob).twist), events@.take(k), grab),
                grab,
            ),
        r.1@.len() == drag_count(twist_start(old(knob).twist), events@, grab),
        r.1@.len() == 0 ==> final(knob).val == old(knob).val,
        r.1@.len() > 0 ==> final(knob).val == r.1@.last(),
        *final(knob) == knob_after(*old(knob), events@, grab, r.1@),
        forall|k: int|
            0 <= k < events@.len() ==> ((#[trigger] r.2@[k] is Hide) <==> (is_left_press(
                events@[k],
            ) && grab is Some)),
        drag_args(*old(knob), events@, grab, r.1@).len() == r.1@.len(),
        forall|j: int|
            0 <= j < r.1@.len() ==> call_ensures(
                drag,
                #[trigger] drag_args(*old(knob), events@, grab, r.1@)[j],
                r.1@[j],
            ),
{
    let ghost evs = events@;
    let ghost start0 = twist_start(knob.twist);
    let ghost val0 = knob.val;
    let ghost focused0 = knob.focused;
    let ghost k0 = *knob;
    let ghost handled = |ev: MyEvent<P, G>| knob_handles(ev);
    let mut leftover: Vec<MyEvent<P, G>> = Vec::new();
    let mut values: Vec<F> = Vec::new();
    let mut actions: Vec<CursorAction<P>> = Vec::new();
    let ghost mut k: int = 0;
    for ev in it: events
        invariant
            evs == it.seq(),
            k == it.index(),
            handled == (|ev: MyEvent<P, G>| knob_handles(ev)),
            forall|s: P, v: F, p: P| drag.requires((s, v, p)),
            leftover@ == unhandled(evs.take(k), handled),
            knob.label == old(knob).label,
            knob.focused == focused_after(focused0, evs.take(k)),
            twist_start(knob.twist) == grip_after(start0, evs.take(k), grab),
            actions@.len() == k,
            forall|j: int|
                0 <= j < k ==> #[trigger] actions@[j] == cursor_action_for(
                    evs[j],
                    grip_after(start0, evs.take(j), grab),
                    grab,
                ),
            values@.len() == drag_count(start0, evs.take(k), grab),
            values@.len() == 0 ==> knob.val == val0,
            values@.len() > 0 ==> knob.val == values@.last(),
            k0.twist == old(knob).twist,
            start0 == twist_start(k0.twist),
            *knob == knob_after(k0, evs.take(k), grab, values@),
            drag_args(k0, evs.take(k), grab, values@).len() == values@.len(),
            forall|j: int|
                0 <= j < values@.len() ==> call_ensures(
                    drag,
                    #[trigger] drag_args(k0, evs.take(k), grab, values@)[j],
                    values@[j],
                ),
    {
        proof {
            assert(evs.take(k + 1).drop_last() == evs.take(k));
            assert(evs.take(k + 1).last() == evs[k]);
            lemma_knob_after_grip(k0, evs.take(k), grab, values@);
        }
        let ghost vals_before = values@;
        let ghost knob_before = *knob;
        let dragged = match &ev {
            MyEvent::MousePos(p) => match knob.twist {
                Some((s, v)) => Some(drag(s, v, *p)),
                None => None,
            },
            _ => None,
        };
        let (left, changed, action) = handle_knob_event(knob, ev, grab, dragged);
        match left {
            Some(e) => leftover.push(e),
            None => {},
        }
        match changed {
            Some(v) => {
                values.push(v);
                proof {
                    lemma_knob_after_prefix(k0, evs.take(k), grab, vals_before, v);
                    assert(values@[vals_before.len() as int] == v);
                }
            },
            None => {},
        }
        proof {
            assert(knob_after(k0, evs.take(k + 1), grab, values@) == knob_event_effect(
                knob_after(k0, evs.take(k), grab, values@),
                evs[k],
                grab,
                values@[drag_count(start0, evs.take(k), grab) as int],
            ));
        }
        actions.push(action);
        proof {
            k = k + 1;
        }
    }
    proof {
        assert(evs.take(evs.len() as int) == evs);
        assert forall|j: int| 0 <= j < evs.len() implies ((#[trigger] actions@[j] is Hide) <==> (
        is_left_press(evs[j]) && grab is Some)) by {
            lemma_cursor_actions(evs[j], grip_after(start0, evs.take(j), grab), grab);
        }
    }
    (leftover, values, actions)
}

/// The last of `choices` that differs from `start`, if any.
pub open spec fn last_differing(choices: Seq<usize>, start: usize) -> Option<usize>
    decreases choices.len(),
{
    if choices.len() == 0 {
        None
    } else if choices.last() != start {
        Some(choices.last())
    } else {
        last_differing(choices.drop_last(), start)
    }
}

/// What a multi-choice knob reports after a batch: the last choice that its values led to
/// which differs from the choice it started with, if any.
pub fn choice_changed(start: usize, choices: &Vec<usize>) -> (r: Option<usize>)
    ensures
        r == last_differing(choices@, start),
{
    let mut r: Option<usize> = None;
    let n = choices.len();
    let mut i: usize = 0;
    while i < n
        invariant
            n == choices@.len(),
            i <= n,
            r == last_differing(choices@.take(i as int), start),
        decreases n - i,
    {
        proof {
            assert(choices@.take(i + 1).drop_last() == choices@.take(i as int));
        }
        if choices[i] != start {
            r = Some(choices[i]);
        }
        i = i + 1;
    }
    proof {
        assert(choices@.take(n as int) == choices@);
    }
    r
}

/// The kinds of events, by what they are: a left press or release is an input event that
/// presses or releases the left button; a button handles exactly those and focus changes; a
/// knob handles those and pointer moves.
pub proof fn lemma_event_kinds<P, G>(ev: MyEvent<P, G>)
    ensures
        is_left_press(ev) <==> (ev matches MyEvent::GEvent(_, LeftButton::Pressed)),
        is_left_release(ev) <==> (ev matches MyEvent::GEvent(_, LeftButton::Released)),
        button_handles(ev) <==> (ev matches MyEvent::GEvent(_, LeftButton::Pressed) || ev matches MyEvent::GEvent(_, LeftButton::Released) || ev is Focus),
        knob_handles(ev) <==> !(ev matches MyEvent::GEvent(_, LeftButton::Untouched)),
{
}

/// The events left over are exactly those not handled, in their order.
pub proof fn lemma_unhandled_is_filter<P, G>(
    evs: Seq<MyEvent<P, G>>,
    handled: spec_fn(MyEvent<P, G>) -> bool,
)
    ensures
        unhandled(evs, handled) == evs.filter(|ev: MyEvent<P, G>| !handled(ev)),
    decreases evs.len(),
{
    reveal(Seq::filter);
    if evs.len() > 0 {
        lemma_unhandled_is_filter(evs.drop_last(), handled);
    }
}

/// Only left presses change a toggle button, and only they count as clicks: the presses are
/// the events that are left presses, and the button ends flipped exactly when their number
/// is odd.
pub proof fn lemma_toggle_counts_presses<P, G>(on: bool, evs: Seq<MyEvent<P, G>>)
    ensures
        press_count(evs) == evs.filter(|ev: MyEvent<P, G>| is_left_press(ev)).len(),
        toggled_after(on, evs) == (on != (evs.filter(|ev: MyEvent<P, G>| is_left_press(ev)).len()
            % 2 == 1)),
    decreases evs.len(),
{
    reveal(Seq::filter);
    if evs.len() > 0 {
        lemma_toggle_counts_presses(on, evs.drop_last());
    }
}

/// A push button is held down exactly when the last left press or release among the events
/// (if any) is a press, and focused exactly when the last focus change (if any) brings the
/// pointer in; other events change neither.
pub proof fn lemma_button_follows_last<P, G>(pressed: bool, focused: bool, evs: Seq<MyEvent<P, G>>)
    ensures
        pressed_after(pressed, evs) == ({
            let clicks = evs.filter(|ev: MyEvent<P, G>| is_left_press(ev) || is_left_release(ev));
            if clicks.len() == 0 {
                pressed
            } else {
                clicks.last() matches MyEvent::GEvent(_, LeftButton::Pressed)
            }
        }),
        focused_after(focused, evs) == ({
            let changes = evs.filter(|ev: MyEvent<P, G>| ev is Focus);
            if changes.len() == 0 {
                focused
            } else {
                changes.last() matches MyEvent::Focus(Some(_))
            }
        }),
    decreases evs.len(),
{
    reveal(Seq::filter);
    if evs.len() > 0 {
        lemma_button_follows_last(pressed, focused, evs.drop_last());
    }
}

/// A knob hides the cursor exactly for a left press over the knob (which starts a turn),
/// shows it exactly for a left release during a turn (which ends it), and puts it back only
/// for a pointer move during a turn, at the point where the turn started.
pub proof fn lemma_cursor_actions<P, G>(ev: MyEvent<P, G>, grip: Option<P>, grab: Option<P>)
    ensures
        cursor_action_for(ev, grip, grab) is Hide <==> (is_left_press(ev) && grab is Some),
        cursor_action_for(ev, grip, grab) is Show <==> (is_left_release(ev) && grip is Some),
        cursor_action_for(ev, grip, grab) is MoveTo <==> (ev is MousePos && grip is Some),
        cursor_action_for(ev, grip, grab) matches CursorAction::MoveTo(s) ==> grip == Some(s),
        is_left_press(ev) && grab is Some ==> grip_after(grip, seq![ev], grab) == grab,
        is_left_release(ev) ==> grip_after(grip, seq![ev], grab) is None,
{
    assert(seq![ev].drop_last() =~= Seq::<MyEvent<P, G>>::empty());
}

/// The choice reported after a batch: the last choice if it differs from the start; none
/// exactly when every choice is the starting one; and any choice reported is one that
/// differs from the start with only the starting choice after it.
pub proof fn lemma_last_differing(choices: Seq<usize>, start: usize)
    ensures
        choices.len() > 0 && choices.last() != start ==> last_differing(choices, start) == Some(
            choices.last(),
        ),
        last_differing(choices, start) is None <==> forall|k: int|
            0 <= k < choices.len() ==> choices[k] == start,
        last_differing(choices, start) matches Some(x) ==> exists|k: int|
            0 <= k < choices.len() && choices[k] == x && x != start && forall|j: int|
                k < j < choices.len() ==> choices[j] == start,
    decreases choices.len(),
{
    if choices.len() > 0 {
        let init = choices.drop_last();
        lemma_last_differing(init, start);
        if choices.last() != start {
            let k = choices.len() - 1;
            assert(choices[k] == choices.last());
        } else {
            assert forall|k: int| 0 <= k < init.len() implies init[k] == choices[k] by {}
            if let Some(x) = last_differing(init, start) {
                let w = choose|k: int|
                    0 <= k < init.len() && init[k] == x && x != start && forall|j: int|
                        k < j < init.len() ==> init[j] == start;
                assert(choices[w] == x);
                assert forall|j: int| w < j < choices.len() implies choices[j] == start by {
                    if j < init.len() {
                        assert(choices[j] == init[j]);
                    }
                }
            }
        }
    }
}

/// A toggle button ends up flipped exactly when an odd number of left presses reached it.
pub proof fn lemma_toggle_parity<P, G>(on: bool, evs: Seq<MyEvent<P, G>>)
    ensures
        toggled_after(on, evs) == (on != (press_count(evs) % 2 == 1)),
    decreases evs.len(),
{
    if evs.len() > 0 {
        lemma_toggle_parity(on, evs.drop_last());
    }
}

/// No event that a widget handles is ever left over.
pub proof fn lemma_unhandled_excludes_handled<P, G>(
    evs: Seq<MyEvent<P, G>>,
    handled: spec_fn(MyEvent<P, G>) -> bool,
)
    ensures
        forall|k: int|
            0 <= k < unhandled(evs, handled).len() ==> !handled(
                #[trigger] unhandled(evs, handled)[k],
            ),
    decreases evs.len(),
{
    if evs.len() > 0 {
        let prev = unhandled(evs.drop_last(), handled);
        lemma_unhandled_excludes_handled(evs.drop_last(), handled);
        assert forall|k: int|
            0 <= k < unhandled(evs, handled).len() implies !handled(
                #[trigger] unhandled(evs, handled)[k],
            ) by {
            if !handled(evs.last()) && k == prev.len() {
                assert(unhandled(evs, handled)[k] == evs.last());
            } else {
                assert(unhandled(evs, handled)[k] == prev[k]);
            }
        }
    }
}

/// Handling a batch `a` and then a batch `b` leaves over, flips, presses and focuses a widget
/// just as handling `a + b` at once does.
pub proof fn lemma_handlers_compose<P, G>(
    a: Seq<MyEvent<P, G>>,
    b: Seq<MyEvent<P, G>>,
    handled: spec_fn(MyEvent<P, G>) -> bool,
    flag: bool,
)
    ensures
        unhandled(a + b, handled) == unhandled(a, handled) + unhandled(b, handled),
        press_count(a + b) == press_count(a) + press_count(b),
        toggled_after(flag, a + b) == toggled_after(toggled_after(flag, a), b),
        pressed_after(flag, a + b) == pressed_after(pressed_after(flag, a), b),
        focused_after(flag, a + b) == focused_after(focused_after(flag, a), b),
    decreases b.len(),
{
    if b.len() == 0 {
        assert(a + b =~= a);
        assert(unhandled(a, handled) + unhandled(b, handled) =~= unhandled(a, handled));
    } else {
        lemma_handlers_compose(a, b.drop_last(), handled, flag);
        assert((a + b).drop_last() =~= a + b.drop_last());
        assert((a + b).last() == b.last());
        assert(unhandled(a, handled) + unhandled(b.drop_last(), handled).push(b.last())
            =~= (unhandled(a, handled) + unhandled(b.drop_last(), handled)).push(b.last()));
    }
}

} // verus!
