use shui::layout::{order_for_axis, oriented, Axis, Layout, Located};
use shui::ui::{LeftButton, MyEvent};

type Ev = MyEvent<(i32, i32), &'static str>;
type Loc = Located<(i32, i32), &'static str>;

fn names(evs: &[Ev]) -> Vec<String> {
    evs.iter()
        .map(|e| match e {
            MyEvent::GEvent(g, _) => format!("G:{}", g),
            MyEvent::MousePos(p) => format!("M:{},{}", p.0, p.1),
            MyEvent::Focus(Some(p)) => format!("F:{},{}", p.0, p.1),
            MyEvent::Focus(None) => "F:-".to_string(),
        })
        .collect()
}

fn three() -> Layout<u32> {
    Layout::new(Axis::X, vec![1, 1, 2], vec![1, 2, 4])
}

#[test]
fn new_layout_has_no_focus() {
    let l = three();
    assert_eq!(l.child_count(), 3);
    assert_eq!(l.focused(), None);
    assert_eq!(l.axis(), Axis::X);
    assert_eq!(l.layout_weight(), &vec![1, 1, 2]);
}

#[test]
fn y_layout_reverses_weights() {
    let l = Layout::new(Axis::Y, vec![1, 2, 3], vec![3, 5, 6]);
    assert_eq!(l.layout_weight(), &vec![3, 2, 1]);
    assert_eq!(l.layout_fract(), &vec![3, 5, 6]);
}

#[test]
fn child_at_finds_first_fraction_above() {
    let l: Layout<f32> = Layout::new(Axis::X, vec![1.0, 3.0], vec![0.25, 1.0]);
    assert_eq!(l.child_at(&0.0), Some(0));
    assert_eq!(l.child_at(&0.2), Some(0));
    assert_eq!(l.child_at(&0.25), Some(1));
    assert_eq!(l.child_at(&0.99), Some(1));
    assert_eq!(l.child_at(&1.0), None);
}

#[test]
fn mouse_move_focuses_child() {
    let mut l = three();
    let out = l.events_for_children(vec![Located::MousePos(1, (5, 6))]);
    assert_eq!(l.focused(), Some(1));
    assert!(out[0].is_empty());
    assert_eq!(names(&out[1]), vec!["M:5,6"]);
    assert!(out[2].is_empty());
}

#[test]
fn moving_to_another_child_moves_focus() {
    let mut l = three();
    let out = l.events_for_children(vec![
        Located::MousePos(0, (1, 1)),
        Located::GEvent("click", LeftButton::Pressed),
        Located::MousePos(2, (3, 4)),
        Located::GEvent("key", LeftButton::Untouched),
    ]);
    assert_eq!(l.focused(), Some(2));
    assert_eq!(names(&out[0]), vec!["M:1,1", "G:click", "F:-"]);
    assert!(out[1].is_empty());
    assert_eq!(names(&out[2]), vec!["F:3,4", "M:3,4", "G:key"]);
}

#[test]
fn input_without_focus_is_dropped() {
    let mut l = three();
    let out = l.events_for_children(vec![Loc::GEvent("key", LeftButton::Untouched)]);
    assert!(out.iter().all(|v| v.is_empty()));
    assert_eq!(l.focused(), None);
}

#[test]
fn leaving_tells_focused_child() {
    let mut l = three();
    let out = l.events_for_children(vec![
        Located::Focus(Some((2, (7, 8)))),
        Located::Focus(None),
        Located::GEvent("late", LeftButton::Released),
    ]);
    assert_eq!(l.focused(), None);
    assert_eq!(names(&out[2]), vec!["F:7,8", "F:-"]);
    assert!(out[0].is_empty() && out[1].is_empty());
}

#[test]
fn entering_does_not_tell_previous_child() {
    let mut l = three();
    l.events_for_children(vec![Loc::MousePos(0, (0, 0))]);
    let out = l.events_for_children(vec![Located::Focus(Some((1, (2, 2))))]);
    assert!(out[0].is_empty());
    assert_eq!(names(&out[1]), vec!["F:2,2"]);
    assert_eq!(l.focused(), Some(1));
}

#[test]
fn two_batches_equal_one() {
    let batch_a = || vec![Located::MousePos(0, (1, 1)), Located::GEvent("a", LeftButton::Pressed)];
    let batch_b = || vec![Located::MousePos(1, (2, 2)), Located::GEvent("b", LeftButton::Released)];
    let mut one = three();
    let mut all = batch_a();
    all.extend(batch_b());
    let together = one.events_for_children(all);
    let mut two = three();
    let first = two.events_for_children(batch_a());
    let second = two.events_for_children(batch_b());
    assert_eq!(one.focused(), two.focused());
    for i in 0..3 {
        let mut joined = names(&first[i]);
        joined.extend(names(&second[i]));
        assert_eq!(names(&together[i]), joined);
    }
}

#[test]
fn oriented_reverses_for_y_only() {
    assert_eq!(oriented(Axis::X, vec![1, 2, 3]), vec![1, 2, 3]);
    assert_eq!(oriented(Axis::Y, vec![1, 2, 3]), vec![3, 2, 1]);
    assert_eq!(oriented(Axis::Y, Vec::<u8>::new()), Vec::<u8>::new());
}

#[test]
fn order_for_axis_numbers_children() {
    assert_eq!(order_for_axis(Axis::X, vec!['a', 'b', 'c']), vec![(0, 'a'), (1, 'b'), (2, 'c')]);
    assert_eq!(order_for_axis(Axis::Y, vec!['a', 'b', 'c']), vec![(0, 'c'), (1, 'b'), (2, 'a')]);
}

#[test]
fn order_undoes_orientation() {
    for axis in [Axis::X, Axis::Y] {
        let v = vec![10, 20, 30, 40];
        assert_eq!(order_for_axis(axis, oriented(axis, v)), vec![(0, 10), (1, 20), (2, 30), (3, 40)]);
    }
}
