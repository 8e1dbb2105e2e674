use shui::util::{clamp, VecExt};

#[test]
fn clamp_below_takes_lower_bound() {
    assert_eq!(clamp(-3, 0, 10), 0);
}

#[test]
fn clamp_above_takes_upper_bound() {
    assert_eq!(clamp(42, 0, 10), 10);
}

#[test]
fn clamp_inside_keeps_value() {
    assert_eq!(clamp(7, 0, 10), 7);
    assert_eq!(clamp(0, 0, 10), 0);
    assert_eq!(clamp(10, 0, 10), 10);
}

#[test]
fn clamp_floats_like_knob_values() {
    assert_eq!(clamp(1.4f32, 0.0, 1.0), 1.0);
    assert_eq!(clamp(-0.2f32, 0.0, 1.0), 0.0);
    assert_eq!(clamp(0.25f32, 0.0, 1.0), 0.25);
}

#[test]
fn clamp_twice_is_clamp_once() {
    for x in -5..15 {
        let once = clamp(x, 0, 10);
        assert_eq!(clamp(once, 0, 10), once);
    }
}

#[test]
fn move_contents_empties_the_vector() {
    let mut v = vec![1, 2, 3];
    let taken = v.move_contents();
    assert_eq!(taken, vec![1, 2, 3]);
    assert!(v.is_empty());
    let again = v.move_contents();
    assert!(again.is_empty());
}

#[test]
fn clamp_keeps_order() {
    for x1 in -5..15 {
        for x2 in x1..15 {
            assert!(clamp(x1, 0, 10) <= clamp(x2, 0, 10));
        }
    }
}
