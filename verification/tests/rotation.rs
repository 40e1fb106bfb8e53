use snake_cube::rotation::{Change, Direction};

const CHOICES: [Change; 5] = [
    Change::RotateRight,
    Change::RotateUp,
    Change::RotateLeft,
    Change::RotateDown,
    Change::NoChange,
];

const AXES: [Direction; 6] = [
    Direction(1, 0, 0),
    Direction(-1, 0, 0),
    Direction(0, 1, 0),
    Direction(0, -1, 0),
    Direction(0, 0, 1),
    Direction(0, 0, -1),
];

fn is_axis(d: Direction) -> bool {
    AXES.iter().any(|a| *a == d)
}

#[test]
fn no_change_keeps_the_direction() {
    assert_eq!(Change::NoChange.apply_change(Direction(1, 2, 3)), Direction(1, 2, 3));
}

#[test]
fn rotate_right_shifts_components_forward() {
    assert_eq!(Change::RotateRight.apply_change(Direction(1, 2, 3)), Direction(3, 1, 2));
}

#[test]
fn rotate_up_shifts_components_backward() {
    assert_eq!(Change::RotateUp.apply_change(Direction(1, 2, 3)), Direction(2, 3, 1));
}

#[test]
fn rotate_down_shifts_backward_and_negates() {
    assert_eq!(Change::RotateDown.apply_change(Direction(1, 2, 3)), Direction(-2, -3, -1));
}

#[test]
fn rotate_left_shifts_forward_and_negates() {
    assert_eq!(Change::RotateLeft.apply_change(Direction(1, 2, 3)), Direction(-3, -1, -2));
}

#[test]
fn every_choice_maps_axes_to_axes() {
    for c in CHOICES {
        for d in AXES {
            assert!(is_axis(c.apply_change(d)), "{:?} on {:?}", c, d);
        }
    }
}

#[test]
fn every_choice_permutes_the_axes() {
    for c in CHOICES {
        for (i, a) in AXES.iter().enumerate() {
            for b in AXES.iter().skip(i + 1) {
                assert_ne!(c.apply_change(*a), c.apply_change(*b));
            }
        }
    }
}

#[test]
fn the_rotating_choices_differ_from_each_other() {
    let d = Direction(0, 1, 0);
    for (i, a) in CHOICES.iter().enumerate() {
        for b in CHOICES.iter().skip(i + 1) {
            assert_ne!(a.apply_change(d), b.apply_change(d));
        }
    }
}

#[test]
fn from_numbers_the_choices_in_order() {
    assert_eq!(Change::from(0), Change::RotateRight);
    assert_eq!(Change::from(1), Change::RotateUp);
    assert_eq!(Change::from(2), Change::RotateLeft);
    assert_eq!(Change::from(3), Change::RotateDown);
    assert_eq!(Change::from(4), Change::NoChange);
}

#[test]
fn the_walk_sets_out_to_the_right() {
    assert_eq!(Direction::right(), Direction(0, 1, 0));
    assert_eq!(Direction::right().label(), "RIGHT");
}

#[test]
fn each_axis_has_its_label() {
    assert_eq!(Direction(0, 1, 0).label(), "RIGHT");
    assert_eq!(Direction(0, -1, 0).label(), "LEFT");
    assert_eq!(Direction(0, 0, 1).label(), "UP");
    assert_eq!(Direction(0, 0, -1).label(), "DOWN");
    assert_eq!(Direction(1, 0, 0).label(), "TOWARDS");
    assert_eq!(Direction(-1, 0, 0).label(), "AWAY");
}
