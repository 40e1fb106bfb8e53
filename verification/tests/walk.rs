use snake_cube::folding::{decode, Snake};
use snake_cube::rotation::{Change, Direction};
use snake_cube::walk::{headings, is_valid_cube};

const SOLVED: u32 = 1_021_958_780;
const SOLVED_TOO: u32 = 1_773_965_097;

#[test]
fn a_first_step_out_of_the_cube_is_turned_down() {
    // The chain sets out to the right, so from y = 2 its second segment lies at y = 3.
    let steps = [Change::NoChange; 27];
    assert!(!is_valid_cube(&steps, 0, 2, 0));
    assert!(!Snake::new().is_cube(0, 2, 0));
    assert!(!Snake::from_state(SOLVED).is_cube(0, 2, 0));
}

#[test]
fn a_straight_chain_leaves_the_cube() {
    let steps = [Change::NoChange; 27];
    assert!(!is_valid_cube(&steps, 0, 0, 0));
}

#[test]
fn a_start_outside_the_cube_is_turned_down() {
    let steps = decode(SOLVED);
    assert!(!is_valid_cube(&steps, -1, 0, 0));
    assert!(!is_valid_cube(&steps, 3, 0, 0));
    assert!(!is_valid_cube(&steps, 5, 0, 0));
    assert!(!is_valid_cube(&steps, 0, 0, -1));
    assert!(!is_valid_cube(&steps, 0, 0, 3));
    assert!(!is_valid_cube(&steps, 0, -4, 0));
    assert!(!is_valid_cube(&steps, i32::MAX, i32::MIN, 0));
}

#[test]
fn a_chain_that_comes_back_to_a_cell_is_turned_down() {
    // Right, right, up, left, down: the sixth segment lies where the second does.
    let mut steps = [Change::NoChange; 27];
    steps[2] = Change::RotateRight;
    steps[3] = Change::RotateDown;
    steps[4] = Change::RotateRight;
    let dirs = headings(&steps);
    assert_eq!(dirs[3], Direction(0, 0, 1));
    assert_eq!(dirs[4], Direction(0, -1, 0));
    assert_eq!(dirs[5], Direction(0, 0, -1));
    assert!(!is_valid_cube(&steps, 0, 0, 0));
    assert!(!is_valid_cube(&decode(12), 0, 0, 0));
    assert!(!Snake::from_state(12).is_cube(0, 0, 0));
}

#[test]
fn the_known_folding_fills_the_cube_from_the_corner() {
    assert!(is_valid_cube(&decode(SOLVED), 0, 0, 0));
    assert!(Snake::from_state(SOLVED).is_cube(0, 0, 0));
}

#[test]
fn the_second_known_folding_fills_the_cube_from_the_corner() {
    assert!(Snake::from_state(SOLVED_TOO).is_cube(0, 0, 0));
}

#[test]
fn the_known_folding_fails_from_every_other_cell() {
    let steps = decode(SOLVED);
    for x in 0..3i32 {
        for y in 0..3i32 {
            for z in 0..3i32 {
                assert_eq!(is_valid_cube(&steps, x, y, z), (x, y, z) == (0, 0, 0));
            }
        }
    }
}

#[test]
fn the_neighbours_of_the_known_folding_do_not_fill_the_cube() {
    for s in (SOLVED - 50)..(SOLVED + 50) {
        assert_eq!(Snake::from_state(s).is_cube(0, 0, 0), s == SOLVED);
        assert!(!Snake::from_state(s).is_cube(1, 0, 0));
        assert!(!Snake::from_state(s).is_cube(1, 0, 1));
    }
}

#[test]
fn the_known_folding_visits_every_cell_once() {
    let dirs = headings(&decode(SOLVED));
    let mut seen = [[[false; 3]; 3]; 3];
    let (mut x, mut y, mut z) = (0i32, 0i32, 0i32);
    seen[0][0][0] = true;
    for d in dirs.iter().skip(1) {
        x += d.0;
        y += d.1;
        z += d.2;
        assert!((0..3).contains(&x) && (0..3).contains(&y) && (0..3).contains(&z));
        assert!(!seen[x as usize][y as usize][z as usize]);
        seen[x as usize][y as usize][z as usize] = true;
    }
    assert!(seen.iter().flatten().flatten().all(|cell| *cell));
}

#[test]
fn headings_start_to_the_right() {
    let dirs = headings(&[Change::NoChange; 27]);
    assert_eq!(dirs.len(), 27);
    assert!(dirs.iter().all(|d| *d == Direction(0, 1, 0)));
}

#[test]
fn headings_list_the_direction_before_each_hinge() {
    let mut steps = [Change::NoChange; 27];
    steps[0] = Change::RotateDown;
    steps[26] = Change::RotateUp;
    let dirs = headings(&steps);
    assert_eq!(dirs[0], Direction(0, 1, 0));
    assert_eq!(dirs[1], Direction(-1, 0, 0));
    assert_eq!(dirs[26], Direction(-1, 0, 0));
}

#[test]
fn the_known_folding_is_reported_by_its_face_directions() {
    let expected = [
        "RIGHT", "RIGHT", "RIGHT", "UP", "LEFT", "TOWARDS", "TOWARDS", "UP", "AWAY", "AWAY",
        "RIGHT", "TOWARDS", "DOWN", "DOWN", "LEFT", "LEFT", "UP", "AWAY", "UP", "TOWARDS",
        "TOWARDS", "DOWN", "DOWN", "RIGHT", "RIGHT", "UP", "UP",
    ];
    let dirs = headings(&Snake::from_state(SOLVED).steps());
    let labels: Vec<&str> = dirs.iter().map(|d| d.label()).collect();
    assert_eq!(labels, expected);
}
