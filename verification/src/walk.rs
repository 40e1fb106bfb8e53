//! The path that a folding traces through the lattice, and the test that it
//! fills the 3x3x3 cube.

use vstd::prelude::*;
use vstd::relations::injective_on;
use vstd::set_lib::{lemma_int_range, lemma_map_size, lemma_subset_equality, set_int_range};
use crate::rotation::{right, Change, Direction};

verus! {

/// A cell of the integer lattice, as `(x, y, z)`.
pub type Cell = (int, int, int);

/// The direction of the chain after the first `k` hinges of `steps`.
pub open spec fn heading(steps: Seq<Change>, k: nat) -> Direction
    decreases k,
{
    if k == 0 {
        right()
    } else {
        steps[k - 1].apply(heading(steps, (k - 1) as nat))
    }
}

/// The cell in which the `k`-th segment lies when the chain starts in
/// `start`: each segment lies one step from the one before it, in the
/// direction that the chain has after the hinge between them.
pub open spec fn cell_at(steps: Seq<Change>, start: Cell, k: nat) -> Cell
    decreases k,
{
    if k == 0 {
        start
    } else {
        let c = cell_at(steps, start, (k - 1) as nat);
        let d = heading(steps, k);
        (c.0 + d.0, c.1 + d.1, c.2 + d.2)
    }
}

/// Whether a cell lies in the cube, whose cells have coordinates `0` to `2`.
pub open spec fn in_cube(c: Cell) -> bool {
    0 <= c.0 <= 2 && 0 <= c.1 <= 2 && 0 <= c.2 <= 2
}

/// Whether the chain, folded by `steps` and started in `start`, stays in
/// the cube and never enters a cell twice.
pub open spec fn folds_into_cube(steps: Seq<Change>, start: Cell) -> bool {
    &&& forall|k: nat| k < 27 ==> in_cube(#[trigger] cell_at(steps, start, k))
    &&& forall|j: nat, k: nat|
        j < k < 27 ==> #[trigger] cell_at(steps, start, j) != #[trigger] cell_at(steps, start, k)
}

/// The place of a cell of the cube in a row of 27.
pub open spec fn slot_of(c: Cell) -> int {
    9 * c.0 + 3 * c.1 + c.2
}

/// The heading is an axis direction after any number of hinges.
pub proof fn lemma_heading_is_unit(steps: Seq<Change>, k: nat)
    ensures
        heading(steps, k).is_unit(),
    decreases k,
{
    if k > 0 {
        lemma_heading_is_unit(steps, (k - 1) as nat);
    }
}

/// A chain with a segment outside the cube does not fold into it. So a
/// chain whose first step leaves the cube is turned down, whatever follows.
pub proof fn lemma_leaving_the_cube_fails(steps: Seq<Change>, start: Cell, k: nat)
    requires
        k < 27,
        !in_cube(cell_at(steps, start, k)),
    ensures
        !folds_into_cube(steps, start),
{
}

/// A chain with two segments in one cell does not fold into the cube.
pub proof fn lemma_revisit_fails(steps: Seq<Change>, start: Cell, j: nat, k: nat)
    requires
        j < k < 27,
        cell_at(steps, start, j) == cell_at(steps, start, k),
    ensures
        !folds_into_cube(steps, start),
{
}

/// Two cells of the cube with the same slot are the same cell.
proof fn lemma_slot_fixes_cell(a: Cell, b: Cell)
    requires
        in_cube(a),
        in_cube(b),
        slot_of(a) == slot_of(b),
    ensures
        a == b,
{
}

/// The slots that the segments of a chain take, one for each segment.
spec fn slots_taken(steps: Seq<Change>, start: Cell) -> Set<int> {
    set_int_range(0, 27).map(|k: int| slot_of(cell_at(steps, start, k as nat)))
}

/// A chain that folds into the cube takes all 27 slots.
proof fn lemma_fold_takes_all_slots(steps: Seq<Change>, start: Cell)
    requires
        folds_into_cube(steps, start),
    ensures
        slots_taken(steps, start) == set_int_range(0, 27),
{
    let segments = set_int_range(0, 27);
    let slot_at = |k: int| slot_of(cell_at(steps, start, k as nat));
    let taken = segments.map(slot_at);
    lemma_int_range(0, 27);
    assert forall|i: int, j: int|
        segments.contains(i) && segments.contains(j) && #[trigger] slot_at(i) == #[trigger] slot_at(
            j,
        ) implies i == j by {
        let a = cell_at(steps, start, i as nat);
        let b = cell_at(steps, start, j as nat);
        lemma_slot_fixes_cell(a, b);
        if i < j {
            assert((i as nat) < (j as nat) < 27);
        } else if j < i {
            assert((j as nat) < (i as nat) < 27);
        }
    }
    assert(injective_on(slot_at, segments));
    lemma_map_size(segments, taken, slot_at);
    assert forall|s: int| taken.contains(s) implies segments.contains(s) by {
        let k = choose|k: int| segments.contains(k) && s == slot_at(k);
        assert(in_cube(cell_at(steps, start, k as nat)));
    }
    assert(taken.subset_of(segments));
    lemma_subset_equality(taken, segments);
}

/// A chain that folds into the cube fills it: every cell of the cube holds
/// a segment.
pub proof fn lemma_fold_fills_cube(steps: Seq<Change>, start: Cell, c: Cell)
    requires
        folds_into_cube(steps, start),
        in_cube(c),
    ensures
        exists|k: nat| k < 27 && cell_at(steps, start, k) == c,
{
    lemma_fold_takes_all_slots(steps, start);
    let slot_at = |k: int| slot_of(cell_at(steps, start, k as nat));
    assert(set_int_range(0, 27).contains(slot_of(c)));
    assert(slots_taken(steps, start).contains(slot_of(c)));
    let k = choose|k: int| set_int_range(0, 27).contains(k) && slot_of(c) == slot_at(k);
    let found = cell_at(steps, start, k as nat);
    assert(in_cube(found));
    lemma_slot_fixes_cell(found, c);
    assert((k as nat) < 27 && cell_at(steps, start, k as nat) == c);
}

/// Tells whether the chain, folded by `steps` and started in `(x, y, z)`,
/// fills the cube: it walks the chain and stops at the first segment that
/// leaves the cube or lies in a cell already taken.
pub fn is_valid_cube(steps: &[Change; 27], x: i32, y: i32, z: i32) -> (valid: bool)
    ensures
        valid == folds_into_cube(steps@, (x as int, y as int, z as int)),
{
    let ghost start: Cell = (x as int, y as int, z as int);
    let mut visited = [false; 27];
    let mut dir = Direction::right();
    let mut cx: i32 = x;
    let mut cy: i32 = y;
    let mut cz: i32 = z;
    let mut k: usize = 0;
    while k < 27
        invariant
            k <= 27,
            start == (x as int, y as int, z as int),
            dir == heading(steps@, k as nat),
            dir.is_unit(),
            (cx as int, cy as int, cz as int) == cell_at(steps@, start, k as nat),
            forall|j: nat| j < k ==> in_cube(#[trigger] cell_at(steps@, start, j)),
            forall|i: nat, j: nat|
                i < j < k ==> #[trigger] cell_at(steps@, start, i) != #[trigger] cell_at(
                    steps@,
                    start,
                    j,
                ),
            forall|s: int|
                0 <= s < 27 ==> (#[trigger] visited[s] <==> exists|j: nat|
                    j < k && slot_of(#[trigger] cell_at(steps@, start, j)) == s),
        decreases 27 - k,
    {
        if cx < 0 || cx > 2 || cy < 0 || cy > 2 || cz < 0 || cz > 2 {
            return false;
        }
        let slot: usize = (9 * cx + 3 * cy + cz) as usize;
        if visited[slot] {
            proof {
                let j = choose|j: nat|
                    j < k && slot_of(#[trigger] cell_at(steps@, start, j)) == slot;
                assert(cell_at(steps@, start, j) == cell_at(steps@, start, k as nat));
            }
            return false;
        }
        let ghost seen = visited;
        visited[slot] = true;
        dir = steps[k].apply_change(dir);
        cx = cx + dir.0;
        cy = cy + dir.1;
        cz = cz + dir.2;
        k = k + 1;
        proof {
            let here = cell_at(steps@, start, (k - 1) as nat);
            assert forall|s: int| 0 <= s < 27 implies (#[trigger] visited[s] <==> exists|j: nat|
                j < k && slot_of(#[trigger] cell_at(steps@, start, j)) == s) by {
                if s == slot {
                    assert(slot_of(here) == s);
                } else if seen[s] {
                    let j = choose|j: nat|
                        j < k - 1 && slot_of(#[trigger] cell_at(steps@, start, j)) == s;
                    assert(j < k && slot_of(cell_at(steps@, start, j)) == s);
                }
            }
        }
    }
    true
}

/// The direction in which the chain enters each segment's cell: the start
/// direction for the first segment, and for every other the direction
/// after the hinges before it. This is what a report of a folding lists.
pub fn headings(steps: &[Change; 27]) -> (dirs: Vec<Direction>)
    ensures
        dirs@.len() == 27,
        forall|k: int| 0 <= k < 27 ==> #[trigger] dirs@[k] == heading(steps@, k as nat),
        forall|k: int| 0 <= k < 27 ==> (#[trigger] dirs@[k]).is_unit(),
{
    let mut dirs: Vec<Direction> = Vec::with_capacity(27);
    let mut dir = Direction::right();
    let mut k: usize = 0;
    while k < 27
        invariant
            k <= 27,
            dirs@.len() == k,
            dir == heading(steps@, k as nat),
            dir.is_unit(),
            forall|j: int| 0 <= j < k ==> #[trigger] dirs@[j] == heading(steps@, j as nat),
            forall|j: int| 0 <= j < k ==> (#[trigger] dirs@[j]).is_unit(),
        decreases 27 - k,
    {
        dirs.push(dir);
        dir = steps[k].apply_change(dir);
        k = k + 1;
    }
    dirs
}

/// The report of a folding: for each segment the name of the direction in
/// which the chain enters its cell.
pub fn face_labels(steps: &[Change; 27]) -> (names: Vec<&'static str>)
    ensures
        names@.len() == 27,
        forall|k: int|
            0 <= k < 27 ==> (#[trigger] names@[k])@ == heading(steps@, k as nat).label_spec(),
{
    let dirs = headings(steps);
    let mut names: Vec<&'static str> = Vec::with_capacity(27);
    let mut k: usize = 0;
    while k < 27
        invariant
            k <= 27,
            names@.len() == k,
            dirs@.len() == 27,
            forall|j: int| 0 <= j < 27 ==> #[trigger] dirs@[j] == heading(steps@, j as nat),
            forall|j: int| 0 <= j < 27 ==> (#[trigger] dirs@[j]).is_unit(),
            forall|j: int|
                0 <= j < k ==> (#[trigger] names@[j])@ == heading(steps@, j as nat).label_spec(),
        decreases 27 - k,
    {
        names.push(dirs[k].label());
        k = k + 1;
    }
    names
}

} // verus!
