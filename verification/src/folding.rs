//! A folding of the chain, and the counter from which it is derived.

use vstd::prelude::*;
use crate::rotation::Change;
use crate::walk::{folds_into_cube, is_valid_cube};

verus! {

/// The steps at which the chain has a free hinge, in the order in which the
/// counter's digits are handed to them. Every other step is rigid.
pub const CHANGERS: [usize; 16] = [2, 3, 4, 6, 7, 9, 10, 11, 13, 15, 16, 17, 18, 20, 22, 24];

/// Whether the `k`-th free hinge sits at step `p`.
pub open spec fn hinge_sits_at(k: int, p: int) -> bool {
    0 <= k < 16 && CHANGERS[k] == p
}

/// The free hinge that sits at step `p`, if there is one.
pub open spec fn hinge_at(p: int) -> Option<int> {
    if exists|k: int| hinge_sits_at(k, p) {
        Some(choose|k: int| hinge_sits_at(k, p))
    } else {
        None
    }
}

/// The `k`-th base-4 digit of `state`, counted from the low end: two bits.
pub open spec fn digit(state: u32, k: int) -> u32 {
    (state >> ((2 * k) as u32)) & 3
}

/// The rotating choice that a digit stands for.
pub open spec fn choice_of(d: u32) -> Change {
    if d == 0 {
        Change::RotateRight
    } else if d == 1 {
        Change::RotateUp
    } else if d == 2 {
        Change::RotateLeft
    } else {
        Change::RotateDown
    }
}

/// The choice that the folding of `state` makes at step `p`: at a free hinge
/// the choice of that hinge's digit, anywhere else no change.
pub open spec fn step_of(state: u32, p: int) -> Change {
    match hinge_at(p) {
        Some(k) => choice_of(digit(state, k)),
        None => Change::NoChange,
    }
}

/// The folding that `state` stands for. A digit has four values, so a free
/// hinge always turns: the counters run through the foldings in which no
/// free hinge is left straight, and through each of them once.
pub open spec fn decode_spec(state: u32) -> Seq<Change> {
    Seq::new(27, |p: int| step_of(state, p))
}

/// Each free hinge sits at a step of its own, and the steps rise with the
/// hinges.
pub proof fn lemma_changers_rise()
    ensures
        forall|k: int| 0 <= k < 16 ==> 0 <= #[trigger] CHANGERS[k] < 27,
        forall|j: int, k: int| 0 <= j < k < 16 ==> #[trigger] CHANGERS[j] < #[trigger] CHANGERS[k],
{
}

/// The step of the `k`-th free hinge holds that hinge and no other.
pub proof fn lemma_hinge_at_changer(k: int)
    requires
        0 <= k < 16,
    ensures
        hinge_at(CHANGERS[k] as int) == Some(k),
{
    lemma_changers_rise();
    let p = CHANGERS[k] as int;
    assert(hinge_sits_at(k, p));
    let j = choose|j: int| hinge_sits_at(j, p);
    assert(j == k);
}

/// The folding of any counter has a rotating choice at each free hinge, the
/// one of that hinge's digit, and no change at every other step.
pub proof fn lemma_decode_shape(state: u32)
    ensures
        decode_spec(state).len() == 27,
        forall|k: int|
            0 <= k < 16 ==> {
                let c = #[trigger] decode_spec(state)[CHANGERS[k] as int];
                c.is_rotation() && c.index() == digit(state, k)
            },
        forall|p: int|
            0 <= p < 27 && (forall|k: int| 0 <= k < 16 ==> CHANGERS[k] != p)
                ==> #[trigger] decode_spec(state)[p] == Change::NoChange,
{
    lemma_changers_rise();
    assert forall|k: int| 0 <= k < 16 implies {
        let c = #[trigger] decode_spec(state)[CHANGERS[k] as int];
        c.is_rotation() && c.index() == digit(state, k)
    } by {
        lemma_hinge_at_changer(k);
        let shift: u32 = (2 * k) as u32;
        assert((state >> shift) & 3 <= 3) by (bit_vector);
    }
    assert forall|p: int|
        0 <= p < 27 && (forall|k: int| 0 <= k < 16 ==> CHANGERS[k] != p) implies #[trigger] decode_spec(
        state,
    )[p] == Change::NoChange by {
        if exists|k: int| hinge_sits_at(k, p) {
            let k = choose|k: int| hinge_sits_at(k, p);
            assert(CHANGERS[k] == p);
        }
    }
}

/// Two counters with the same digits are the same counter.
proof fn lemma_digits_fix_counter(a: u32, b: u32)
    requires
        forall|k: int| 0 <= k < 16 ==> digit(a, k) == digit(b, k),
    ensures
        a == b,
{
    assert(digit(a, 0) == digit(b, 0) && digit(a, 1) == digit(b, 1) && digit(a, 2) == digit(b, 2)
        && digit(a, 3) == digit(b, 3));
    assert(digit(a, 4) == digit(b, 4) && digit(a, 5) == digit(b, 5) && digit(a, 6) == digit(b, 6)
        && digit(a, 7) == digit(b, 7));
    assert(digit(a, 8) == digit(b, 8) && digit(a, 9) == digit(b, 9) && digit(a, 10) == digit(b, 10)
        && digit(a, 11) == digit(b, 11));
    assert(digit(a, 12) == digit(b, 12) && digit(a, 13) == digit(b, 13) && digit(a, 14) == digit(
        b,
        14,
    ) && digit(a, 15) == digit(b, 15));
    assert(a == b) by (bit_vector)
        requires
            (a >> 0) & 3 == (b >> 0) & 3,
            (a >> 2) & 3 == (b >> 2) & 3,
            (a >> 4) & 3 == (b >> 4) & 3,
            (a >> 6) & 3 == (b >> 6) & 3,
            (a >> 8) & 3 == (b >> 8) & 3,
            (a >> 10) & 3 == (b >> 10) & 3,
            (a >> 12) & 3 == (b >> 12) & 3,
            (a >> 14) & 3 == (b >> 14) & 3,
            (a >> 16) & 3 == (b >> 16) & 3,
            (a >> 18) & 3 == (b >> 18) & 3,
            (a >> 20) & 3 == (b >> 20) & 3,
            (a >> 22) & 3 == (b >> 22) & 3,
            (a >> 24) & 3 == (b >> 24) & 3,
            (a >> 26) & 3 == (b >> 26) & 3,
            (a >> 28) & 3 == (b >> 28) & 3,
            (a >> 30) & 3 == (b >> 30) & 3,
    ;
}

/// No two counters stand for the same folding.
pub proof fn lemma_decode_injective(a: u32, b: u32)
    requires
        decode_spec(a) == decode_spec(b),
    ensures
        a == b,
{
    assert forall|k: int| 0 <= k < 16 implies digit(a, k) == digit(b, k) by {
        lemma_decode_shape(a);
        lemma_decode_shape(b);
        let p = CHANGERS[k] as int;
        assert(decode_spec(a)[p].index() == digit(a, k));
        assert(decode_spec(b)[p].index() == digit(b, k));
    }
    lemma_digits_fix_counter(a, b);
}

/// Writes the digits of `state` into the free hinges of `steps` and leaves
/// the rigid steps as they are.
fn refold(steps: &mut [Change; 27], state: u32)
    ensures
        forall|p: int|
            0 <= p < 27 ==> #[trigger] final(steps)[p] == match hinge_at(p) {
                Some(k) => choice_of(digit(state, k)),
                None => old(steps)[p],
            },
    no_unwind
{
    let ghost before = *steps;
    let mut v: u32 = state;
    let mut k: usize = 0;
    assert(state >> 0 == state) by (bit_vector);
    while k < 16
        invariant
            k <= 16,
            k < 16 ==> v == state >> ((2 * k) as u32),
            forall|p: int|
                0 <= p < 27 ==> #[trigger] steps[p] == match hinge_at(p) {
                    Some(j) => if j < k {
                        choice_of(digit(state, j))
                    } else {
                        before[p]
                    },
                    None => before[p],
                },
        decreases 16 - k,
    {
        let d: u32 = v & 3;
        let c: usize = CHANGERS[k];
        let ghost shift: u32 = (2 * k) as u32;
        proof {
            lemma_changers_rise();
            lemma_hinge_at_changer(k as int);
            assert(v & 3 <= 3) by (bit_vector);
            assert(shift <= 28 ==> (state >> shift) >> 2 == state >> ((shift + 2) as u32))
                by (bit_vector);
        }
        steps[c] = Change::from(d);
        v = v >> 2;
        k = k + 1;
    }
}

/// The folding that `state` stands for.
pub fn decode(state: u32) -> (steps: [Change; 27])
    ensures
        steps@ == decode_spec(state),
{
    let mut steps = [Change::NoChange; 27];
    refold(&mut steps, state);
    assert(steps@ =~= decode_spec(state));
    steps
}

/// A cursor over all foldings of the chain: a counter, and beside it the
/// folding that the counter stands for.
#[derive(Debug)]
pub struct Snake {
    steps: [Change; 27],
    state: u32,
}

impl Snake {
    #[verifier::type_invariant]
    spec fn folded(self) -> bool {
        self.steps@ == decode_spec(self.state)
    }

    /// The counter of the cursor.
    pub closed spec fn counter(self) -> u32 {
        self.state
    }

    /// The cursor at the first folding.
    pub fn new() -> (snake: Snake)
        ensures
            snake.counter() == 0,
    {
        Snake::from_state(0)
    }

    /// The cursor at the folding of `state`.
    pub fn from_state(state: u32) -> (snake: Snake)
        ensures
            snake.counter() == state,
    {
        Snake { steps: decode(state), state }
    }

    /// The counter of the cursor.
    pub fn state(&self) -> (state: u32)
        ensures
            state == self.counter(),
    {
        self.state
    }

    /// The folding at which the cursor stands.
    pub fn steps(&self) -> (steps: [Change; 27])
        ensures
            steps@ == decode_spec(self.counter()),
    {
        proof {
            use_type_invariant(self);
        }
        self.steps
    }

    /// Tells whether the folding at which the cursor stands fills the cube
    /// when the chain starts in `(x, y, z)`.
    pub fn is_cube(&self, x: i32, y: i32, z: i32) -> (valid: bool)
        ensures
            valid == folds_into_cube(
                decode_spec(self.counter()),
                (x as int, y as int, z as int),
            ),
    {
        proof {
            use_type_invariant(self);
        }
        is_valid_cube(&self.steps, x, y, z)
    }

    /// Moves the cursor to the next folding. The last folding has no next.
    pub fn rotate_cube(&mut self)
        requires
            old(self).counter() < u32::MAX,
        ensures
            final(self).counter() == old(self).counter() + 1,
        no_unwind
    {
        proof {
            use_type_invariant(&*self);
        }
        let state: u32 = self.state + 1;
        let mut steps = self.steps;
        refold(&mut steps, state);
        assert(steps@ =~= decode_spec(state));
        *self = Snake { steps, state };
    }
}

} // verus!
