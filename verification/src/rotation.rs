//! Hinge choices and the direction vectors they act on.

use vstd::prelude::*;

verus! {

/// What a hinge does to the direction in which the chain advances.
///
/// The four rotating variants are four distinct invertible maps on the six
/// axis directions. Their names are labels only: nothing depends on which
/// physical rotation each one stands for.
#[derive(Debug, Clone, Copy, PartialEq, Eq, Structural)]
pub enum Change {
    RotateRight,
    RotateUp,
    RotateLeft,
    RotateDown,
    NoChange,
}

/// A step `(dx, dy, dz)` of the chain through the integer lattice.
#[derive(Debug, Clone, Copy, PartialEq, Eq, Structural)]
pub struct Direction(pub i32, pub i32, pub i32);

impl Direction {
    /// One of the six axis directions: one component is `1` or `-1`, the
    /// other two are `0`.
    pub open spec fn is_unit(self) -> bool {
        ||| self.1 == 0 && self.2 == 0 && (self.0 == 1 || self.0 == -1)
        ||| self.0 == 0 && self.2 == 0 && (self.1 == 1 || self.1 == -1)
        ||| self.0 == 0 && self.1 == 0 && (self.2 == 1 || self.2 == -1)
    }

    /// Every component can be negated within `i32`.
    pub open spec fn negatable(self) -> bool {
        self.0 > i32::MIN && self.1 > i32::MIN && self.2 > i32::MIN
    }

    /// The name of an axis direction.
    pub open spec fn label_spec(self) -> Seq<char> {
        if self.1 == 1 {
            "RIGHT"@
        } else if self.1 == -1 {
            "LEFT"@
        } else if self.2 == 1 {
            "UP"@
        } else if self.2 == -1 {
            "DOWN"@
        } else if self.0 == 1 {
            "TOWARDS"@
        } else {
            "AWAY"@
        }
    }

    /// The direction in which every walk sets out.
    pub fn right() -> (d: Direction)
        ensures
            d == right(),
    {
        Direction(0, 1, 0)
    }

    /// The name under which an axis direction is reported.
    pub fn label(&self) -> (name: &'static str)
        requires
            self.is_unit(),
        ensures
            name@ == self.label_spec(),
    {
        if self.1 == 1 {
            "RIGHT"
        } else if self.1 == -1 {
            "LEFT"
        } else if self.2 == 1 {
            "UP"
        } else if self.2 == -1 {
            "DOWN"
        } else if self.0 == 1 {
            "TOWARDS"
        } else {
            "AWAY"
        }
    }
}

/// The direction in which every walk sets out, before the first hinge.
pub open spec fn right() -> Direction {
    Direction(0, 1, 0)
}


impl Change {
    /// The number under which a choice is stored: `0` to `3` for the rotating
    /// choices, `4` for no change.
    pub open spec fn index(self) -> int {
        match self {
            Change::RotateRight => 0,
            Change::RotateUp => 1,
            Change::RotateLeft => 2,
            Change::RotateDown => 3,
            Change::NoChange => 4,
        }
    }

    /// Whether the choice turns the chain, that is, is anything but `NoChange`.
    pub open spec fn is_rotation(self) -> bool {
        self != Change::NoChange
    }

    /// The direction after a hinge with this choice, as a map on triples.
    pub open spec fn apply(self, d: Direction) -> Direction {
        match self {
            Change::NoChange => d,
            Change::RotateRight => Direction(d.2, d.0, d.1),
            Change::RotateUp => Direction(d.1, d.2, d.0),
            Change::RotateDown => Direction((-d.1) as i32, (-d.2) as i32, (-d.0) as i32),
            Change::RotateLeft => Direction((-d.2) as i32, (-d.0) as i32, (-d.1) as i32),
        }
    }

    /// The choice stored under the number `v`.
    pub fn from(v: u32) -> (c: Change)
        requires
            v <= 4,
        ensures
            c.index() == v,
        no_unwind
    {
        if v == 0 {
            Change::RotateRight
        } else if v == 1 {
            Change::RotateUp
        } else if v == 2 {
            Change::RotateLeft
        } else if v == 3 {
            Change::RotateDown
        } else {
            Change::NoChange
        }
    }

    /// Turns the direction `d` by this choice. An axis direction stays an
    /// axis direction.
    pub fn apply_change(&self, d: Direction) -> (r: Direction)
        requires
            d.negatable(),
        ensures
            r == self.apply(d),
            d.is_unit() ==> r.is_unit(),
            r.negatable(),
    {
        let Direction(a, b, c) = d;
        match self {
            Change::NoChange => Direction(a, b, c),
            Change::RotateRight => Direction(c, a, b),
            Change::RotateUp => Direction(b, c, a),
            Change::RotateDown => Direction(-b, -c, -a),
            Change::RotateLeft => Direction(-c, -a, -b),
        }
    }
}

/// Every choice takes an axis direction to an axis direction.
pub proof fn lemma_apply_keeps_axes(c: Change, d: Direction)
    requires
        d.is_unit(),
    ensures
        c.apply(d).is_unit(),
{
}

/// No choice takes two axis directions to the same direction.
pub proof fn lemma_apply_is_injective(c: Change, a: Direction, b: Direction)
    requires
        a.is_unit(),
        b.is_unit(),
        c.apply(a) == c.apply(b),
    ensures
        a == b,
{
}

/// Two different choices take an axis direction to different directions,
/// and none of them turns it back on itself.
pub proof fn lemma_choices_differ(c: Change, e: Change, d: Direction)
    requires
        d.is_unit(),
    ensures
        c != e ==> c.apply(d) != e.apply(d),
        c.apply(d) != Direction((-d.0) as i32, (-d.1) as i32, (-d.2) as i32),
{
}

} // verus!
