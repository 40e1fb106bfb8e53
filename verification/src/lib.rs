//! Exhaustive search for the foldings of a snake cube: a chain of 27 unit
//! cubes that is to be folded into a solid 3x3x3 cube.
//!
//! * [`rotation`]: the five hinge behaviours and how each turns a direction.
//! * [`folding`]: a folding as 27 hinge choices, and the counter it is derived from.
//! * [`walk`]: the path a folding traces, and the test that it fills the cube.
//! * [`search`]: the enumeration of all foldings from one start cell.

pub mod rotation;
pub mod folding;
pub mod walk;
pub mod search;
