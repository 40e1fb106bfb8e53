//! The enumeration of all foldings from one start cell, as a sequence of
//! events: progress marks, foldings that fill the cube, and the end.

use vstd::prelude::*;
use vstd::arithmetic::div_mod::{
    lemma_fundamental_div_mod, lemma_mod_add_multiples_vanish, lemma_mod_decreases,
    lemma_mod_multiples_basic, lemma_mod_pos_bound,
};
use crate::folding::{decode_spec, Snake};
use crate::walk::{folds_into_cube, Cell};

verus! {

/// The number of foldings: four choices at each of sixteen free hinges.
pub const STATES: u64 = 0x1_0000_0000;

/// The number of foldings between two progress marks, unless a search is
/// given another.
pub const INTERVAL: u32 = 100_000_000;

/// The cells from which a search is run. By the symmetry of the cube any
/// other start cell repeats one of these.
pub const STARTS: [(i32, i32, i32); 3] = [(0, 0, 0), (1, 0, 0), (1, 0, 1)];

/// Whether the folding of `state`, started in `start`, fills the cube.
pub open spec fn solves(state: int, start: Cell) -> bool {
    folds_into_cube(decode_spec(state as u32), start)
}

/// Whether none of the foldings from `lo` up to, not including, `hi` fills
/// the cube from `start`.
pub open spec fn none_solves(lo: int, hi: int, start: Cell) -> bool {
    forall|s: int| lo <= s < hi ==> !#[trigger] solves(s, start)
}

/// Taking the remainder off a count gives a multiple of the interval, and
/// so does adding the interval to a multiple.
proof fn lemma_multiples(count: int, interval: int)
    requires
        0 <= count,
        0 < interval,
    ensures
        0 <= count % interval < interval,
        count % interval <= count,
        (count - count % interval) % interval == 0,
        (count - count % interval + interval) % interval == 0,
{
    let whole = count - count % interval;
    lemma_mod_pos_bound(count, interval);
    lemma_mod_decreases(count as nat, interval as nat);
    lemma_fundamental_div_mod(count, interval);
    assert(whole == (count / interval) * interval) by (nonlinear_arith)
        requires
            count == interval * (count / interval) + (count % interval),
            whole == count - count % interval,
    ;
    lemma_mod_multiples_basic(count / interval, interval);
    lemma_mod_add_multiples_vanish(whole, interval);
    assert(interval + whole == whole + interval);
}

/// What a search has to report.
#[derive(Debug, Clone, Copy, PartialEq, Eq, Structural)]
pub enum Event {
    /// So many foldings have been tried so far.
    Progress(u64),
    /// The folding of this counter fills the cube.
    Found(u32),
    /// Every folding has been tried.
    Done,
}

/// A search through all foldings from one start cell.
#[derive(Debug)]
pub struct Search {
    snake: Snake,
    exhausted: bool,
    owed: u64,
    interval: u32,
    x: i32,
    y: i32,
    z: i32,
}

impl Search {
    #[verifier::type_invariant]
    spec fn paced(self) -> bool {
        &&& self.interval > 0
        &&& self.owed % (self.interval as u64) == 0
        &&& self.tried() <= self.owed <= self.tried() + self.interval
    }

    /// The number of foldings tried so far, which is also the counter of the
    /// folding to try next.
    pub closed spec fn tried(self) -> int {
        if self.exhausted {
            STATES as int
        } else {
            self.snake.counter() as int
        }
    }

    /// The count at which the next progress mark is due.
    pub closed spec fn owed(self) -> int {
        self.owed as int
    }

    /// The number of foldings between two progress marks.
    pub closed spec fn interval(self) -> int {
        self.interval as int
    }

    /// The cell in which the chain starts.
    pub closed spec fn start(self) -> Cell {
        (self.x as int, self.y as int, self.z as int)
    }

    /// A search from `(x, y, z)` that has tried nothing yet and owes the
    /// progress mark of zero; its marks come at every `INTERVAL` foldings.
    pub fn new(x: i32, y: i32, z: i32) -> (search: Search)
        ensures
            search.tried() == 0,
            search.owed() == 0,
            search.interval() == INTERVAL,
            search.start() == (x as int, y as int, z as int),
    {
        Search::starting_at(x, y, z, 0, INTERVAL)
    }

    /// A search from `(x, y, z)` that takes up the enumeration at the folding
    /// of `state`, as if every folding before it had been tried, with marks
    /// at every `interval` foldings: it owes the first mark at or after
    /// `state`.
    pub fn starting_at(x: i32, y: i32, z: i32, state: u32, interval: u32) -> (search: Search)
        requires
            interval > 0,
        ensures
            search.tried() == state,
            search.interval() == interval,
            search.owed() % (interval as int) == 0,
            state <= search.owed() < state + interval,
            search.start() == (x as int, y as int, z as int),
    {
        proof {
            lemma_multiples(state as int, interval as int);
        }
        let past: u64 = state as u64 % interval as u64;
        let owed: u64 = if past == 0 {
            state as u64
        } else {
            state as u64 - past + interval as u64
        };
        Search { snake: Snake::from_state(state), exhausted: false, owed, interval, x, y, z }
    }

    /// The number of foldings tried so far.
    pub fn count(&self) -> (n: u64)
        ensures
            n == self.tried(),
    {
        if self.exhausted {
            STATES
        } else {
            self.snake.state() as u64
        }
    }

    /// Runs the search up to its next event and returns it.
    ///
    /// Foldings are tried in the order of their counters. A progress mark
    /// comes when the count of foldings tried reaches the count owed, before
    /// the next folding is tried; the count owed then grows by the interval.
    /// A find comes at the first folding that fills the cube. The end comes
    /// when every folding has been tried, and again at each later call.
    pub fn next_event(&mut self) -> (event: Event)
        ensures
            final(self).start() == old(self).start(),
            final(self).interval() == old(self).interval(),
            old(self).tried() <= final(self).tried() <= STATES,
            match event {
                Event::Progress(n) => {
                    &&& n == old(self).owed()
                    &&& n % (old(self).interval() as u64) == 0
                    &&& n == final(self).tried()
                    &&& final(self).owed() == n + old(self).interval()
                    &&& none_solves(old(self).tried(), n as int, old(self).start())
                },
                Event::Found(s) => {
                    &&& old(self).tried() <= s < old(self).owed()
                    &&& solves(s as int, old(self).start())
                    &&& none_solves(old(self).tried(), s as int, old(self).start())
                    &&& final(self).tried() == s + 1
                    &&& final(self).owed() == old(self).owed()
                },
                Event::Done => {
                    &&& old(self).owed() > STATES
                    &&& none_solves(old(self).tried(), STATES as int, old(self).start())
                    &&& final(self).tried() == STATES
                    &&& final(self).owed() == old(self).owed()
                },
            },
    {
        loop
            invariant
                self.start() == old(self).start(),
                self.interval() == old(self).interval(),
                self.owed() == old(self).owed(),
                old(self).tried() <= self.tried() <= STATES,
                none_solves(old(self).tried(), self.tried(), self.start()),
            decreases STATES - self.tried(),
        {
            proof {
                use_type_invariant(&*self);
            }
            let tried: u64 = self.count();
            if tried == self.owed {
                proof {
                    lemma_multiples(self.owed as int, self.interval as int);
                }
                self.owed = self.owed + self.interval as u64;
                return Event::Progress(tried);
            }
            if self.exhausted {
                return Event::Done;
            }
            let state: u32 = self.snake.state();
            let valid = self.snake.is_cube(self.x, self.y, self.z);
            if state == u32::MAX {
                self.exhausted = true;
            } else {
                self.snake.rotate_cube();
            }
            if valid {
                return Event::Found(state);
            }
        }
    }
}

} // verus!
