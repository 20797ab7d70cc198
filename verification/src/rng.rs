//! Random numbers.

use std::collections::VecDeque;
use vstd::prelude::*;

verus! {

/// Random numbers that the host has drawn, in the order in which they are used.
#[derive(Debug)]
pub struct RantRng {
    draws: VecDeque<u64>,
}

impl View for RantRng {
    type V = Seq<u64>;

    closed spec fn view(&self) -> Seq<u64> {
        self.draws@
    }
}

impl RantRng {
    pub fn new() -> (rng: Self)
        ensures
            rng@ == Seq::<u64>::empty(),
    {
        RantRng { draws: VecDeque::new() }
    }

    /// Adds a number that was drawn.
    pub fn feed(&mut self, draw: u64)
        ensures
            final(self)@ == old(self)@.push(draw),
    {
        self.draws.push_back(draw);
    }

    pub fn is_empty(&self) -> (empty: bool)
        ensures
            empty == (self@.len() == 0),
    {
        self.draws.len() == 0
    }

    /// A number below `max`, by the next number that was drawn.
    pub fn next_usize(&mut self, max: usize) -> (number: usize)
        requires
            max > 0,
            old(self)@.len() > 0,
        ensures
            number == old(self)@[0] as int % max as int,
            number < max,
            final(self)@ == old(self)@.drop_first(),
    {
        match self.draws.pop_front() {
            Some(draw) => {
                assert(self@ =~= old(self)@.drop_first());
                (draw % (max as u64)) as usize
            },
            None => 0,
        }
    }
}

} // verus!
