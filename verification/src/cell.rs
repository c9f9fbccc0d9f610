use vstd::prelude::*;

verus! {

/// A cell that carries both a liveness flag and an auxiliary 8-bit payload,
/// for variants that colour cells by more than life and death.
#[derive(Clone, Copy, Debug, PartialEq, Eq, Structural)]
pub struct Cell {
    pub alive: bool,
    pub value: u8,
}

impl Cell {
    pub fn new(alive: bool, value: u8) -> (c: Cell)
        ensures
            c == (Cell { alive, value }),
    {
        Cell { alive, value }
    }

    /// The same cell with its liveness replaced.
    pub fn next_state(self, alive: bool) -> (c: Cell)
        ensures
            c.alive == alive,
            c.value == self.value,
    {
        Cell { alive, value: self.value }
    }

    /// The successor under a totalistic rule table keyed by the neighbour
    /// count `n`.
    pub fn update_neibs(self, n: usize, rule: [bool; 9]) -> (c: Cell)
        requires
            n < 9,
        ensures
            c.alive == rule@[n as int],
            c.value == self.value,
    {
        self.next_state(rule[n])
    }

    pub fn set_value(&mut self, value: u8)
        ensures
            final(self).value == value,
            final(self).alive == old(self).alive,
    {
        self.value = value;
    }

    pub fn set_alive(&mut self, alive: bool)
        ensures
            final(self).alive == alive,
            final(self).value == old(self).value,
    {
        self.alive = alive;
    }

    pub fn toggle(&mut self)
        ensures
            final(self).alive == !old(self).alive,
            final(self).value == old(self).value,
    {
        self.alive = !self.alive;
    }
}

impl Default for Cell {
    /// A dead cell with a zero payload.
    fn default() -> (c: Cell)
        ensures
            c == (Cell { alive: false, value: 0u8 }),
    {
        Cell { alive: false, value: 0 }
    }
}

} // verus!
