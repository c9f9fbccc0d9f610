use vstd::prelude::*;

verus! {

/// The operations an interactive automaton offers to a display loop:
/// painting a frame, digitizing a drag gesture, and the editing commands.
/// The engines provide this surface as inherent methods, each under its own
/// exact contract; the trait records the shared shape of that surface for
/// callers that want to abstract over it.
pub trait CellAutomata {
    fn draw(&self, screen: &mut Vec<u8>);

    fn set_line(&mut self, x0: isize, y0: isize, x1: isize, y1: isize, alive: bool);

    fn toggle(&mut self);

    fn invert(&mut self);

    fn clear(&mut self);

    fn describe() -> String;
}

} // verus!
