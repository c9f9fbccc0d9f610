use vstd::prelude::*;

verus! {

/// A construction-time failure.  Once an engine has been built, stepping it
/// can no longer fail: steps are total functions over a valid lattice.
#[derive(Clone, Copy, Debug, PartialEq, Eq, Structural)]
pub enum AutomataError {
    /// A lattice dimension is zero, or the cell count overflows `usize`.
    InvalidDimensions,
    /// A rule code at or above the bound of its rule family.
    InvalidRuleCode,
    /// The operating system's entropy source failed while seeding.
    EntropyFailure,
}

} // verus!
