use vstd::prelude::*;

verus! {

/// Every way a solve can fail, from parsing the textual layout to walking the
/// solution path.
#[derive(Clone, Copy, Debug, PartialEq, Eq, Structural)]
pub enum Error {
    /// The textual layout holds a character that is not a token.
    BadToken,
    /// The textual layout does not form 5 non-blank lines of 4 tokens.
    BadSize,
    /// The board breaks a structural invariant: overlapping or out-of-bounds
    /// footprints, a non-uniform footprint, or wrong block/empty-cell counts.
    InvalidBoard,
    /// The search created as many nodes as the caller's budget allows.
    BudgetExceeded(usize),
    /// The open frontier ran dry before the goal was reached.
    Unsolvable,
    /// Two adjacent boards of a presumed solution path are not related by one
    /// legal slide.
    InconsistentStep,
    /// The narrator was handed a root board that is already solved.
    NoSteps,
}

} // verus!
