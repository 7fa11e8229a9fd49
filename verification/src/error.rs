//! The ways in which a match can fail.

use vstd::prelude::*;

verus! {

/// A failure that ends the match. None is retried: a match is meant to be
/// reproducible from the two modules and the starting board alone.
#[derive(Clone, Copy, Debug, PartialEq, Eq, Hash, Structural)]
pub enum ArenaError {
    /// A bot's module is missing or malformed.
    ModuleLoadError,
    /// A bot was initialized twice, or called before it was initialized, or
    /// the match was driven out of turn.
    ProtocolViolation,
    /// A call of a bot, or the instantiating of its module, used up its
    /// compute budget.
    ComputeBudgetExceeded,
    /// A board was not given as exactly 256 bytes, each at most 9.
    InvalidBoardEncoding,
    /// A bot answered with something other than a paintable colour.
    InvalidMove,
}

} // verus!
