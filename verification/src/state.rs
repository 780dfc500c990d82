//! The persisted record of a match: the list of moves made.

use vstd::prelude::*;

verus! {

/// One submitted move: the origin and destination coordinates, as
/// they are persisted in a match record.
#[derive(PartialEq, Eq, Clone, Copy, Debug)]
pub struct ChessMove {
    /// Where the moved piece stood.
    pub original: (usize, usize),
    /// Where it was sent.
    pub new: (usize, usize),
}

} // verus!
