//! Move search strategies.

use vstd::prelude::*;

use crate::board::{all_filled, Board};
use crate::mark::Mark;

pub mod negamax;

verus! {

/// A way of picking a move: given a board with an empty cell and the mark to
/// play, name one of the empty cells.
pub trait Ai {
    fn search(&self, board: &Board, mark: Mark) -> (r: usize)
        requires
            board.wf(),
            !all_filled(board.cells()),
        ensures
            r < board.cells().len(),
            board.cells()[r as int] is None,
    ;
}

} // verus!
