//! Players and the computer player.

use vstd::prelude::*;

use crate::ai::negamax::Negamax;
use crate::ai::Ai;
use crate::board::{all_filled, Board};
use crate::mark::Mark;

verus! {

/// Someone who takes turns: a mark, and a way of choosing a cell.
pub trait Player {
    fn get_move(&self, board: &Board) -> usize
        requires
            board.wf(),
            !all_filled(board.cells()),
    ;

    fn mark(&self) -> Mark;
}

/// A player whose moves come from a search strategy.
#[derive(Debug)]
pub struct Computer<T: Ai> {
    ai: T,
    mark: Mark,
}

impl<T: Ai> Computer<T> {
    /// The mark this player places.
    pub closed spec fn plays(&self) -> Mark {
        self.mark
    }

    pub fn new(ai: T, mark: Mark) -> (r: Computer<T>)
        ensures
            r.plays() == mark,
    {
        Computer { ai, mark }
    }
}

impl Computer<Negamax> {
    /// A player that searches with `Negamax`.
    pub fn with_defaults(mark: Mark) -> (r: Computer<Negamax>)
        ensures
            r.plays() == mark,
    {
        Self::new(Negamax, mark)
    }
}

impl<T: Ai> Player for Computer<T> {
    fn get_move(&self, board: &Board) -> (r: usize)
        ensures
            r < board.cells().len(),
            board.cells()[r as int] is None,
    {
        self.ai.search(board, self.mark)
    }

    fn mark(&self) -> (r: Mark)
        ensures
            r == self.plays(),
    {
        self.mark
    }
}

} // verus!
