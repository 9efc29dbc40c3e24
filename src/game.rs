//! One game: the board, the players in turn order, and the messages.

use vstd::prelude::*;

use crate::board::{game_over, Board};
use crate::mark::Mark;
use crate::player::Player;
use crate::std_io::StdIo;
use crate::ui::Ui;

verus! {

/// A game in progress: the board, the players in turn order, and the messages.
pub struct Game<U: StdIo> {
    board: Board,
    players: Vec<Box<dyn Player>>,
    ui: Ui<U>,
}

impl<U: StdIo> Game<U> {
    /// The board as it stands.
    pub closed spec fn state(&self) -> Board {
        self.board
    }

    /// How many players take turns.
    pub closed spec fn seats(&self) -> nat {
        self.players@.len()
    }

    pub fn new(board: Board, players: Vec<Box<dyn Player>>, ui: Ui<U>) -> (r: Game<U>)
        ensures
            r.state() == board,
            r.seats() == players@.len(),
    {
        Game { board, players, ui }
    }

    pub fn board(&self) -> (r: &Board)
        ensures
            *r == self.state(),
    {
        &self.board
    }

    pub fn ui_mut(&mut self) -> (r: &mut Ui<U>)
        ensures
            final(self).state() == old(self).state(),
            final(self).seats() == old(self).seats(),
    {
        &mut self.ui
    }

    /// How many players take turns.
    pub fn player_count(&self) -> (r: usize)
        ensures
            r == self.seats(),
    {
        self.players.len()
    }

    /// Whether the game has ended.
    pub fn is_over(&self) -> (r: bool)
        requires
            self.state().wf(),
        ensures
            r == game_over(self.state().cells(), self.state().width()),
    {
        self.board.is_game_over()
    }

    /// Shows the numbered board after an empty line.
    pub fn print_board(&self)
        requires
            self.state().wf(),
    {
        let drawing = self.board.to_pretty_string();
        let mut text = String::from_str("\n");
        text.append(drawing.as_str());
        self.ui.print(text.as_str());
    }

    /// Shows the final board, then the winner, or a draw when no line is filled.
    pub fn announce_result(&self)
        requires
            self.state().wf(),
    {
        self.print_board();
        match self.board.winner() {
            Some(w) => {
                let name = w.to_string();
                self.ui.print_winner(name.as_str());
            },
            None => {
                self.ui.print_draw();
            },
        }
    }

    /// Puts `mark` into cell `position` if that cell exists and is empty;
    /// the result says whether it did.
    pub fn place_if_free(&mut self, position: usize, mark: Mark) -> (r: bool)
        requires
            old(self).state().wf(),
        ensures
            final(self).state().wf(),
            final(self).state().width() == old(self).state().width(),
            final(self).seats() == old(self).seats(),
            r == (position < old(self).state().cells().len()
                && old(self).state().cells()[position as int] is None),
            r ==> final(self).state().cells() == old(self).state().cells().update(
                position as int,
                Some(mark),
            ),
            !r ==> final(self).state().cells() == old(self).state().cells(),
    {
        if self.board.is_available_cell(position) {
            self.board.set_mark(position, mark);
            true
        } else {
            false
        }
    }

    /// One try of the player whose turn `turn` is: the player is told to move
    /// and names a cell; if the cell is free the player's mark goes there and
    /// the result is true, else nothing changes and the result is false.
    pub fn attempt_turn(&mut self, turn: usize) -> (r: bool)
        requires
            old(self).state().wf(),
            !game_over(old(self).state().cells(), old(self).state().width()),
            old(self).seats() > 0,
        ensures
            final(self).state().wf(),
            final(self).state().width() == old(self).state().width(),
            final(self).seats() == old(self).seats(),
            !r ==> final(self).state().cells() == old(self).state().cells(),
            r ==> exists|i: int, m|
                0 <= i < old(self).state().cells().len() && old(self).state().cells()[i] is None
                    && final(self).state().cells() == old(self).state().cells().update(
                    i,
                    Some(m),
                ),
    {
        let player = &self.players[turn % self.players.len()];
        let mark = player.mark();
        let mark_text = mark.to_string();
        self.ui.print_turn_message(mark_text.as_str());
        let position = player.get_move(&self.board);
        self.place_if_free(position, mark)
    }
}

} // verus!
