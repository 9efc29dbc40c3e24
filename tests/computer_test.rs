use std::cell::RefCell;
use ttt_rs::{Ai, Board, Computer, Mark, Player};

struct DoubleAi {
    moves: RefCell<Vec<usize>>,
}

impl DoubleAi {
    fn new(moves: Vec<usize>) -> Self {
        Self {
            moves: RefCell::new(moves),
        }
    }
}

impl Ai for DoubleAi {
    fn search(&self, _board: &Board, _mark: Mark) -> usize {
        self.moves.borrow_mut().pop().unwrap()
    }
}

fn new_board() -> Board {
    Board::new(9).unwrap()
}

fn new_computer(moves: Vec<usize>) -> Computer<DoubleAi> {
    let ai = DoubleAi::new(moves);
    Computer::new(ai, Mark::X)
}

#[test]
fn computer_it_returns_the_mark() {
    assert_eq!(Mark::X, new_computer(vec![]).mark());
}

#[test]
fn it_returns_a_valid_move() {
    let computer = new_computer(vec![1, 8]);
    assert_eq!(8, computer.get_move(&new_board()));
    assert_eq!(1, computer.get_move(&new_board()));
}

#[test]
fn it_searches_with_negamax_by_default() {
    let computer = Computer::with_defaults(Mark::O);
    assert_eq!(Mark::O, computer.mark());
    let mut board = new_board();
    board.set_mark(0, Mark::X);
    assert_eq!(4, computer.get_move(&board));
}
