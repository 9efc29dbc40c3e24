use ttt_rs::{Board, BoardError, Mark};

fn new_board() -> Board {
    Board::new(9).unwrap()
}

/// A board with one cell per character: `O` or `X` (either case) is a mark,
/// anything else an empty cell.
fn board_from(text: &str) -> Board {
    let mut board = Board::new(text.len()).expect("board size is not a perfect square");
    for (index, ch) in text.to_uppercase().chars().enumerate() {
        let mark = match ch {
            'O' => Some(Mark::O),
            'X' => Some(Mark::X),
            _ => None,
        };
        if let Some(mark) = mark {
            board.set_mark(index, mark);
        }
    }
    board
}

#[test]
fn it_gets_size() {
    let board = new_board();
    assert_eq!(9, board.size());
}

#[test]
fn it_gets_row_size() {
    let board = new_board();
    assert_eq!(3, board.row_size());
}

#[test]
fn it_iterates_over_grid() {
    let board = new_board();
    for cell in board.iter() {
        assert_eq!(None, cell.as_ref());
    }
}

#[test]
fn it_returns_empty_cell_indices() {
    let mut board = new_board();
    board.set_mark(0, Mark::O);
    assert_eq!(vec![1, 2, 3, 4, 5, 6, 7, 8], board.empty_cell_indices());
    for n in 1..9 {
        board.set_mark(n, Mark::O);
    }
    let empty_vec: Vec<usize> = vec![];
    assert_eq!(empty_vec, board.empty_cell_indices());
}

#[test]
fn it_sets_and_gets_mark_at_cell() {
    let mut board = new_board();
    assert_eq!(None, board.mark(0));
    assert_eq!(None, board.set_mark(0, Mark::O));
    assert_eq!(Some(Mark::O), board.mark(0));
}

#[test]
fn it_checks_if_cell_is_occupied() {
    let mut board = new_board();
    assert_eq!(false, board.is_occupied(0));
    assert_eq!(None, board.set_mark(0, Mark::O));
    assert_eq!(true, board.is_occupied(0));
}

#[test]
fn it_checks_if_all_cells_occupied() {
    let mut board = new_board();
    board.set_mark(0, Mark::O);
    assert_eq!(false, board.is_all_occupied());
    for n in 1..9 {
        board.set_mark(n, Mark::O);
    }
    assert_eq!(true, board.is_all_occupied());
}

#[test]
fn it_clears_cell() {
    let mut board = new_board();
    board.set_mark(0, Mark::X);
    assert_eq!(Some(Mark::X), board.reset_mark(0));
    assert_eq!(None, board.mark(0));
}

#[test]
fn it_displays_the_board_as_string() {
    let board_str = "OOOOOOOOO";
    let board = board_from(board_str);
    assert_eq!(board_str, board.to_string());
}

#[test]
fn it_pretty_prints_the_board() {
    let board = board_from(" OOO OOO ");
    let board_string = r#" 0 | O | O
---+---+---
 O | 4 | O
---+---+---
 O | O | 8
"#;

    assert_eq!(board_string, board.to_pretty_string());
}

#[test]
fn it_generates_win_combos_for_3x3() {
    let board = new_board();
    let expectation: Vec<Vec<usize>> = vec![
        vec![0, 1, 2],
        vec![3, 4, 5],
        vec![6, 7, 8],
        vec![0, 3, 6],
        vec![1, 4, 7],
        vec![2, 5, 8],
        vec![0, 4, 8],
        vec![6, 4, 2],
    ];
    assert_eq!(&expectation, board.win_combos());
}

#[test]
fn it_generates_win_combos_for_4x4() {
    let board = Board::new(16).unwrap();
    let expectation: Vec<Vec<usize>> = vec![
        vec![0, 1, 2, 3],
        vec![4, 5, 6, 7],
        vec![8, 9, 10, 11],
        vec![12, 13, 14, 15],
        vec![0, 4, 8, 12],
        vec![1, 5, 9, 13],
        vec![2, 6, 10, 14],
        vec![3, 7, 11, 15],
        vec![0, 5, 10, 15],
        vec![12, 9, 6, 3],
    ];
    assert_eq!(&expectation, board.win_combos());
}

#[test]
fn it_checks_for_winner_3x3() {
    let board = new_board();
    assert_eq!(None, board.winner());
    let board = board_from("OOO      ");
    assert_eq!(Some(Mark::O), board.winner());
}

#[test]
fn it_checks_for_winner_4x4() {
    let board = Board::new(16).unwrap();
    assert_eq!(None, board.winner());
    let board = board_from("X    X    X    X");
    assert_eq!(Some(Mark::X), board.winner());
}

#[test]
fn it_is_game_is_over_if_all_cells_occupied() {
    let board = new_board();
    assert_eq!(false, board.is_game_over());
    let board = board_from("OOOOOOOOO");
    assert_eq!(true, board.is_game_over());
}

#[test]
fn it_is_game_is_over_if_there_is_a_winner() {
    let board = new_board();
    assert_eq!(false, board.is_game_over());
    let board = board_from("OOO      ");
    assert_eq!(true, board.is_game_over());
}

#[test]
fn it_checks_valid_mark_placement() {
    let mut board = new_board();
    assert_eq!(true, board.is_available_cell(0));
    board.set_mark(0, Mark::X);
    assert_eq!(false, board.is_available_cell(0));
    assert_eq!(false, board.is_available_cell(10));
}

#[test]
fn it_creates_a_new_board_from_a_str() {
    let board_str = "XOXOXOOX ";
    let board = board_from(board_str);
    let expectations: [Option<Mark>; 9] = [
        Some(Mark::X),
        Some(Mark::O),
        Some(Mark::X),
        Some(Mark::O),
        Some(Mark::X),
        Some(Mark::O),
        Some(Mark::O),
        Some(Mark::X),
        None,
    ];
    for (index, expected) in expectations.iter().enumerate() {
        assert_eq!(*expected, board.mark(index));
    }
}

#[test]
fn it_rejects_a_board_str_that_is_not_a_perfect_square() {
    assert_eq!(Some(BoardError::InvalidSize), Board::new("XOXOX".len()).err());
}

#[test]
fn it_rejects_a_board_size_that_is_not_a_perfect_square() {
    assert_eq!(Some(BoardError::InvalidSize), Board::new(10).err());
}

#[test]
fn it_rejects_a_board_without_cells() {
    assert_eq!(Some(BoardError::InvalidSize), Board::new(0).err());
}

#[test]
fn it_builds_every_square_size_with_its_row_width() {
    for width in 1..=6usize {
        let board = Board::new(width * width).unwrap();
        assert_eq!(width, board.row_size());
        assert_eq!(width * width, board.row_size() * board.row_size());
        assert_eq!(width * width, board.size());
        assert_eq!(2 * width + 2, board.win_combos().len());
    }
    for size in [2usize, 3, 5, 8, 15, 24, 26] {
        assert_eq!(Some(BoardError::InvalidSize), Board::new(size).err());
    }
}

#[test]
fn it_has_one_cell_that_wins_on_a_1x1_board() {
    let mut board = Board::new(1).unwrap();
    assert_eq!(None, board.winner());
    assert_eq!(false, board.is_game_over());
    board.set_mark(0, Mark::X);
    assert_eq!(Some(Mark::X), board.winner());
    assert_eq!(true, board.is_game_over());
}

#[test]
fn it_finds_column_and_diagonal_winners() {
    assert_eq!(Some(Mark::X), board_from(" X  X  X ").winner());
    assert_eq!(Some(Mark::O), board_from("O   O   O").winner());
    assert_eq!(Some(Mark::X), board_from("  X X X  ").winner());
    assert_eq!(Some(Mark::O), board_from("   O  O  O  O   ").winner());
    assert_eq!(None, board_from("XOXXOOOXX").winner());
    assert_eq!(None, board_from("OO X  X  ").winner());
}

#[test]
fn it_reports_the_first_filled_line_when_both_marks_fill_one() {
    assert_eq!(Some(Mark::X), board_from("XXXOOO   ").winner());
    assert_eq!(Some(Mark::O), board_from("OOOXXX   ").winner());
}

#[test]
fn it_is_over_when_full_without_a_winner() {
    let board = board_from("XOXXOOOXX");
    assert_eq!(None, board.winner());
    assert_eq!(true, board.is_all_occupied());
    assert_eq!(true, board.is_game_over());
}

#[test]
fn it_restores_a_cell_after_set_and_reset() {
    let mut board = board_from("X O  X  O");
    let before: Vec<Option<Mark>> = board.iter().to_vec();
    assert_eq!(None, board.set_mark(4, Mark::X));
    assert_eq!(Some(Mark::X), board.mark(4));
    assert_eq!(Some(Mark::X), board.reset_mark(4));
    assert_eq!(None, board.mark(4));
    assert_eq!(before, board.iter().to_vec());
}

#[test]
fn it_overwrites_a_mark_and_returns_the_old_one() {
    let mut board = new_board();
    assert_eq!(None, board.set_mark(3, Mark::O));
    assert_eq!(Some(Mark::O), board.set_mark(3, Mark::X));
    assert_eq!(Some(Mark::X), board.mark(3));
}

#[test]
fn it_lists_empty_cells_in_ascending_order() {
    let board = board_from("X O  X  O");
    assert_eq!(vec![1, 3, 4, 6, 7], board.empty_cell_indices());
    assert_eq!((0..16).collect::<Vec<usize>>(), Board::new(16).unwrap().empty_cell_indices());
}

#[test]
fn it_checks_availability_past_the_last_cell() {
    let board = Board::new(16).unwrap();
    assert_eq!(true, board.is_available_cell(15));
    assert_eq!(false, board.is_available_cell(16));
    assert_eq!(false, board.is_available_cell(usize::MAX));
}

#[test]
fn it_pretty_prints_two_digit_indices() {
    let board = board_from("X    O          ");
    let expected = " X | 1 | 2 | 3
---+---+---+---
 4 | O | 6 | 7
---+---+---+---
 8 | 9 | 10 | 11
---+---+---+---
 12 | 13 | 14 | 15
";
    assert_eq!(expected, board.to_pretty_string());
}

#[test]
fn it_displays_empty_cells_as_spaces() {
    let board = board_from("X   O   x");
    assert_eq!("X   O   X", board.to_string());
}

#[test]
fn it_copies_a_board_with_snapshot() {
    let board = board_from("X O  X  O");
    let copy = board.snapshot();
    assert_eq!(board.iter().to_vec(), copy.iter().to_vec());
    assert_eq!(board.win_combos(), copy.win_combos());
    assert_eq!(board.row_size(), copy.row_size());
}
