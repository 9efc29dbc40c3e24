//! A two-player grid game on any square board, with an opponent that picks
//! its moves by a depth-limited negamax search with alpha-beta pruning.
//!
//! `board` holds the grid, its winning lines and the rules that end a game;
//! `ai` the search; `game`, `player` and `ui` the turn taking and its
//! messages, which reach a person through the `StdIo` port.

use vstd::prelude::*;

pub mod ai;
pub mod board;
pub mod game;
pub mod mark;
pub mod player;
pub mod render;
pub mod square;
pub mod std_io;
pub mod ui;

pub use ai::negamax::Negamax;
pub use ai::Ai;
pub use board::{Board, BoardError};
pub use game::Game;
pub use mark::Mark;
pub use player::{Computer, Player};
pub use square::UsizeExt;
pub use std_io::StdIo;
pub use ui::Ui;
