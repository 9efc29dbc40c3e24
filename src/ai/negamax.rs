//! Negamax search with alpha-beta pruning over the board's empty cells.

use vstd::prelude::*;

use crate::ai::Ai;
use crate::board::{
    all_filled, empty_indices, game_over, lemma_empty_indices, winner_of, Board,
};
use crate::mark::Mark;

verus! {

/// The score of a finished or cut-off position for `mark`: the top score if
/// `mark` filled a line, the bottom score if the other mark did, else zero.
pub open spec fn terminal_score(cells: Seq<Option<Mark>>, width: nat, mark: Mark) -> int {
    match winner_of(cells, width) {
        Some(w) => if w == mark {
            Negamax::MAX as int
        } else {
            Negamax::MIN as int
        },
        None => 0,
    }
}

/// Negamax value of the position for `mark` to play, looking `depth` plies
/// ahead inside the window `alpha .. beta`.
pub open spec fn negamax_value(
    cells: Seq<Option<Mark>>,
    width: nat,
    mark: Mark,
    depth: nat,
    alpha: int,
    beta: int,
) -> int
    decreases depth, 0nat,
{
    if depth == 0 || game_over(cells, width) {
        terminal_score(cells, width, mark)
    } else {
        scan_moves(cells, width, mark, (depth - 1) as nat, alpha, beta, empty_indices(cells))
    }
}

/// The running lower bound after trying `moves` in order at a node with
/// `rest + 1` plies left: each reply's value, negated and raised by the plies
/// left, lifts the bound; the scan stops as soon as the bound reaches `beta`.
pub open spec fn scan_moves(
    cells: Seq<Option<Mark>>,
    width: nat,
    mark: Mark,
    rest: nat,
    alpha: int,
    beta: int,
    moves: Seq<usize>,
) -> int
    decreases rest, moves.len(),
{
    if moves.len() == 0 {
        alpha
    } else {
        let reply = -negamax_value(
            cells.update(moves[0] as int, Some(mark)),
            width,
            mark.other(),
            rest,
            -beta,
            -alpha,
        );
        let raised = if reply + rest + 1 > alpha {
            reply + rest + 1
        } else {
            alpha
        };
        if raised >= beta {
            raised
        } else {
            scan_moves(cells, width, mark, rest, raised, beta, moves.drop_first())
        }
    }
}

/// The score of playing `mark` in cell `index`: the other mark's negamax
/// value after the move, negated, searched `DEFAULT_DEPTH` plies deep with
/// the full window `MIN .. MAX`.
pub open spec fn move_score(cells: Seq<Option<Mark>>, width: nat, mark: Mark, index: usize) -> int {
    -negamax_value(
        cells.update(index as int, Some(mark)),
        width,
        mark.other(),
        Negamax::DEFAULT_DEPTH as nat,
        Negamax::MIN as int,
        Negamax::MAX as int,
    )
}

/// `r` is the empty cell with the highest move score, the lowest such cell
/// where several share it.
pub open spec fn is_best_move(cells: Seq<Option<Mark>>, width: nat, mark: Mark, r: usize) -> bool {
    &&& r < cells.len()
    &&& cells[r as int] is None
    &&& forall|i: usize|
        i < cells.len() && #[trigger] cells[i as int] is None ==> move_score(cells, width, mark, i)
            <= move_score(cells, width, mark, r)
    &&& forall|i: usize|
        i < r && #[trigger] cells[i as int] is None ==> move_score(cells, width, mark, i)
            < move_score(cells, width, mark, r)
}

/// Position `k` holds the highest score of `scores`, and no earlier entry holds it.
pub open spec fn is_first_best(scores: Seq<(usize, i16)>, k: int) -> bool {
    &&& 0 <= k < scores.len()
    &&& forall|j: int| 0 <= j < scores.len() ==> (#[trigger] scores[j]).1 <= scores[k].1
    &&& forall|j: int| 0 <= j < k ==> (#[trigger] scores[j]).1 < scores[k].1
}

/// The scan never ends below the bound it starts from.
proof fn lemma_scan_at_least_alpha(
    cells: Seq<Option<Mark>>,
    width: nat,
    mark: Mark,
    rest: nat,
    alpha: int,
    beta: int,
    moves: Seq<usize>,
)
    ensures
        scan_moves(cells, width, mark, rest, alpha, beta, moves) >= alpha,
    decreases moves.len(),
{
    if moves.len() > 0 {
        let reply = -negamax_value(
            cells.update(moves[0] as int, Some(mark)),
            width,
            mark.other(),
            rest,
            -beta,
            -alpha,
        );
        let raised = if reply + rest + 1 > alpha {
            reply + rest + 1
        } else {
            alpha
        };
        if raised < beta {
            lemma_scan_at_least_alpha(cells, width, mark, rest, raised, beta, moves.drop_first());
        }
    }
}

/// If one of the moves scanned fills a line for the mark to play, the scan
/// ends at `beta` or above, or at the winning score raised by the plies left.
proof fn lemma_scan_finds_win(
    cells: Seq<Option<Mark>>,
    width: nat,
    mark: Mark,
    rest: nat,
    alpha: int,
    beta: int,
    moves: Seq<usize>,
    x: usize,
)
    requires
        moves.contains(x),
        winner_of(cells.update(x as int, Some(mark)), width) == Some(mark),
    ensures
        scan_moves(cells, width, mark, rest, alpha, beta, moves) >= beta
            || scan_moves(cells, width, mark, rest, alpha, beta, moves) >= Negamax::MAX + 1
            + rest,
    decreases moves.len(),
{
    let reply = -negamax_value(
        cells.update(moves[0] as int, Some(mark)),
        width,
        mark.other(),
        rest,
        -beta,
        -alpha,
    );
    let raised = if reply + rest + 1 > alpha {
        reply + rest + 1
    } else {
        alpha
    };
    if moves[0] == x {
        assert(game_over(cells.update(x as int, Some(mark)), width));
        assert(reply == Negamax::MAX);
        if raised < beta {
            lemma_scan_at_least_alpha(cells, width, mark, rest, raised, beta, moves.drop_first());
        }
    } else if raised < beta {
        let j = choose|j: int| 0 <= j < moves.len() && moves[j] == x;
        assert(moves.drop_first()[j - 1] == x);
        lemma_scan_finds_win(cells, width, mark, rest, raised, beta, moves.drop_first(), x);
    }
}

/// A move that does not end the game, and leaves the other mark a cell `w0`
/// that fills a line for it, scores at most `MIN`.
pub proof fn lemma_unblocked_threat_loses(
    cells: Seq<Option<Mark>>,
    width: nat,
    mark: Mark,
    i: usize,
    w0: usize,
)
    requires
        cells.len() <= usize::MAX,
        i < cells.len(),
        w0 < cells.len(),
        i != w0,
        cells[w0 as int] is None,
        !game_over(cells.update(i as int, Some(mark)), width),
        winner_of(cells.update(i as int, Some(mark)).update(w0 as int, Some(mark.other())), width)
            == Some(mark.other()),
    ensures
        move_score(cells, width, mark, i) <= Negamax::MIN,
{
    let child = cells.update(i as int, Some(mark));
    lemma_empty_indices(child);
    assert(child[w0 as int] is None);
    assert(empty_indices(child).contains(w0));
    lemma_scan_finds_win(
        child,
        width,
        mark.other(),
        (Negamax::DEFAULT_DEPTH - 1) as nat,
        Negamax::MIN as int,
        Negamax::MAX as int,
        empty_indices(child),
        w0,
    );
}

/// Blocking: when the other mark threatens to fill a line at the empty cell
/// `w0`, every other move leaves that threat open without ending the game,
/// and the block itself scores above `MIN`, the best move is the block.
pub proof fn lemma_search_blocks(cells: Seq<Option<Mark>>, width: nat, mark: Mark, w0: usize, r: usize)
    requires
        cells.len() <= usize::MAX,
        w0 < cells.len(),
        cells[w0 as int] is None,
        forall|i: usize|
            i < cells.len() && #[trigger] cells[i as int] is None && i != w0 ==> {
                &&& !game_over(cells.update(i as int, Some(mark)), width)
                &&& winner_of(
                    cells.update(i as int, Some(mark)).update(w0 as int, Some(mark.other())),
                    width,
                ) == Some(mark.other())
            },
        move_score(cells, width, mark, w0) > Negamax::MIN,
        is_best_move(cells, width, mark, r),
    ensures
        r == w0,
{
    if r != w0 {
        lemma_unblocked_threat_loses(cells, width, mark, r, w0);
    }
}

/// Depth-limited negamax search with alpha-beta pruning.
#[derive(Debug, Default)]
pub struct Negamax;

impl Negamax {
    /// The score of a lost position; also the lower end of the first window.
    pub const MIN: i16 = -999;

    /// The score of a won position; also the upper end of the first window.
    pub const MAX: i16 = 999;

    /// How many plies are searched below each candidate move.
    pub const DEFAULT_DEPTH: i16 = 5;

    /// The best empty cell for `mark`: every empty cell is scored, and the
    /// highest score wins, the lowest cell among equals.
    pub fn search(board: &Board, mark: Mark) -> (r: usize)
        requires
            board.wf(),
            !all_filled(board.cells()),
        ensures
            is_best_move(board.cells(), board.width(), mark, r),
    {
        let scores = Self::seq_search(board, mark);
        let ghost cells = board.cells();
        let ghost es = empty_indices(cells);
        proof {
            lemma_empty_indices(cells);
            let i = choose|i: int| 0 <= i < cells.len() && !(#[trigger] cells[i] is Some);
            assert(es.contains(i as usize));
        }
        let r = Self::best_score(scores);
        proof {
            let k = choose|k: int| is_first_best(scores@, k) && r == scores@[k].0;
            assert forall|i: usize|
                i < cells.len() && #[trigger] cells[i as int] is None implies move_score(
                cells,
                board.width(),
                mark,
                i,
            ) <= move_score(cells, board.width(), mark, r) by {
                let j = choose|j: int| 0 <= j < es.len() && es[j] == i;
                assert(scores@[j].1 <= scores@[k].1);
            }
            assert forall|i: usize|
                i < r && #[trigger] cells[i as int] is None implies move_score(
                cells,
                board.width(),
                mark,
                i,
            ) < move_score(cells, board.width(), mark, r) by {
                let j = choose|j: int| 0 <= j < es.len() && es[j] == i;
                if j >= k {
                    if j > k {
                        assert(es[k] < es[j]);
                    }
                }
                assert(scores@[j].1 < scores@[k].1);
            }
        }
        r
    }

    /// The score of every empty cell for `mark`, in ascending cell order.
    pub fn seq_search(board: &Board, mark: Mark) -> (r: Vec<(usize, i16)>)
        requires
            board.wf(),
        ensures
            r@.len() == empty_indices(board.cells()).len(),
            forall|j: int|
                0 <= j < r@.len() ==> (#[trigger] r@[j]).0 == empty_indices(board.cells())[j]
                    && r@[j].1 == move_score(
                    board.cells(),
                    board.width(),
                    mark,
                    empty_indices(board.cells())[j],
                ),
    {
        let moves = board.empty_cell_indices();
        let mut work = board.snapshot();
        let ghost cells = board.cells();
        proof {
            lemma_empty_indices(cells);
        }
        let mut scores: Vec<(usize, i16)> = Vec::new();
        for j in 0..moves.len()
            invariant
                work.wf(),
                work.cells() == cells,
                work.width() == board.width(),
                moves@ == empty_indices(cells),
                cells.len() <= usize::MAX,
                forall|t: int|
                    0 <= t < moves@.len() ==> {
                        &&& #[trigger] moves@[t] < cells.len()
                        &&& cells[moves@[t] as int] is None
                    },
                scores@.len() == j,
                forall|t: int|
                    0 <= t < j ==> (#[trigger] scores@[t]).0 == moves@[t] && scores@[t].1
                        == move_score(cells, board.width(), mark, moves@[t]),
        {
            let index = moves[j];
            let score = Self::candidate_score(&mut work, mark, index);
            scores.push((index, score));
        }
        scores
    }

    /// The score of playing `mark` in the empty cell `index`; the board is
    /// left as it was.
    pub fn candidate_score(board: &mut Board, mark: Mark, index: usize) -> (r: i16)
        requires
            old(board).wf(),
            index < old(board).cells().len(),
            old(board).cells()[index as int] is None,
        ensures
            final(board).wf(),
            final(board).cells() == old(board).cells(),
            final(board).width() == old(board).width(),
            r == move_score(old(board).cells(), old(board).width(), mark, index),
    {
        let ghost cells = board.cells();
        board.set_mark(index, mark);
        let value = Self::negamax(board, mark.opposite(), Self::DEFAULT_DEPTH, Self::MIN, Self::MAX);
        board.reset_mark(index);
        assert(board.cells() =~= cells);
        -value
    }

    fn negamax(board: &mut Board, mark: Mark, depth: i16, alpha: i16, beta: i16) -> (r: i16)
        requires
            old(board).wf(),
            0 <= depth <= Self::DEFAULT_DEPTH,
            Self::MIN - 1 <= alpha <= Self::MAX + 1 + Self::DEFAULT_DEPTH,
            Self::MIN - 1 - Self::DEFAULT_DEPTH <= beta <= Self::MAX + 1,
        ensures
            final(board).wf(),
            final(board).cells() == old(board).cells(),
            final(board).width() == old(board).width(),
            r == negamax_value(
                old(board).cells(),
                old(board).width(),
                mark,
                depth as nat,
                alpha as int,
                beta as int,
            ),
            r >= (if alpha < Self::MIN {
                alpha
            } else {
                Self::MIN
            }),
            r <= (if alpha > Self::MAX + 1 + depth {
                alpha as int
            } else {
                Self::MAX + 1 + depth
            }),
        decreases depth,
    {
        if depth == 0 || board.is_game_over() {
            return Self::score(board, mark);
        }
        let ghost cells = board.cells();
        let ghost width = board.width();
        let ghost rest = (depth - 1) as nat;
        let moves = board.empty_cell_indices();
        proof {
            lemma_empty_indices(cells);
            assert(moves@.skip(0) =~= moves@);
        }
        let mut alpha_mut: i16 = alpha;
        let mut j: usize = 0;
        while j < moves.len()
            invariant_except_break
                scan_moves(cells, width, mark, rest, alpha as int, beta as int, moves@)
                    == scan_moves(
                    cells,
                    width,
                    mark,
                    rest,
                    alpha_mut as int,
                    beta as int,
                    moves@.skip(j as int),
                ),
            invariant
                board.wf(),
                board.cells() == cells,
                board.width() == width,
                cells.len() <= usize::MAX,
                moves@ == empty_indices(cells),
                forall|t: int|
                    0 <= t < moves@.len() ==> {
                        &&& #[trigger] moves@[t] < cells.len()
                        &&& cells[moves@[t] as int] is None
                    },
                j <= moves.len(),
                1 <= depth <= Self::DEFAULT_DEPTH,
                rest == depth - 1,
                Self::MIN - 1 <= alpha <= Self::MAX + 1 + Self::DEFAULT_DEPTH,
                Self::MIN - 1 - Self::DEFAULT_DEPTH <= beta <= Self::MAX + 1,
                alpha <= alpha_mut,
                alpha_mut <= alpha || alpha_mut <= Self::MAX + 1 + depth,
            ensures
                scan_moves(cells, width, mark, rest, alpha as int, beta as int, moves@)
                    == alpha_mut,
                alpha <= alpha_mut,
                alpha_mut <= alpha || alpha_mut <= Self::MAX + 1 + depth,
            decreases moves.len() - j,
        {
            let index = moves[j];
            let ghost tail = moves@.skip(j as int);
            proof {
                assert(tail[0] == index);
                assert(tail.drop_first() =~= moves@.skip(j + 1));
            }
            board.set_mark(index, mark);
            let value = Self::negamax(board, mark.opposite(), depth - 1, -beta, -alpha_mut);
            board.reset_mark(index);
            assert(board.cells() =~= cells);
            let score = -value;
            if score + depth > alpha_mut {
                alpha_mut = score + depth;
            }
            if alpha_mut >= beta {
                break;
            }
            j = j + 1;
        }
        proof {
            if j == moves.len() {
                assert(moves@.skip(j as int).len() == 0);
            }
        }
        alpha_mut
    }

    fn score(board: &Board, mark: Mark) -> (r: i16)
        requires
            board.wf(),
        ensures
            r == terminal_score(board.cells(), board.width(), mark),
    {
        match board.winner() {
            Some(w) => if w == mark {
                Self::MAX
            } else {
                Self::MIN
            },
            None => 0,
        }
    }

    /// The cell of the first entry with the highest score.
    pub fn best_score(scores: Vec<(usize, i16)>) -> (r: usize)
        requires
            scores@.len() > 0,
        ensures
            exists|k: int| is_first_best(scores@, k) && r == scores@[k].0,
    {
        let mut best: usize = 0;
        for j in 1..scores.len()
            invariant
                scores@.len() > 0,
                best < j,
                forall|t: int| 0 <= t < j ==> (#[trigger] scores@[t]).1 <= scores@[best as int].1,
                forall|t: int| 0 <= t < best ==> (#[trigger] scores@[t]).1 < scores@[best as int].1,
        {
            if scores[j].1 > scores[best].1 {
                best = j;
            }
        }
        assert(is_first_best(scores@, best as int));
        scores[best].0
    }
}

impl Ai for Negamax {
    fn search(&self, board: &Board, mark: Mark) -> (r: usize)
        ensures
            is_best_move(board.cells(), board.width(), mark, r),
    {
        Self::search(board, mark)
    }
}

} // verus!
