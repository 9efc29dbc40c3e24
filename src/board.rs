//! The grid: cells numbered row by row, the winning lines, and when a game ends.

use vstd::prelude::*;

use crate::mark::Mark;
use crate::square::{is_square, UsizeExt};

verus! {

/// Why a board could not be built.
#[derive(Clone, Copy, Debug, PartialEq, Eq, Structural)]
pub enum BoardError {
    /// The cell count is not the square of a positive row width.
    InvalidSize,
}

/// Number of winning lines on a board whose rows hold `width` cells:
/// every row, every column and the two diagonals.
pub open spec fn line_count(width: nat) -> nat {
    2 * width + 2
}

/// Cell index of the `i`-th cell of winning line `k`, cells numbered row by row.
/// Lines `0 .. width` are the rows, `width .. 2 * width` the columns, then the
/// main diagonal from the top left, then the anti-diagonal from the bottom left.
pub open spec fn line_cell(width: nat, k: int, i: int) -> int {
    if k < width {
        k * width + i
    } else if k < 2 * width {
        i * width + (k - width)
    } else if k == 2 * width {
        i * width + i
    } else {
        (width - 1 - i) * width + i
    }
}

/// Every cell of line `k` holds `m`.
pub open spec fn line_full(cells: Seq<Option<Mark>>, width: nat, k: int, m: Mark) -> bool {
    forall|i: int| 0 <= i < width ==> #[trigger] cells[line_cell(width, k, i)] == Some(m)
}

/// The mark that fills line `k`, if one does.
pub open spec fn line_owner(cells: Seq<Option<Mark>>, width: nat, k: int) -> Option<Mark> {
    match cells[line_cell(width, k, 0)] {
        Some(m) => if line_full(cells, width, k, m) {
            Some(m)
        } else {
            None
        },
        None => None,
    }
}

/// The owner of the first filled line among lines `k ..`.
pub open spec fn winner_from(cells: Seq<Option<Mark>>, width: nat, k: int) -> Option<Mark>
    decreases line_count(width) - k,
{
    if k < 0 || k >= line_count(width) {
        None
    } else if line_owner(cells, width, k) is Some {
        line_owner(cells, width, k)
    } else {
        winner_from(cells, width, k + 1)
    }
}

/// The owner of the first filled line, lines taken in order.
pub open spec fn winner_of(cells: Seq<Option<Mark>>, width: nat) -> Option<Mark> {
    winner_from(cells, width, 0)
}

/// Every cell holds a mark.
pub open spec fn all_filled(cells: Seq<Option<Mark>>) -> bool {
    forall|i: int| 0 <= i < cells.len() ==> #[trigger] cells[i] is Some
}

/// The game has ended: the board is full or a line is filled.
pub open spec fn game_over(cells: Seq<Option<Mark>>, width: nat) -> bool {
    all_filled(cells) || winner_of(cells, width) is Some
}

/// The empty cells among the first `k`, in ascending order.
pub open spec fn empties_below(cells: Seq<Option<Mark>>, k: int) -> Seq<usize>
    decreases k,
{
    if k <= 0 {
        Seq::empty()
    } else if cells[k - 1] is None {
        empties_below(cells, k - 1).push((k - 1) as usize)
    } else {
        empties_below(cells, k - 1)
    }
}

/// The empty cells of the board, in ascending order.
pub open spec fn empty_indices(cells: Seq<Option<Mark>>) -> Seq<usize> {
    empties_below(cells, cells.len() as int)
}

/// The empty cells below `k` are listed once each, in ascending order, and only they.
pub proof fn lemma_empties_below(cells: Seq<Option<Mark>>, k: int)
    requires
        0 <= k <= cells.len(),
        cells.len() <= usize::MAX,
    ensures
        forall|j: int|
            0 <= j < empties_below(cells, k).len() ==> {
                &&& #[trigger] empties_below(cells, k)[j] < k
                &&& cells[empties_below(cells, k)[j] as int] is None
            },
        forall|j1: int, j2: int|
            0 <= j1 < j2 < empties_below(cells, k).len() ==> #[trigger] empties_below(cells, k)[j1]
                < #[trigger] empties_below(cells, k)[j2],
        forall|i: int|
            0 <= i < k && #[trigger] cells[i] is None ==> empties_below(cells, k).contains(
                i as usize,
            ),
    decreases k,
{
    if k > 0 {
        lemma_empties_below(cells, k - 1);
        let prev = empties_below(cells, k - 1);
        let cur = empties_below(cells, k);
        assert forall|i: int| 0 <= i < k && #[trigger] cells[i] is None implies cur.contains(
            i as usize,
        ) by {
            if i < k - 1 {
                let j = choose|j: int| 0 <= j < prev.len() && prev[j] == i as usize;
                assert(cur[j] == prev[j]);
            } else {
                assert(cur[cur.len() - 1] == i as usize);
            }
        }
    }
}

/// The empty cells of a board are listed once each, in ascending order, and only they.
pub proof fn lemma_empty_indices(cells: Seq<Option<Mark>>)
    requires
        cells.len() <= usize::MAX,
    ensures
        forall|j: int|
            0 <= j < empty_indices(cells).len() ==> {
                &&& #[trigger] empty_indices(cells)[j] < cells.len()
                &&& cells[empty_indices(cells)[j] as int] is None
            },
        forall|j1: int, j2: int|
            0 <= j1 < j2 < empty_indices(cells).len() ==> #[trigger] empty_indices(cells)[j1]
                < #[trigger] empty_indices(cells)[j2],
        forall|i: int|
            0 <= i < cells.len() && #[trigger] cells[i] is None ==> empty_indices(cells).contains(
                i as usize,
            ),
{
    lemma_empties_below(cells, cells.len() as int);
}

/// On a board of `width` columns, row `a` and column `b` name a cell of the board.
proof fn lemma_cell_in_board(width: nat, a: int, b: int)
    requires
        0 <= a < width,
        0 <= b < width,
    ensures
        0 <= a * width + b < width * width,
{
    assert(0 <= a * width + b < width * width) by (nonlinear_arith)
        requires
            0 <= a < width,
            0 <= b < width,
    ;
}

/// Every cell of every winning line lies on the board.
pub proof fn lemma_line_cell_in_board(width: nat, k: int, i: int)
    requires
        0 <= k < line_count(width),
        0 <= i < width,
    ensures
        0 <= line_cell(width, k, i) < width * width,
{
    if k < width {
        lemma_cell_in_board(width, k, i);
    } else if k < 2 * width {
        lemma_cell_in_board(width, i, k - width);
    } else if k == 2 * width {
        lemma_cell_in_board(width, i, i);
    } else {
        lemma_cell_in_board(width, width - 1 - i, i);
    }
}

/// The line count of a board whose cells can be numbered fits in a machine word.
proof fn lemma_line_count_fits(width: nat)
    requires
        width * width <= usize::MAX,
    ensures
        line_count(width) <= usize::MAX,
{
    if width >= 3 {
        assert(2 * width + 2 < width * width) by (nonlinear_arith)
            requires
                width >= 3,
        ;
    }
}

/// A winner found from line `j` on fills one of the lines from `j` on.
proof fn lemma_winner_from_fills(cells: Seq<Option<Mark>>, width: nat, j: int)
    requires
        0 <= j,
        winner_from(cells, width, j) is Some,
    ensures
        exists|l: int|
            j <= l < line_count(width) && #[trigger] line_full(
                cells,
                width,
                l,
                winner_from(cells, width, j)->0,
            ),
    decreases line_count(width) - j,
{
    if line_owner(cells, width, j) is None {
        lemma_winner_from_fills(cells, width, j + 1);
        let l = choose|l: int|
            j + 1 <= l < line_count(width) && #[trigger] line_full(
                cells,
                width,
                l,
                winner_from(cells, width, j + 1)->0,
            );
        assert(line_full(cells, width, l, winner_from(cells, width, j)->0));
    } else {
        assert(line_full(cells, width, j, winner_from(cells, width, j)->0));
    }
}

/// Scanning from line `j`, a filled line `k` at or after `j` is always reached.
proof fn lemma_winner_from_found(cells: Seq<Option<Mark>>, width: nat, j: int, k: int, m: Mark)
    requires
        width >= 1,
        0 <= j <= k < line_count(width),
        line_full(cells, width, k, m),
    ensures
        winner_from(cells, width, j) is Some,
    decreases k - j,
{
    if j < k {
        lemma_winner_from_found(cells, width, j + 1, k, m);
    } else {
        assert(cells[line_cell(width, k, 0)] == Some(m));
    }
}

/// A board with no marks has no winner.
pub proof fn lemma_empty_board_has_no_winner(cells: Seq<Option<Mark>>, width: nat)
    requires
        width >= 1,
        cells.len() == width * width,
        forall|i: int| 0 <= i < cells.len() ==> #[trigger] cells[i] is None,
    ensures
        winner_of(cells, width) is None,
{
    if winner_of(cells, width) is Some {
        lemma_winner_from_fills(cells, width, 0);
        let l = choose|l: int|
            0 <= l < line_count(width) && #[trigger] line_full(
                cells,
                width,
                l,
                winner_from(cells, width, 0)->0,
            );
        lemma_line_cell_in_board(width, l, 0);
        assert(cells[line_cell(width, l, 0)] is Some);
    }
}

/// Once a row, a column or a diagonal is filled by one mark there is a winner,
/// and that winner is the mark, unless the other mark fills a line too.
pub proof fn lemma_filled_line_wins(cells: Seq<Option<Mark>>, width: nat, k: int, m: Mark)
    requires
        width >= 1,
        cells.len() == width * width,
        0 <= k < line_count(width),
        line_full(cells, width, k, m),
    ensures
        winner_of(cells, width) is Some,
        (forall|l: int| 0 <= l < line_count(width) ==> !line_full(cells, width, l, m.other()))
            ==> winner_of(cells, width) == Some(m),
{
    lemma_winner_from_found(cells, width, 0, k, m);
    lemma_winner_from_fills(cells, width, 0);
    let w = winner_from(cells, width, 0)->0;
    let l = choose|l: int|
        0 <= l < line_count(width) && #[trigger] line_full(
            cells,
            width,
            l,
            winner_from(cells, width, 0)->0,
        );
    if w != m {
        assert(w == m.other());
        assert(line_full(cells, width, l, m.other()));
    }
}

/// Emptying a cell right after marking it leaves it empty and every other cell
/// as it was; if the cell was empty before, the whole board is as it was.
pub proof fn lemma_undo_mark(cells: Seq<Option<Mark>>, index: int, m: Mark)
    requires
        0 <= index < cells.len(),
    ensures
        cells.update(index, Some(m)).update(index, None)[index] is None,
        forall|i: int|
            0 <= i < cells.len() && i != index ==> #[trigger] cells.update(index, Some(m)).update(
                index,
                None,
            )[i] == cells[i],
        cells[index] is None ==> cells.update(index, Some(m)).update(index, None) == cells,
{
    if cells[index] is None {
        assert(cells.update(index, Some(m)).update(index, None) =~= cells);
    }
}

/// The grid of a game: cells numbered row by row, and the winning lines.
#[derive(Clone, Debug)]
pub struct Board {
    grid: Vec<Option<Mark>>,
    row_size: usize,
    size: usize,
    win_combos: Vec<Vec<usize>>,
}

/// `combos` lists the winning lines of a board of `width` columns, in order.
spec fn lines_listed(combos: Seq<Vec<usize>>, width: nat) -> bool {
    &&& combos.len() == line_count(width)
    &&& forall|k: int| 0 <= k < combos.len() ==> (#[trigger] combos[k])@.len() == width
    &&& forall|k: int, i: int|
        0 <= k < combos.len() && 0 <= i < width ==> #[trigger] combos[k]@[i] == line_cell(
            width,
            k,
            i,
        )
}

impl Board {
    /// The cells, row by row.
    pub closed spec fn cells(&self) -> Seq<Option<Mark>> {
        self.grid@
    }

    /// The number of cells in a row.
    pub closed spec fn width(&self) -> nat {
        self.row_size as nat
    }

    /// The stored cell count and line table agree with the cells and the width.
    pub closed spec fn tables_ok(&self) -> bool {
        &&& self.size == self.grid@.len()
        &&& lines_listed(self.win_combos@, self.row_size as nat)
    }

    /// The board is square with at least one cell, and its line table is the
    /// one that its width gives.
    pub open spec fn wf(&self) -> bool {
        &&& self.width() >= 1
        &&& self.cells().len() == self.width() * self.width()
        &&& self.cells().len() <= usize::MAX
        &&& self.tables_ok()
    }

    /// The cells of winning line `k`, from `line_cell`.
    fn line_cells(width: usize, k: usize) -> (r: Vec<usize>)
        requires
            width >= 1,
            width * width <= usize::MAX,
            k < line_count(width as nat),
        ensures
            r@.len() == width,
            forall|i: int| 0 <= i < width ==> #[trigger] r@[i] == line_cell(width as nat, k as int, i),
    {
        proof {
            lemma_line_count_fits(width as nat);
        }
        let mut line: Vec<usize> = Vec::new();
        for i in 0..width
            invariant
                width >= 1,
                width * width <= usize::MAX,
                line_count(width as nat) <= usize::MAX,
                k < line_count(width as nat),
                line@.len() == i,
                forall|j: int| 0 <= j < i ==> #[trigger] line@[j] == line_cell(width as nat, k as int, j),
        {
            proof {
                lemma_line_cell_in_board(width as nat, k as int, i as int);
            }
            let cell: usize = if k < width {
                k * width + i
            } else if k < 2 * width {
                i * width + (k - width)
            } else if k == 2 * width {
                i * width + i
            } else {
                (width - 1 - i) * width + i
            };
            line.push(cell);
        }
        line
    }

    /// The winning lines of a board of `row_size` columns: the rows, the
    /// columns, the main diagonal and the anti-diagonal.
    fn gen_win_combos(board_size: usize, row_size: usize) -> (r: Vec<Vec<usize>>)
        requires
            row_size >= 1,
            row_size * row_size == board_size,
        ensures
            lines_listed(r@, row_size as nat),
    {
        proof {
            lemma_line_count_fits(row_size as nat);
        }
        let count: usize = 2 * row_size + 2;
        let mut combos: Vec<Vec<usize>> = Vec::new();
        for k in 0..count
            invariant
                row_size >= 1,
                row_size * row_size == board_size,
                count == line_count(row_size as nat),
                combos@.len() == k,
                forall|j: int| 0 <= j < k ==> (#[trigger] combos@[j])@.len() == row_size,
                forall|j: int, i: int|
                    0 <= j < k && 0 <= i < row_size ==> #[trigger] combos@[j]@[i] == line_cell(
                        row_size as nat,
                        j,
                        i,
                    ),
        {
            let line = Self::line_cells(row_size, k);
            combos.push(line);
        }
        combos
    }

    /// A board of `size` empty cells. Fails with `InvalidSize` unless `size` is
    /// the square of a positive row width.
    pub fn new(size: usize) -> (r: Result<Board, BoardError>)
        ensures
            r is Ok <==> (size > 0 && is_square(size as int)),
            r is Err ==> r == Err::<Board, BoardError>(BoardError::InvalidSize),
            r matches Ok(b) ==> {
                &&& b.wf()
                &&& b.cells().len() == size
                &&& b.width() * b.width() == size
                &&& forall|i: int| 0 <= i < size ==> #[trigger] b.cells()[i] is None
            },
    {
        if size == 0 || !size.is_perfect_sq() {
            return Err(BoardError::InvalidSize);
        }
        let row_size: usize = size.sqrt();
        proof {
            let k = choose|k: nat| #[trigger] crate::square::square(k as int) == size as int;
            crate::square::lemma_square_root_unique(size as nat, row_size as nat, k);
            assert(row_size >= 1) by (nonlinear_arith)
                requires
                    row_size * row_size == size,
                    size > 0,
            ;
        }
        let mut grid: Vec<Option<Mark>> = Vec::new();
        for i in 0..size
            invariant
                grid@.len() == i,
                forall|j: int| 0 <= j < i ==> #[trigger] grid@[j] is None,
        {
            grid.push(None);
        }
        let win_combos = Self::gen_win_combos(size, row_size);
        Ok(Board { grid, row_size, size, win_combos })
    }

    /// A fresh board with the same cells.
    pub fn snapshot(&self) -> (r: Board)
        requires
            self.wf(),
        ensures
            r.wf(),
            r.cells() == self.cells(),
            r.width() == self.width(),
    {
        let mut grid: Vec<Option<Mark>> = Vec::new();
        for i in 0..self.size
            invariant
                self.wf(),
                grid@ == self.grid@.subrange(0, i as int),
        {
            grid.push(self.grid[i]);
            assert(grid@ =~= self.grid@.subrange(0, i + 1));
        }
        assert(grid@ =~= self.grid@);
        let win_combos = Self::gen_win_combos(self.size, self.row_size);
        Board { grid, row_size: self.row_size, size: self.size, win_combos }
    }

    /// The number of cells.
    pub fn size(&self) -> (r: usize)
        requires
            self.wf(),
        ensures
            r == self.cells().len(),
    {
        self.size
    }

    /// The number of cells in a row.
    pub fn row_size(&self) -> (r: usize)
        requires
            self.wf(),
        ensures
            r == self.width(),
    {
        self.row_size
    }

    /// The cells, row by row.
    pub fn iter(&self) -> (r: &[Option<Mark>])
        ensures
            r@ == self.cells(),
    {
        self.grid.as_slice()
    }

    /// The winning lines, in the order `winner` scans them.
    pub fn win_combos(&self) -> (r: &Vec<Vec<usize>>)
        requires
            self.wf(),
        ensures
            r@.len() == line_count(self.width()),
            forall|k: int| 0 <= k < r@.len() ==> (#[trigger] r@[k])@.len() == self.width(),
            forall|k: int, i: int|
                0 <= k < r@.len() && 0 <= i < self.width() ==> #[trigger] r@[k]@[i] == line_cell(
                    self.width(),
                    k,
                    i,
                ),
    {
        &self.win_combos
    }

    /// The empty cells, in ascending order.
    pub fn empty_cell_indices(&self) -> (r: Vec<usize>)
        ensures
            r@ == empty_indices(self.cells()),
    {
        let mut r: Vec<usize> = Vec::new();
        for i in 0..self.grid.len()
            invariant
                r@ == empties_below(self.grid@, i as int),
        {
            if self.grid[i].is_none() {
                r.push(i);
            }
        }
        r
    }

    /// Whether cell `index` holds a mark.
    pub fn is_occupied(&self, index: usize) -> (r: bool)
        requires
            index < self.cells().len(),
        ensures
            r == self.cells()[index as int] is Some,
    {
        self.grid[index].is_some()
    }

    /// Whether every cell holds a mark.
    pub fn is_all_occupied(&self) -> (r: bool)
        ensures
            r == all_filled(self.cells()),
    {
        for i in 0..self.grid.len()
            invariant
                forall|j: int| 0 <= j < i ==> #[trigger] self.grid@[j] is Some,
        {
            if self.grid[i].is_none() {
                return false;
            }
        }
        true
    }

    /// The mark in cell `index`, if any.
    pub fn mark(&self, index: usize) -> (r: Option<Mark>)
        requires
            index < self.cells().len(),
        ensures
            r == self.cells()[index as int],
    {
        self.grid[index]
    }

    /// Puts `mark` into cell `index`; returns what the cell held before.
    pub fn set_mark(&mut self, index: usize, mark: Mark) -> (r: Option<Mark>)
        requires
            old(self).wf(),
            index < old(self).cells().len(),
        ensures
            final(self).wf(),
            final(self).width() == old(self).width(),
            final(self).cells() == old(self).cells().update(index as int, Some(mark)),
            r == old(self).cells()[index as int],
    {
        let previous = self.grid[index];
        self.grid.set(index, Some(mark));
        previous
    }

    /// Empties cell `index`; returns what the cell held before.
    pub fn reset_mark(&mut self, index: usize) -> (r: Option<Mark>)
        requires
            old(self).wf(),
            index < old(self).cells().len(),
        ensures
            final(self).wf(),
            final(self).width() == old(self).width(),
            final(self).cells() == old(self).cells().update(index as int, None),
            r == old(self).cells()[index as int],
    {
        let previous = self.grid[index];
        self.grid.set(index, None);
        previous
    }

    /// Whether a mark may go into cell `index`: the cell exists and is empty.
    pub fn is_available_cell(&self, index: usize) -> (r: bool)
        requires
            self.wf(),
        ensures
            r == (index < self.cells().len() && self.cells()[index as int] is None),
    {
        index < self.size && !self.is_occupied(index)
    }

    /// Whether the game has ended: the board is full or a line is filled.
    pub fn is_game_over(&self) -> (r: bool)
        requires
            self.wf(),
        ensures
            r == game_over(self.cells(), self.width()),
    {
        self.is_all_occupied() || self.winner().is_some()
    }

    /// The mark that fills line `k`, if one does.
    fn line_owner_at(&self, k: usize) -> (r: Option<Mark>)
        requires
            self.wf(),
            k < line_count(self.width()),
        ensures
            r == line_owner(self.cells(), self.width(), k as int),
    {
        let line = &self.win_combos[k];
        proof {
            lemma_line_cell_in_board(self.width(), k as int, 0);
        }
        let first = self.grid[line[0]];
        match first {
            None => None,
            Some(m) => {
                let mut i: usize = 1;
                while i < self.row_size
                    invariant
                        self.wf(),
                        k < line_count(self.width()),
                        line == self.win_combos@[k as int],
                        1 <= i <= self.row_size,
                        first == self.cells()[line_cell(self.width(), k as int, 0)],
                        first == Some(m),
                        forall|j: int|
                            0 <= j < i ==> #[trigger] self.cells()[line_cell(
                                self.width(),
                                k as int,
                                j,
                            )] == Some(m),
                    decreases self.row_size - i,
                {
                    proof {
                        lemma_line_cell_in_board(self.width(), k as int, i as int);
                    }
                    if self.grid[line[i]] != Some(m) {
                        return None;
                    }
                    i = i + 1;
                }
                Some(m)
            },
        }
    }

    /// The mark that fills a winning line, the lines taken in order; only the
    /// first filled line counts.
    pub fn winner(&self) -> (r: Option<Mark>)
        requires
            self.wf(),
        ensures
            r == winner_of(self.cells(), self.width()),
    {
        let count = self.win_combos.len();
        let mut k: usize = 0;
        while k < count
            invariant
                self.wf(),
                count == line_count(self.width()),
                k <= count,
                winner_of(self.cells(), self.width()) == winner_from(
                    self.cells(),
                    self.width(),
                    k as int,
                ),
            decreases count - k,
        {
            let owner = self.line_owner_at(k);
            if owner.is_some() {
                return owner;
            }
            k = k + 1;
        }
        None
    }
}

} // verus!
