//! The board as text: one character per cell, or a numbered drawing.

use vstd::prelude::*;

use crate::board::Board;
use crate::mark::Mark;

verus! {

/// The decimal digit `d`.
pub open spec fn digit(d: nat) -> Seq<char> {
    if d == 0 {
        "0"@
    } else if d == 1 {
        "1"@
    } else if d == 2 {
        "2"@
    } else if d == 3 {
        "3"@
    } else if d == 4 {
        "4"@
    } else if d == 5 {
        "5"@
    } else if d == 6 {
        "6"@
    } else if d == 7 {
        "7"@
    } else if d == 8 {
        "8"@
    } else {
        "9"@
    }
}

/// `n` written in decimal, without leading zeros.
pub open spec fn decimal(n: nat) -> Seq<char>
    decreases n,
{
    if n < 10 {
        digit(n)
    } else {
        decimal(n / 10) + digit(n % 10)
    }
}

/// One character per cell: the mark's letter, or a space for an empty cell.
pub open spec fn plain_text(cells: Seq<Option<Mark>>) -> Seq<char>
    decreases cells.len(),
{
    if cells.len() == 0 {
        Seq::empty()
    } else {
        plain_text(cells.drop_last()) + match cells.last() {
            Some(m) => m.letter(),
            None => " "@,
        }
    }
}

/// What cell `i` shows on the numbered board: its mark, or its index when empty.
pub open spec fn cell_text(cells: Seq<Option<Mark>>, i: int) -> Seq<char> {
    match cells[i] {
        Some(m) => m.letter(),
        None => decimal(i as nat),
    }
}

/// The first `c` cells of row `row`, separated by `" | "`.
pub open spec fn row_cells(cells: Seq<Option<Mark>>, width: nat, row: int, c: int) -> Seq<char>
    decreases c,
{
    if c <= 0 {
        Seq::empty()
    } else {
        row_cells(cells, width, row, c - 1) + (if c > 1 {
            " | "@
        } else {
            Seq::empty()
        }) + cell_text(cells, row * width + c - 1)
    }
}

/// One row of the numbered board, ending in a newline.
pub open spec fn row_text(cells: Seq<Option<Mark>>, width: nat, row: int) -> Seq<char> {
    " "@ + row_cells(cells, width, row, width as int) + "\n"@
}

/// `c` cell walls joined by `"+"`.
pub open spec fn walls(c: int) -> Seq<char>
    decreases c,
{
    if c <= 0 {
        Seq::empty()
    } else {
        walls(c - 1) + (if c > 1 {
            "+"@
        } else {
            Seq::empty()
        }) + "---"@
    }
}

/// The line drawn between two rows.
pub open spec fn divider(width: nat) -> Seq<char> {
    walls(width as int) + "\n"@
}

/// The first `r` rows of the numbered board, with a divider between rows.
pub open spec fn rows_text(cells: Seq<Option<Mark>>, width: nat, r: int) -> Seq<char>
    decreases r,
{
    if r <= 0 {
        Seq::empty()
    } else {
        rows_text(cells, width, r - 1) + (if r > 1 {
            divider(width)
        } else {
            Seq::empty()
        }) + row_text(cells, width, r - 1)
    }
}

/// The numbered board: every row, empty cells shown by their index.
pub open spec fn pretty_text(cells: Seq<Option<Mark>>, width: nat) -> Seq<char> {
    rows_text(cells, width, width as int)
}

/// Appends the decimal digit `d`.
fn append_digit(out: &mut String, d: usize)
    requires
        d < 10,
    ensures
        final(out)@ == old(out)@ + digit(d as nat),
{
    let text = if d == 0 {
        "0"
    } else if d == 1 {
        "1"
    } else if d == 2 {
        "2"
    } else if d == 3 {
        "3"
    } else if d == 4 {
        "4"
    } else if d == 5 {
        "5"
    } else if d == 6 {
        "6"
    } else if d == 7 {
        "7"
    } else if d == 8 {
        "8"
    } else {
        "9"
    };
    out.append(text);
}

/// Appends `n` in decimal.
pub fn append_decimal(out: &mut String, n: usize)
    ensures
        final(out)@ == old(out)@ + decimal(n as nat),
    decreases n,
{
    if n < 10 {
        append_digit(out, n);
    } else {
        let ghost start = out@;
        append_decimal(out, n / 10);
        append_digit(out, n % 10);
        assert(out@ =~= start + decimal(n as nat));
    }
}

impl Board {
    /// One character per cell, row by row: the mark's letter, or a space.
    pub fn to_string(&self) -> (r: String)
        requires
            self.wf(),
        ensures
            r@ == plain_text(self.cells()),
    {
        let mut out = String::new();
        let n = self.size();
        for i in 0..n
            invariant
                self.wf(),
                n == self.cells().len(),
                out@ == plain_text(self.cells().subrange(0, i as int)),
        {
            let ghost before = self.cells().subrange(0, i as int);
            let ghost after = self.cells().subrange(0, i + 1);
            assert(after.drop_last() =~= before);
            match self.mark(i) {
                Some(m) => {
                    let letter = m.to_string();
                    out.append(letter.as_str());
                },
                None => {
                    out.append(" ");
                },
            }
        }
        assert(self.cells().subrange(0, n as int) =~= self.cells());
        out
    }

    /// The line drawn between two rows: one `---` per column, joined by `+`.
    fn grid_line(&self) -> (r: String)
        requires
            self.wf(),
        ensures
            r@ == divider(self.width()),
    {
        let mut out = String::new();
        let width = self.row_size();
        for c in 0..width
            invariant
                out@ == walls(c as int),
        {
            let ghost start = out@;
            if c > 0 {
                out.append("+");
            }
            out.append("---");
            assert(out@ =~= walls(c + 1));
        }
        out.append("\n");
        out
    }

    /// The board drawn row by row: cells separated by `|`, rows by a divider,
    /// each empty cell shown by its index.
    pub fn to_pretty_string(&self) -> (r: String)
        requires
            self.wf(),
        ensures
            r@ == pretty_text(self.cells(), self.width()),
    {
        let width = self.row_size();
        let line = self.grid_line();
        let mut out = String::new();
        for row in 0..width
            invariant
                self.wf(),
                width == self.width(),
                line@ == divider(self.width()),
                out@ == rows_text(self.cells(), self.width(), row as int),
        {
            let ghost start = out@;
            if row > 0 {
                out.append(line.as_str());
            }
            out.append(" ");
            let ghost lead = out@;
            for c in 0..width
                invariant
                    self.wf(),
                    width == self.width(),
                    row < width,
                    out@ == lead + row_cells(self.cells(), self.width(), row as int, c as int),
            {
                proof {
                    crate::board::lemma_line_cell_in_board(self.width(), row as int, c as int);
                }
                let ghost mid = out@;
                if c > 0 {
                    out.append(" | ");
                }
                let index = row * width + c;
                match self.mark(index) {
                    Some(m) => {
                        let letter = m.to_string();
                        out.append(letter.as_str());
                    },
                    None => {
                        append_decimal(&mut out, index);
                    },
                }
                assert(out@ =~= lead + row_cells(
                    self.cells(),
                    self.width(),
                    row as int,
                    c + 1,
                ));
            }
            out.append("\n");
            assert(out@ =~= rows_text(self.cells(), self.width(), row + 1));
        }
        out
    }
}

} // verus!
