//! The two marks that players place.

use vstd::prelude::*;

verus! {

/// `s` is the letter of `m`, in upper or lower case.
pub open spec fn names(s: Seq<char>, m: Mark) -> bool {
    match m {
        Mark::O => s == seq!['O'] || s == seq!['o'],
        Mark::X => s == seq!['X'] || s == seq!['x'],
    }
}

/// One of the two symbols a player places on the board.
#[derive(Clone, Copy, Debug, PartialEq, Eq, Structural)]
pub enum Mark {
    O,
    X,
}

impl Mark {
    /// The mark of the other player.
    pub open spec fn other(self) -> Mark {
        match self {
            Mark::O => Mark::X,
            Mark::X => Mark::O,
        }
    }

    pub fn opposite(self) -> (r: Mark)
        ensures
            r == self.other(),
            r != self,
    {
        match self {
            Mark::O => Mark::X,
            Mark::X => Mark::O,
        }
    }

    /// The mark that `s` names: `X` or `x`, `O` or `o`.
    pub fn from(s: &str) -> (r: Mark)
        requires
            names(s@, Mark::O) || names(s@, Mark::X),
        ensures
            names(s@, r),
    {
        let bytes = s.as_bytes();
        proof {
            assert(vstd::string::is_ascii(s));
            vstd::string::is_ascii_spec_bytes(s);
        }
        if bytes[0] == 88u8 || bytes[0] == 120u8 {
            Mark::X
        } else {
            Mark::O
        }
    }

    /// The letter that shows the mark.
    pub open spec fn letter(self) -> Seq<char> {
        match self {
            Mark::O => seq!['O'],
            Mark::X => seq!['X'],
        }
    }

    pub fn to_string(&self) -> (r: String)
        ensures
            r@ == self.letter(),
    {
        match self {
            Mark::O => {
                proof {
                    reveal_strlit("O");
                }
                String::from_str("O")
            },
            Mark::X => {
                proof {
                    reveal_strlit("X");
                }
                String::from_str("X")
            },
        }
    }
}

/// Swapping the mark twice gives back the mark one started with.
pub proof fn lemma_opposite_involutive(m: Mark)
    ensures
        m.other().other() == m,
{
}

} // verus!
