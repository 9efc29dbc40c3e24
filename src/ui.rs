//! The messages of a game, and reading a typed cell index.

use vstd::prelude::*;

use crate::std_io::StdIo;
use vstd::string::StringSliceAdditionalSpecFns;

verus! {

/// The line that asks the player with mark `mark` to move.
pub open spec fn turn_message(mark: Seq<char>) -> Seq<char> {
    "Make your move, "@ + mark
}

/// The line that names the winner `mark`.
pub open spec fn winner_message(mark: Seq<char>) -> Seq<char> {
    "The winner is "@ + mark
}

/// The line that announces a draw.
pub open spec fn draw_message() -> Seq<char> {
    "It is a draw game"@
}

/// Builds the line that asks the player with mark `mark_string` to move.
pub fn turn_text(mark_string: &str) -> (r: String)
    ensures
        r@ == turn_message(mark_string@),
{
    let mut text = String::from_str("Make your move, ");
    text.append(mark_string);
    text
}

/// Builds the line that names the winner `mark_string`.
pub fn winner_text(mark_string: &str) -> (r: String)
    ensures
        r@ == winner_message(mark_string@),
{
    let mut text = String::from_str("The winner is ");
    text.append(mark_string);
    text
}

/// Every byte of `ds` is an ASCII digit.
pub open spec fn all_digits(ds: Seq<u8>) -> bool {
    forall|i: int| 0 <= i < ds.len() ==> 48 <= #[trigger] ds[i] <= 57
}

/// The number that the ASCII digits `ds` spell in decimal.
pub open spec fn digits_value(ds: Seq<u8>) -> nat
    decreases ds.len(),
{
    if ds.len() == 0 {
        0
    } else {
        digits_value(ds.drop_last()) * 10 + (ds.last() - 48) as nat
    }
}

/// The text without one leading `+`, if it has one.
pub open spec fn unsigned_part(bs: Seq<u8>) -> Seq<u8> {
    if bs.len() > 0 && bs[0] == 43 {
        bs.drop_first()
    } else {
        bs
    }
}

/// The cell index that the bytes `bs` spell: an optional `+` and at least one
/// decimal digit, nothing else, with a value that fits in a machine word.
pub open spec fn parsed_index(bs: Seq<u8>) -> Option<nat> {
    let ds = unsigned_part(bs);
    if ds.len() > 0 && all_digits(ds) && digits_value(ds) <= usize::MAX {
        Some(digits_value(ds))
    } else {
        None
    }
}

/// A prefix of a run of digits spells no more than the whole run.
proof fn lemma_digits_prefix(ds: Seq<u8>, k: int)
    requires
        all_digits(ds),
        0 <= k <= ds.len(),
    ensures
        digits_value(ds.subrange(0, k)) <= digits_value(ds),
    decreases ds.len(),
{
    if k == ds.len() {
        assert(ds.subrange(0, k) =~= ds);
    } else {
        let front = ds.drop_last();
        lemma_digits_prefix(front, k);
        assert(front.subrange(0, k) =~= ds.subrange(0, k));
    }
}

/// Reads a cell index typed by a player: an optional `+` and decimal digits.
pub fn parse_move(text: &str) -> (r: Option<usize>)
    ensures
        r is Some <==> parsed_index(text.spec_bytes()) is Some,
        r matches Some(v) ==> parsed_index(text.spec_bytes()) == Some(v as nat),
{
    let bytes = text.as_bytes();
    let len = bytes.len();
    let start: usize = if len > 0 && bytes[0] == 43u8 {
        1
    } else {
        0
    };
    let ghost ds = unsigned_part(bytes@);
    assert(ds =~= bytes@.subrange(start as int, len as int));
    if start == len {
        return None;
    }
    let mut value: usize = 0;
    let mut i: usize = start;
    assert(bytes@.subrange(start as int, start as int) =~= Seq::<u8>::empty());
    while i < len
        invariant
            bytes@ == text.spec_bytes(),
            len == bytes@.len(),
            ds == bytes@.subrange(start as int, len as int),
            ds == unsigned_part(bytes@),
            start <= i <= len,
            all_digits(bytes@.subrange(start as int, i as int)),
            value == digits_value(bytes@.subrange(start as int, i as int)),
        decreases len - i,
    {
        let b = bytes[i];
        let ghost done = bytes@.subrange(start as int, i as int);
        let ghost next = bytes@.subrange(start as int, i + 1);
        assert(next.drop_last() =~= done);
        assert(next =~= ds.subrange(0, i + 1 - start));
        if b < 48u8 || b > 57u8 {
            assert(ds[i - start] == b);
            return None;
        }
        assert(digits_value(next) == value * 10 + (b - 48) as nat);
        let step = value.checked_mul(10);
        if step.is_none() {
            proof {
                if all_digits(ds) {
                    lemma_digits_prefix(ds, i + 1 - start);
                    assert(digits_value(ds) > usize::MAX);
                }
            }
            return None;
        }
        let sum = step.unwrap().checked_add((b - 48u8) as usize);
        if sum.is_none() {
            proof {
                if all_digits(ds) {
                    lemma_digits_prefix(ds, i + 1 - start);
                    assert(digits_value(ds) > usize::MAX);
                }
            }
            return None;
        }
        value = sum.unwrap();
        i = i + 1;
    }
    assert(bytes@.subrange(start as int, len as int) =~= ds);
    Some(value)
}

/// The messages of a game, written to a text channel.
#[derive(Debug)]
pub struct Ui<T: StdIo> {
    io: T,
}

impl<T: StdIo> Ui<T> {
    /// The channel the messages go to.
    pub closed spec fn channel(&self) -> T {
        self.io
    }

    pub fn new(io: T) -> (r: Ui<T>)
        ensures
            r.channel() == io,
    {
        Ui { io }
    }

    /// Reads one answer from the channel.
    pub fn prompt(&self) -> String {
        self.io.prompt()
    }

    /// Reads one answer and takes it as a cell index, if it is one.
    pub fn read_move(&self) -> (r: Option<usize>) {
        let text = self.io.prompt();
        parse_move(text.as_str())
    }

    /// Writes `turn_message` for `mark_string`.
    pub fn print_turn_message(&self, mark_string: &str) {
        let text = turn_text(mark_string);
        self.io.println(text.as_str());
    }

    /// Writes `winner_message` for `mark_string`.
    pub fn print_winner(&self, mark_string: &str) {
        let text = winner_text(mark_string);
        self.io.println(text.as_str());
    }

    /// Writes `draw_message`.
    pub fn print_draw(&self) {
        self.io.println("It is a draw game");
    }

    /// Writes `text` as it is.
    pub fn print(&self, text: &str) {
        self.io.println(text);
    }

    /// The channel, to read back from or to replace.
    pub fn io_mut(&mut self) -> (r: &mut T)
        ensures
            *r == old(self).channel(),
            final(self).channel() == *final(r),
    {
        &mut self.io
    }
}

} // verus!
