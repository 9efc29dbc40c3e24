//! The text channel through which a game talks to a person.

use vstd::prelude::*;

verus! {

/// A text channel to a person: lines out, answers in.
pub trait StdIo {
    fn println(&self, text: &str);

    fn prompt(&self) -> String;
}

} // verus!
