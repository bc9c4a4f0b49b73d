//! The size of the invoking terminal, and what is left of it for a child.

use vstd::prelude::*;
use vstd::utf8::encode_utf8;

verus! {

broadcast use vstd::slice::group_slice_axioms;

/// The size of a terminal, in character cells.
#[derive(Debug, Clone, Copy, PartialEq, Eq, Structural)]
pub struct Dimensions {
    pub rows: u16,
    pub columns: u16,
}

/// The rows that are assumed where the invoking terminal cannot be asked.
pub const FALLBACK_ROWS: u16 = 25;

/// How many bytes `text` takes, which is what a prefix is taken to cover.
pub open spec fn byte_len(text: Seq<char>) -> nat {
    encode_utf8(text).len()
}

/// Counts the bytes of `text`.
pub fn count_bytes(text: &str) -> (n: usize)
    ensures
        n == byte_len(text@),
{
    text.as_bytes().len()
}

/// The columns left of `width` when `taken` of them are covered, never less
/// than one.
pub open spec fn narrowed_columns(width: int, taken: int) -> int {
    if width - taken > 1 {
        width - taken
    } else {
        1
    }
}

/// The dimensions to plan with: those of the invoking terminal where they
/// are known, else the fallback rows and the columns that the caller named.
pub open spec fn resolved(terminal: Option<Dimensions>, columns: u16) -> Dimensions {
    match terminal {
        Some(dimensions) => dimensions,
        None => Dimensions { rows: FALLBACK_ROWS, columns },
    }
}

/// Picks the dimensions to plan with.
pub fn resolve_dimensions(terminal: Option<Dimensions>, columns: u16) -> (out: Dimensions)
    ensures
        out == resolved(terminal, columns),
{
    match terminal {
        Some(dimensions) => dimensions,
        None => Dimensions { rows: FALLBACK_ROWS, columns },
    }
}

impl Dimensions {
    /// These dimensions with `taken` columns given up.
    pub open spec fn narrowed_by(self, taken: nat) -> Dimensions {
        Dimensions {
            rows: self.rows,
            columns: narrowed_columns(self.columns as int, taken as int) as u16,
        }
    }

    /// Gives up `taken` columns, keeping at least one.
    pub fn narrow(self, taken: usize) -> (out: Dimensions)
        ensures
            out == self.narrowed_by(taken as nat),
            out.rows == self.rows,
            out.columns == narrowed_columns(self.columns as int, taken as int),
    {
        let width: usize = self.columns as usize;
        let columns: u16 = if taken >= width {
            1
        } else if width - taken > 1 {
            (width - taken) as u16
        } else {
            1
        };
        Dimensions { rows: self.rows, columns }
    }
}

/// Calls `termion::terminal_size`, which asks the terminal on standard
/// output for its size and gives the columns first. Nothing is known of the
/// answer, nor whether there is one.
#[verifier::external_body]
pub(crate) fn terminal_size() -> (size: Option<Dimensions>) {
    match termion::terminal_size() {
        Ok((columns, rows)) => Some(Dimensions { rows, columns }),
        Err(_) => None,
    }
}

} // verus!
