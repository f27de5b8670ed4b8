//! The colour hints that accompany what is shown of an entry.

use vstd::prelude::*;

verus! {

/// A colour for the renderer to draw with. The library only names colours;
/// turning one into terminal output is the renderer's business.
#[derive(Debug, Clone, Copy, PartialEq, Eq, Structural)]
pub enum Color {
    DarkGrey,
    DarkGreen,
    DarkYellow,
    DarkRed,
    Red,
    Magenta,
    Blue,
    White,
    Green,
}

} // verus!
