//! A live regular-expression playground library: pattern compilation,
//! match segmentation, capture tabulation, substitution preview, and the
//! interaction state machine that drives an interactive session.

pub mod matcher;
pub mod segmenter;
pub mod session;
pub mod state;
pub mod subst;
pub mod tabulator;
pub mod text;

use vstd::prelude::*;

verus! {

/// Remainder class that selects one of the five highlight colours used to
/// tint successive matches.
pub fn color_class(index: usize) -> (r: usize)
    ensures
        r == index % 5,
        r < 5,
{
    index % 5
}

} // verus!
