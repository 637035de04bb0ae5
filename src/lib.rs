//! Front end of a compiler: source text is turned into position-tagged
//! characters, which are then grouped into string and character literals.
pub mod pair_literal_parsing;
pub mod source_position_marker;

use vstd::prelude::*;

verus! {

/// Sum of two sizes; the caller guarantees that it fits in a `usize`.
pub fn add(left: usize, right: usize) -> (r: usize)
    requires
        left + right <= usize::MAX,
    ensures
        r == left + right,
{
    left + right
}

} // verus!
