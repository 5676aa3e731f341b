//! Arithmetic facts about row-major addressing of a rectangular grid.
//!
//! Both the display surface and the game grid store a `w * h` rectangle in a
//! single row-major vector.  The lemmas here justify the bounds and the
//! injectivity of the `y * w + x` addressing that the rest of the crate uses.

use vstd::prelude::*;

verus! {

/// A cell inside the rectangle maps to an offset inside the vector.
pub proof fn lemma_row_major_in_range(x: int, y: int, w: int, h: int)
    by (nonlinear_arith)
    requires
        0 <= x < w,
        0 <= y < h,
    ensures
        0 <= y * w + x < w * h,
{
}

/// Distinct cells map to distinct offsets.
pub proof fn lemma_row_major_injective(x1: int, y1: int, x2: int, y2: int, w: int)
    by (nonlinear_arith)
    requires
        0 <= x1 < w,
        0 <= x2 < w,
        y1 * w + x1 == y2 * w + x2,
        0 <= y1,
        0 <= y2,
    ensures
        x1 == x2,
        y1 == y2,
{
}

} // verus!
