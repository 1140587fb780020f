//! Keys that can be compared by their views.

use vstd::prelude::*;

verus! {

/// A value whose executable equality test agrees with equality of views.
pub trait KeyEq: View + Sized {
    /// Whether the two keys are the same.
    fn key_eq(&self, other: &Self) -> (r: bool)
        ensures
            r == (self@ == other@),
    ;
}

} // verus!
