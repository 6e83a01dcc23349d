//! What a matcher can find at a position of the input.

use vstd::prelude::*;

verus! {

/// What a matcher finds at a position: a value and the position behind what it
/// stands for; nothing that it knows; or the keyword of a construct that what
/// follows does not complete.
pub ghost enum Scan<T> {
    Match(T, int),
    NoMatch,
    Fail,
}

/// What a matcher found at a position.
#[derive(Debug, PartialEq, Eq)]
pub enum Outcome<T> {
    /// The value, and the position behind what it stands for.
    Match(T, usize),
    /// Nothing that the matcher knows begins at the position.
    NoMatch,
    /// The keyword of a construct stands at the position, and what follows does
    /// not complete the construct.
    Fail,
}

} // verus!
