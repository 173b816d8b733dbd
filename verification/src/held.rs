//! Keeping a value.
use vstd::prelude::*;

verus! {

/// A value that is kept as it was given.
#[derive(Clone, Copy)]
pub struct Held<T> {
    pub it: T,
}

} // verus!
