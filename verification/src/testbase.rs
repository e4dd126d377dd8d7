//! Helpers for unit testing.

use vstd::prelude::*;

verus! {

/// A test fixture that can put itself into a known starting state.
pub trait TestCase {
    /// Builds the fixture's starting state.
    fn setup(&mut self);
}

} // verus!
