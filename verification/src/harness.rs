//! Typed constructors of `TestHarness` for `TestableApp` implementors.

use crate::kittest_harness::{kittest_harness_new_state, TestHarness};
use crate::TestableApp;
use vstd::prelude::*;

verus! {

impl<A: TestableApp + 'static> TestHarness<A> {
    /// Creates a harness with the default test state from `A::new_test_state()`:
    /// the harness starts from a state that call returned.
    pub fn new() -> (harness: Self)
        ensures
            call_ensures(A::new_test_state, (), harness.initial_state()),
    {
        Self::with_state(A::new_test_state())
    }

    /// Creates a harness with custom state: kittest runs `A::build_ui` starting
    /// from `state`.
    pub fn with_state(state: A::State) -> (harness: Self)
        ensures
            harness.initial_state() == state,
    {
        kittest_harness_new_state::<A>(state)
    }
}

} // verus!
