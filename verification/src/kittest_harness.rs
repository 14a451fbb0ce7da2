//! The `TestHarness` type: a kittest harness together with the state it was
//! started from. Only the wrapper here builds one, so the recorded starting
//! state is always the one handed to kittest. The inner harness is handed out
//! through `Deref`/`DerefMut`, so every kittest query and `run()` works on it
//! directly.

use std::ops::Deref;
use std::ops::DerefMut;

use crate::TestableApp;
use vstd::prelude::*;

verus! {

/// Declares `egui_kittest::Harness`, the kittest test harness (an egui context,
/// its accessibility tree and the application state it drives). Opaque:
/// nothing is claimed of what it holds.
#[verifier::external_type_specification]
#[verifier::external_body]
#[verifier::reject_recursive_types(State)]
pub struct ExHarness<'a, State>(egui_kittest::Harness<'a, State>);

/// Wraps `egui_kittest::Harness` pre-configured for a `TestableApp` implementor.
///
/// Construct via `new()` (uses the app's test state) or `with_state()` (custom
/// state). All `egui_kittest::Harness` methods (widget queries, `run()`,
/// `state()`, etc.) are reachable directly through `Deref` coercion.
pub struct TestHarness<A: TestableApp> {
    inner: egui_kittest::Harness<'static, A::State>,
    /// The state handed to kittest when the harness was built.
    initial: Ghost<A::State>,
}

/// Calls `egui_kittest::Harness::new_state` with `A::build_ui` as the app
/// closure and `state` as the harness state, and wraps the harness it returns
/// together with a ghost of that same `state`. Claimed: the wrapped harness was
/// started from `state`. Not claimed: anything of the harness's contents, since
/// the outside function runs the user's UI for its first frames before
/// returning, and that UI may change the state.
#[verifier::external_body]
pub(crate) fn kittest_harness_new_state<A: TestableApp + 'static>(state: A::State) -> (harness: TestHarness<A>)
    ensures
        harness.initial_state() == state,
{
    let initial = Ghost(state);
    TestHarness { inner: egui_kittest::Harness::new_state(A::build_ui, state), initial }
}

impl<A: TestableApp> TestHarness<A> {
    /// The wrapped kittest harness.
    pub closed spec fn kittest(&self) -> egui_kittest::Harness<'static, A::State> {
        self.inner
    }

    /// The state handed to kittest as the harness state when the harness was
    /// built, before the UI first ran on it.
    pub closed spec fn initial_state(&self) -> A::State {
        self.initial@
    }
}

impl<A: TestableApp> Deref for TestHarness<A> {
    type Target = egui_kittest::Harness<'static, A::State>;

    fn deref(&self) -> (harness: &Self::Target)
        ensures
            *harness == self.kittest(),
    {
        &self.inner
    }
}

impl<A: TestableApp> DerefMut for TestHarness<A> {
    fn deref_mut(&mut self) -> (harness: &mut Self::Target)
        ensures
            *harness == old(self).kittest(),
            final(self).kittest() == *final(harness),
            final(self).initial_state() == old(self).initial_state(),
    {
        &mut self.inner
    }
}

} // verus!
