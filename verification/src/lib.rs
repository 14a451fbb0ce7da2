//! Dual-headed GUI test harness for macroquad+egui applications.
//!
//! The kittest head drives an application's egui UI headlessly through
//! [`TestHarness`]; the visual head configures deterministic windows and
//! compares captured frames pixel by pixel (see [`visual`]).
//! Both heads share the [`TestableApp`] trait.

use vstd::prelude::*;

pub mod visual;

mod harness;

mod kittest_harness;

pub use kittest_harness::TestHarness;

pub use visual::ComparisonResult;

pub use accesskit;

pub use egui_kittest::SnapshotError;

pub mod kittest_prelude;

verus! {

/// Declares `egui::Context`, the egui context handed to the application's UI
/// function. Opaque: nothing is claimed of what it holds.
#[verifier::external_type_specification]
#[verifier::external_body]
pub struct ExContext(egui::Context);

/// Defines a testable egui application.
///
/// Implemented on a zero-sized marker type (e.g., `struct CounterApp;`).
/// The marker type serves as a namespace associating a State type with
/// its UI function. All data lives in `State`, not in the marker.
pub trait TestableApp {
    /// The application's state type: the single source of truth for all UI state.
    type State;

    /// Builds the UI given an egui context and mutable state reference.
    /// Both test heads call this same function.
    fn build_ui(ctx: &egui::Context, state: &mut Self::State);

    /// Creates a deterministic state suitable for testing.
    fn new_test_state() -> Self::State;
}

} // verus!
