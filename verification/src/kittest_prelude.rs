//! Re-exports for writing tests against `TestHarness`.
//!
//! Some egui widgets (like `ComboBox`) expose a role in AccessKit rather than
//! a text label. Use `get_by_role()` with `Role` to query them.

pub use accesskit::Role;
pub use egui_kittest::kittest::Queryable;
