// Acceptance test for the kittest head using a minimal counter app.

use orthrus::kittest_prelude::Queryable;
use orthrus::{TestHarness, TestableApp};

struct CounterApp;

struct CounterState {
    count: i32,
    panel_visible: bool,
}

impl TestableApp for CounterApp {
    type State = CounterState;

    fn build_ui(ctx: &egui::Context, state: &mut CounterState) {
        egui::CentralPanel::default().show(ctx, |ui| {
            ui.label(format!("Count: {}", state.count));
            if ui.button("Increment").clicked() {
                state.count += 1;
            }
            if ui.button("Toggle Panel").clicked() {
                state.panel_visible = !state.panel_visible;
            }
            if state.panel_visible {
                ui.label("Panel is visible");
            }
        });
    }

    fn new_test_state() -> CounterState {
        CounterState {
            count: 0,
            panel_visible: false,
        }
    }
}

#[test]
fn click_increment() {
    let mut harness = TestHarness::<CounterApp>::new();

    // Run initial frame to render widgets
    harness.run();

    // Click the increment button
    harness.get_by_label("Increment").click();
    harness.run();

    assert_eq!(harness.state().count, 1);
}

#[test]
fn toggle_panel_shows_label() {
    let mut harness = TestHarness::<CounterApp>::new();
    harness.run();
    assert!(!harness.state().panel_visible);
    assert!(harness.query_by_label("Panel is visible").is_none());

    harness.get_by_label("Toggle Panel").click();
    harness.run();

    assert!(harness.state().panel_visible);
    assert!(harness.query_by_label("Panel is visible").is_some());
}

#[test]
fn with_state_starts_from_given_state() {
    let mut harness = TestHarness::<CounterApp>::with_state(CounterState {
        count: 41,
        panel_visible: true,
    });
    harness.run();
    assert_eq!(harness.state().count, 41);
    harness.get_by_label("Count: 41");
    harness.get_by_label("Panel is visible");

    harness.get_by_label("Increment").click();
    harness.run();
    assert_eq!(harness.state().count, 42);
}

#[test]
fn state_mut_reaches_the_wrapped_state() {
    let mut harness = TestHarness::<CounterApp>::new();
    harness.state_mut().count = 7;
    harness.run();
    harness.get_by_label("Count: 7");
}
