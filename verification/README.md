# orthrus

A dual-headed GUI test harness for macroquad+egui applications, verified with Verus.

- `src/lib.rs` — the `TestableApp` trait shared by both heads.
- `src/kittest_harness.rs` — the `TestHarness` type, the kittest head: an
  `egui_kittest::Harness` with the state it was started from; derefs to it.
- `src/harness.rs` — the typed constructors `TestHarness::new` and `with_state`.
- `src/visual.rs` — the visual head's logic: the deterministic window
  configuration, the RGBA frame comparison with per-channel tolerance and its
  telemetry (`ComparisonResult`), the capture schedule, and the laws proved of them.
- `src/kittest_prelude.rs` — re-exports for writing kittest queries.
- `app/` — the unverified edge: macroquad `Conf` and frame capture, PNG files,
  the `UPDATE_SNAPSHOTS` switch and the floating-point mismatch threshold.
